//! The case of letters does not matter to which host a target names.
use crate::address::{
    all_groups, colons_at, first_colons, group_count, is_group, is_ipv6_text,
    is_scoped_ipv6_text, is_socket_v6_text, lemma_first_colons, lemma_ipv4_text_chars,
    lemma_ipv4_text_is_the_only_one, parse_ipv4, parse_socket_v4,
};
use crate::direct_server::{host_name, is_direct, normalized};
use crate::text::{
    first_index, is_digit, is_hex_digit, is_number, is_space, last_index, lemma_first_index,
    lemma_first_index_is, lemma_last_index, lemma_last_index_is, lower, lower_char, parse_number,
    parse_port, split, strip_first, trim, trim_end, trim_end_char, trim_start,
};
use vstd::prelude::*;

verus! {

/// No character of `s` is an ASCII capital.
spec fn no_capitals(s: Seq<char>) -> bool {
    forall|i: int| 0 <= i < s.len() ==> lower_char(#[trigger] s[i]) == s[i]
}

/// A text without capitals stays as it is.
proof fn lemma_lower_keeps(s: Seq<char>)
    requires
        no_capitals(s),
    ensures
        lower(s) == s,
{
    assert(lower(s) =~= s);
}

/// A number is the same in small letters.
proof fn lemma_number_lower(s: Seq<char>, max: nat)
    ensures
        parse_number(lower(s), max) == parse_number(s, max),
        is_number(lower(s)) == is_number(s),
{
    let low = lower(s);
    if is_number(s) {
        assert forall|i: int| 0 <= i < s.len() implies lower_char(#[trigger] s[i]) == s[i] by {
            assert(is_digit(s[i]));
        }
        lemma_lower_keeps(s);
    }
    if is_number(low) {
        assert forall|i: int| 0 <= i < s.len() implies lower_char(#[trigger] s[i]) == s[i] by {
            assert(is_digit(low[i]));
            assert(low[i] == lower_char(s[i]));
        }
        lemma_lower_keeps(s);
    }
}

/// A port is the same in small letters.
proof fn lemma_port_lower(s: Seq<char>)
    ensures
        parse_port(lower(s)) == parse_port(s),
{
    let low = lower(s);
    if s.len() > 0 {
        assert(low[0] == lower_char(s[0]));
    }
    assert(strip_first(low, '+') =~= lower(strip_first(s, '+')));
    lemma_number_lower(strip_first(s, '+'), u16::MAX as nat);
}

/// The characters of an IPv4 address are no capitals.
proof fn lemma_ipv4_no_capitals(s: Seq<char>)
    requires
        parse_ipv4(s) is Some,
    ensures
        no_capitals(s),
        forall|i: int| 0 <= i < s.len() ==> is_digit(#[trigger] s[i]) || s[i] == '.',
{
    lemma_ipv4_text_is_the_only_one(s);
    lemma_ipv4_text_chars(parse_ipv4(s)->0);
}

/// An IPv4 address is the same in small letters.
proof fn lemma_ipv4_lower(s: Seq<char>)
    ensures
        parse_ipv4(lower(s)) == parse_ipv4(s),
{
    let low = lower(s);
    if parse_ipv4(s) is Some {
        lemma_ipv4_no_capitals(s);
        lemma_lower_keeps(s);
    }
    if parse_ipv4(low) is Some {
        lemma_ipv4_no_capitals(low);
        assert forall|i: int| 0 <= i < s.len() implies lower_char(#[trigger] s[i]) == s[i] by {
            assert(is_digit(low[i]) || low[i] == '.');
            assert(low[i] == lower_char(s[i]));
        }
        lemma_lower_keeps(s);
    }
}

/// A separator stands at the same places in small letters.
proof fn lemma_index_lower(s: Seq<char>, c: char)
    requires
        !('a' <= c && c <= 'z'),
        !('A' <= c && c <= 'Z'),
    ensures
        first_index(lower(s), c) == first_index(s, c),
        last_index(lower(s), c) == last_index(s, c),
{
    let low = lower(s);
    lemma_first_index(s, c);
    lemma_last_index(s, c);
    let first = first_index(s, c);
    let last = last_index(s, c);
    assert forall|i: int| 0 <= i < first implies #[trigger] low[i] != c by {
        assert(s[i] != c);
    }
    assert forall|i: int| last < i < s.len() implies #[trigger] low[i] != c by {
        assert(s[i] != c);
    }
    lemma_first_index_is(low, c, first);
    lemma_last_index_is(low, c, last);
}

/// The start and the end of a text in small letters.
proof fn lemma_cut_lower(s: Seq<char>, i: int, j: int)
    requires
        0 <= i <= j <= s.len(),
    ensures
        lower(s).take(j) == lower(s.take(j)),
        lower(s).skip(i) == lower(s.skip(i)),
        lower(s).subrange(i, j) == lower(s.subrange(i, j)),
{
    assert(lower(s).take(j) =~= lower(s.take(j)));
    assert(lower(s).skip(i) =~= lower(s.skip(i)));
    assert(lower(s).subrange(i, j) =~= lower(s.subrange(i, j)));
}

/// The pieces of a text in small letters.
spec fn lower_all(parts: Seq<Seq<char>>) -> Seq<Seq<char>> {
    parts.map_values(|part: Seq<char>| lower(part))
}

/// The pieces of a text in small letters are its pieces in small letters.
proof fn lemma_split_lower(s: Seq<char>, c: char)
    requires
        !('a' <= c && c <= 'z'),
        !('A' <= c && c <= 'Z'),
    ensures
        split(lower(s), c) == lower_all(split(s, c)),
    decreases s.len(),
{
    let low = lower(s);
    crate::text::lemma_split_join(s, c);
    if s.len() == 0 {
        assert(lower(Seq::<char>::empty()) =~= Seq::<char>::empty());
        assert(split(low, c) =~= lower_all(split(s, c)));
    } else {
        let front = s.drop_last();
        let pieces = split(front, c);
        lemma_split_lower(front, c);
        crate::text::lemma_split_join(front, c);
        assert(low.drop_last() =~= lower(front));
        assert(low.last() == lower_char(s.last()));
        if s.last() == c {
            assert(lower(Seq::<char>::empty()) =~= Seq::<char>::empty());
            assert(split(low, c) =~= lower_all(split(s, c)));
        } else {
            let last = pieces.last();
            assert(lower_all(pieces).last() == lower(last));
            assert(lower(last).push(low.last()) =~= lower(last.push(s.last())));
            assert(lower_all(pieces).drop_last() =~= lower_all(pieces.drop_last()));
            assert(split(low, c) =~= lower_all(split(s, c)));
        }
    }
}

/// A group is a group in small letters.
proof fn lemma_group_lower(s: Seq<char>)
    ensures
        is_group(lower(s)) == is_group(s),
{
    let low = lower(s);
    if is_group(s) {
        assert forall|i: int| 0 <= i < low.len() implies is_hex_digit(#[trigger] low[i]) by {
            assert(is_hex_digit(s[i]));
        }
    }
    if is_group(low) {
        assert forall|i: int| 0 <= i < s.len() implies is_hex_digit(#[trigger] s[i]) by {
            assert(is_hex_digit(low[i]));
            assert(low[i] == lower_char(s[i]));
        }
    }
}

/// Groups are groups in small letters.
proof fn lemma_groups_lower(parts: Seq<Seq<char>>)
    ensures
        all_groups(lower_all(parts)) == all_groups(parts),
{
    let low = lower_all(parts);
    assert forall|i: int| 0 <= i < parts.len() implies is_group(#[trigger] low[i]) == is_group(
        parts[i],
    ) by {
        lemma_group_lower(parts[i]);
    }
    if all_groups(low) {
        assert forall|i: int| 0 <= i < parts.len() implies is_group(#[trigger] parts[i]) by {
            assert(is_group(low[i]));
        }
    }
}

/// A text in small letters writes as many groups.
proof fn lemma_group_count_lower(s: Seq<char>, ipv4_end: bool)
    ensures
        group_count(lower(s), ipv4_end) == group_count(s, ipv4_end),
{
    let parts = split(s, ':');
    lemma_split_lower(s, ':');
    crate::text::lemma_split_join(s, ':');
    lemma_groups_lower(parts);
    lemma_groups_lower(parts.drop_last());
    lemma_ipv4_lower(parts.last());
    assert(lower_all(parts).drop_last() =~= lower_all(parts.drop_last()));
    assert(lower_all(parts).last() == lower(parts.last()));
}

/// Adjacent colons stand at the same place in small letters.
proof fn lemma_colons_lower(s: Seq<char>)
    ensures
        first_colons(lower(s)) == first_colons(s),
    decreases s.len(),
{
    let low = lower(s);
    assert(colons_at(low, 0) == colons_at(s, 0));
    if s.len() > 0 && !colons_at(s, 0) {
        lemma_colons_lower(s.skip(1));
        assert(low.skip(1) =~= lower(s.skip(1)));
    }
}

/// An IPv6 address is one in small letters.
proof fn lemma_ipv6_lower(s: Seq<char>)
    ensures
        is_ipv6_text(lower(s)) == is_ipv6_text(s),
{
    let at = first_colons(s);
    lemma_colons_lower(s);
    lemma_first_colons(s);
    if at < s.len() {
        lemma_cut_lower(s, at + 2, s.len() as int);
        lemma_cut_lower(s, 0, at);
        lemma_group_count_lower(s.take(at), false);
        lemma_group_count_lower(s.skip(at + 2), true);
    } else {
        lemma_group_count_lower(s, true);
    }
}

/// An IPv6 address with a scope is one in small letters.
proof fn lemma_scoped_lower(s: Seq<char>)
    ensures
        is_scoped_ipv6_text(lower(s)) == is_scoped_ipv6_text(s),
{
    let at = first_index(s, '%');
    lemma_index_lower(s, '%');
    lemma_first_index(s, '%');
    lemma_ipv6_lower(s);
    if at < s.len() {
        lemma_cut_lower(s, 0, at);
        lemma_cut_lower(s, at + 1, s.len() as int);
        lemma_ipv6_lower(s.take(at));
        lemma_number_lower(s.skip(at + 1), u32::MAX as nat);
    }
}

/// A socket address is the same in small letters.
proof fn lemma_socket_lower(s: Seq<char>)
    ensures
        parse_socket_v4(lower(s)) == parse_socket_v4(s),
        is_socket_v6_text(lower(s)) == is_socket_v6_text(s),
{
    let low = lower(s);
    let colon = first_index(s, ':');
    lemma_index_lower(s, ':');
    lemma_first_index(s, ':');
    if colon < s.len() {
        lemma_cut_lower(s, 0, colon);
        lemma_cut_lower(s, colon + 1, s.len() as int);
        lemma_number_lower(s.skip(colon + 1), u16::MAX as nat);
        lemma_ipv4_lower(s.take(colon));
    }
    let at = first_index(s, ']');
    lemma_index_lower(s, ']');
    lemma_first_index(s, ']');
    if s.len() > 0 && s[0] == '[' && at + 1 < s.len() && s[at + 1] == ':' {
        lemma_cut_lower(s, 1, at);
        lemma_cut_lower(s, at + 2, s.len() as int);
        lemma_scoped_lower(s.subrange(1, at));
        lemma_number_lower(s.skip(at + 2), u16::MAX as nat);
    }
    if s.len() > 0 {
        assert(low[0] == lower_char(s[0]));
    }
    if at + 1 < s.len() {
        assert(low[at + 1] == lower_char(s[at + 1]));
    }
}

/// White space at the start is cut off before or after the letters are made small.
proof fn lemma_trim_start_lower(s: Seq<char>)
    ensures
        trim_start(lower(s)) == lower(trim_start(s)),
    decreases s.len(),
{
    let low = lower(s);
    if s.len() > 0 {
        assert(low[0] == lower_char(s[0]));
        lemma_trim_start_lower(s.skip(1));
        assert(low.skip(1) =~= lower(s.skip(1)));
    }
}

/// White space at the end is cut off before or after the letters are made small.
proof fn lemma_trim_end_lower(s: Seq<char>)
    ensures
        trim_end(lower(s)) == lower(trim_end(s)),
    decreases s.len(),
{
    let low = lower(s);
    if s.len() > 0 {
        assert(low.last() == lower_char(s.last()));
        lemma_trim_end_lower(s.drop_last());
        assert(low.drop_last() =~= lower(s.drop_last()));
    }
}

/// Final dots are cut off before or after the letters are made small.
proof fn lemma_trim_dots_lower(s: Seq<char>)
    ensures
        trim_end_char(lower(s), '.') == lower(trim_end_char(s, '.')),
    decreases s.len(),
{
    let low = lower(s);
    if s.len() > 0 {
        assert(low.last() == lower_char(s.last()));
        lemma_trim_dots_lower(s.drop_last());
        assert(low.drop_last() =~= lower(s.drop_last()));
    }
}

/// A host name is the same in small letters.
proof fn lemma_host_name_lower(s: Seq<char>)
    ensures
        host_name(lower(s)) == host_name(s),
{
    let name = trim_end_char(s, '.');
    let low = lower(name);
    lemma_trim_dots_lower(s);
    lemma_ipv6_lower(name);
    assert(lower(low) =~= low);
    if exists|i: int| 0 <= i < name.len() && is_space(#[trigger] name[i]) {
        let i = choose|i: int| 0 <= i < name.len() && is_space(#[trigger] name[i]);
        assert(is_space(low[i]));
    }
    if exists|i: int| 0 <= i < low.len() && is_space(#[trigger] low[i]) {
        let i = choose|i: int| 0 <= i < low.len() && is_space(#[trigger] low[i]);
        assert(low[i] == lower_char(name[i]));
        assert(is_space(name[i]));
    }
}

/// The case of letters does not matter to which host a target names, nor to whether it is one of
/// the direct servers.
pub proof fn lemma_case_does_not_matter(target: Seq<char>, configured: Seq<char>)
    ensures
        normalized(lower(target)) == normalized(target),
        is_direct(lower(target), configured) == is_direct(target, configured),
{
    let trimmed = trim(target);
    lemma_trim_start_lower(target);
    lemma_trim_end_lower(trim_start(target));
    assert(trim(lower(target)) == lower(trimmed));
    lemma_socket_lower(trimmed);
    lemma_ipv4_lower(trimmed);
    lemma_index_lower(trimmed, ':');
    lemma_last_index(trimmed, ':');
    lemma_host_name_lower(trimmed);
    let at = last_index(trimmed, ':');
    if at >= 0 {
        lemma_cut_lower(trimmed, 0, at);
        lemma_cut_lower(trimmed, at + 1, trimmed.len() as int);
        lemma_host_name_lower(trimmed.take(at));
        lemma_port_lower(trimmed.skip(at + 1));
    }
}

} // verus!
