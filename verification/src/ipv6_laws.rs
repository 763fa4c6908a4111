//! Which texts write an IPv6 address, and which address they write.
use crate::address::{
    all_groups, colons_at, first_colons, group_count, ipv4_text, is_group, is_ipv6_text,
    is_scoped_ipv6_text, is_socket_v6_text, lemma_first_colons, lemma_ipv4_text_chars,
    lemma_ipv4_text_is_read_back, lemma_ipv4_text_is_the_only_one, parse_ipv4, parse_socket_v4,
    Ipv4Addr, SocketAddr,
};
use crate::list_laws::lemma_joined_pieces_are_split_again;
use crate::socket_text::{
    group_values, groups_value, hex_value, ipv6_groups, parse_socket, part_values,
};
use crate::text::{
    decimal, first_index, is_digit, is_hex_digit, is_number, join, lemma_char_in_piece,
    lemma_decimal_is_read_back, lemma_first_index, lemma_first_index_is, lemma_split_join,
    number_value, split,
};
use vstd::prelude::*;

verus! {

/// The pieces of two texts with a separator between them are the pieces of both.
proof fn lemma_split_parts(a: Seq<char>, b: Seq<char>, c: char)
    ensures
        split(a + seq![c] + b, c) == split(a, c) + split(b, c),
    decreases b.len(),
{
    let whole = a + seq![c] + b;
    lemma_split_join(b, c);
    if b.len() == 0 {
        assert(whole.drop_last() =~= a);
        assert(whole.last() == c);
        assert(split(whole, c) =~= split(a, c) + split(b, c));
    } else {
        let front = b.drop_last();
        lemma_split_parts(a, front, c);
        lemma_split_join(front, c);
        assert(whole.drop_last() =~= a + seq![c] + front);
        assert(whole.last() == b.last());
        let both = split(a, c) + split(front, c);
        assert(both.drop_last() =~= split(a, c) + split(front, c).drop_last());
        assert(both.last() == split(front, c).last());
        assert(split(whole, c) =~= split(a, c) + split(b, c));
    }
}

/// Two adjacent colons have an empty piece between them.
proof fn lemma_colons_make_an_empty_piece(s: Seq<char>, at: int)
    requires
        colons_at(s, at),
    ensures
        exists|i: int| 0 <= i < split(s, ':').len() && (#[trigger] split(s, ':')[i]).len() == 0,
{
    let a = s.take(at);
    let none = Seq::<char>::empty();
    let rest = s.skip(at + 2);
    let back = none + seq![':'] + rest;
    assert(s =~= a + seq![':'] + back);
    lemma_split_parts(a, back, ':');
    lemma_split_parts(none, rest, ':');
    let i = split(a, ':').len() as int;
    assert(split(none, ':') =~= seq![none]);
    assert(split(s, ':')[i] == none);
}

/// Groups hold no colon.
proof fn lemma_group_has_no_colon(s: Seq<char>)
    requires
        is_group(s),
    ensures
        !s.contains(':'),
        !s.contains('.'),
{
    if s.contains(':') {
        let i = choose|i: int| 0 <= i < s.len() && s[i] == ':';
        assert(is_hex_digit(s[i]));
    }
    if s.contains('.') {
        let i = choose|i: int| 0 <= i < s.len() && s[i] == '.';
        assert(is_hex_digit(s[i]));
    }
}

/// Groups with a colon between them: their pieces, and where no two colons stand together.
proof fn lemma_joined_groups(groups: Seq<Seq<char>>, ipv4_end: bool)
    requires
        forall|i: int| 0 <= i < groups.len() ==> is_group(#[trigger] groups[i]),
    ensures
        ({
            let s = join(groups, seq![':']);
            &&& group_count(s, ipv4_end) == Some(groups.len())
            &&& group_values(s) == part_values(groups)
            &&& forall|at: int| !#[trigger] colons_at(s, at)
            &&& s.len() == 0 <==> groups.len() == 0
            &&& s.len() > 0 ==> s[0] != ':' && s.last() != ':'
        }),
{
    let s = join(groups, seq![':']);
    if groups.len() == 0 {
        assert(part_values(groups) =~= Seq::empty());
    } else {
        assert forall|i: int| 0 <= i < groups.len() implies !(#[trigger] groups[i]).contains(
            ':',
        ) by {
            assert(is_group(groups[i]));
            lemma_group_has_no_colon(groups[i]);
        }
        lemma_joined_pieces_are_split_again(groups, ':');
        assert(is_group(groups[0]));
        assert(is_group(groups[groups.len() - 1]));
        lemma_joined_ends(groups);
        assert forall|at: int| !#[trigger] colons_at(s, at) by {
            if colons_at(s, at) {
                lemma_colons_make_an_empty_piece(s, at);
                let i = choose|i: int|
                    0 <= i < split(s, ':').len() && (#[trigger] split(s, ':')[i]).len() == 0;
                assert(is_group(groups[i]));
            }
        }
        assert(all_groups(groups));
    }
}

/// Joined groups start and end with hexadecimal digits.
proof fn lemma_joined_ends(groups: Seq<Seq<char>>)
    requires
        groups.len() > 0,
        forall|i: int| 0 <= i < groups.len() ==> is_group(#[trigger] groups[i]),
    ensures
        ({
            let s = join(groups, seq![':']);
            s.len() > 0 && is_hex_digit(s[0]) && is_hex_digit(s.last())
        }),
    decreases groups.len(),
{
    let s = join(groups, seq![':']);
    let last = groups[groups.len() - 1];
    assert(is_group(last));
    assert(is_hex_digit(last[last.len() - 1]));
    assert(is_hex_digit(last[0]));
    if groups.len() > 1 {
        let front = groups.drop_last();
        assert forall|i: int| 0 <= i < front.len() implies is_group(#[trigger] front[i]) by {
            assert(front[i] == groups[i]);
        }
        lemma_joined_ends(front);
        assert(s[0] == join(front, seq![':'])[0]);
        assert(s.last() == last.last());
    }
}

/// Groups of one to four hexadecimal digits with a colon between them write an IPv6 address exactly
/// where there are eight of them, and the address has these groups.
pub proof fn lemma_eight_groups_are_an_address(groups: Seq<Seq<char>>)
    requires
        groups.len() > 0,
        forall|i: int| 0 <= i < groups.len() ==> is_group(#[trigger] groups[i]),
    ensures
        is_ipv6_text(join(groups, seq![':'])) <==> groups.len() == 8,
        ipv6_groups(join(groups, seq![':'])) == part_values(groups),
{
    let s = join(groups, seq![':']);
    lemma_joined_groups(groups, true);
    lemma_first_colons(s);
    if first_colons(s) < s.len() {
        assert(colons_at(s, first_colons(s)));
    }
}

/// Groups on both sides of two colons write an IPv6 address exactly where there are at most seven,
/// and the missing groups are zeros.
pub proof fn lemma_two_colons_stand_for_zeros(head: Seq<Seq<char>>, tail: Seq<Seq<char>>)
    requires
        forall|i: int| 0 <= i < head.len() ==> is_group(#[trigger] head[i]),
        forall|i: int| 0 <= i < tail.len() ==> is_group(#[trigger] tail[i]),
    ensures
        ({
            let s = join(head, seq![':']) + seq![':', ':'] + join(tail, seq![':']);
            &&& is_ipv6_text(s) <==> head.len() + tail.len() <= 7
            &&& head.len() + tail.len() <= 7 ==> ipv6_groups(s) == part_values(head) + Seq::new(
                (8 - head.len() - tail.len()) as nat,
                |i: int| 0nat,
            ) + part_values(tail)
        }),
{
    let before = join(head, seq![':']);
    let after = join(tail, seq![':']);
    let s = before + seq![':', ':'] + after;
    let at = before.len() as int;
    lemma_joined_groups(head, false);
    lemma_joined_groups(tail, true);
    lemma_first_colons(s);
    assert(colons_at(s, at));
    assert forall|i: int| 0 <= i < at implies !#[trigger] colons_at(s, i) by {
        if colons_at(s, i) {
            assert(s[i] == before[i]);
            if i + 1 < at {
                assert(s[i + 1] == before[i + 1]);
                assert(colons_at(before, i));
            }
        }
    }
    if first_colons(s) < at {
        assert(colons_at(s, first_colons(s)));
    }
    if first_colons(s) > at {
        assert(!colons_at(s, at));
    }
    assert(s.take(at) =~= before);
    assert(s.skip(at + 2) =~= after);
}

/// Six groups and an IPv4 address write an IPv6 address that ends in the IPv4 address.
pub proof fn lemma_ipv4_may_end_an_address(groups: Seq<Seq<char>>, ip: Ipv4Addr)
    requires
        groups.len() == 6,
        forall|i: int| 0 <= i < groups.len() ==> is_group(#[trigger] groups[i]),
    ensures
        ({
            let s = join(groups, seq![':']) + seq![':'] + ipv4_text(ip);
            is_ipv6_text(s) && ipv6_groups(s) == part_values(groups) + seq![
                (ip.a * 256 + ip.b) as nat,
                (ip.c * 256 + ip.d) as nat,
            ]
        }),
{
    let end = ipv4_text(ip);
    let parts = groups.push(end);
    let s = join(groups, seq![':']) + seq![':'] + end;
    lemma_ipv4_text_is_read_back(ip);
    lemma_ipv4_text_chars(ip);
    assert(parts.drop_last() =~= groups);
    assert(join(parts, seq![':']) == s);
    assert forall|i: int| 0 <= i < parts.len() implies !(#[trigger] parts[i]).contains(':') by {
        if i < 6 {
            assert(is_group(groups[i]));
            lemma_group_has_no_colon(groups[i]);
        } else if end.contains(':') {
            let j = choose|j: int| 0 <= j < end.len() && end[j] == ':';
            assert(is_digit(end[j]) || end[j] == '.');
        }
    }
    lemma_joined_pieces_are_split_again(parts, ':');
    assert(!is_group(end)) by {
        if is_group(end) {
            lemma_group_has_no_colon(end);
            crate::text::lemma_split_whole(end, '.');
        }
    }
    assert(parts[6] == end);
    assert(!all_groups(parts));
    assert(all_groups(groups));
    lemma_first_colons(s);
    let at = first_colons(s);
    if at < s.len() {
        assert(colons_at(s, at));
        lemma_colons_make_an_empty_piece(s, at);
        let i = choose|i: int|
            0 <= i < split(s, ':').len() && (#[trigger] split(s, ':')[i]).len() == 0;
        if i < 6 {
            assert(is_group(groups[i]));
        }
    }
}

/// The number that a group writes: the digits count sixteen times less from one place to the next,
/// and capitals count like small letters.
pub proof fn lemma_groups_are_hexadecimal(s: Seq<char>, c: char)
    requires
        is_hex_digit(c),
    ensures
        hex_value(Seq::empty()) == 0,
        '0' <= c && c <= '9' ==> hex_value(s.push(c)) == hex_value(s) * 16 + (c as int - '0' as int),
        'a' <= c && c <= 'f' ==> hex_value(s.push(c)) == hex_value(s) * 16 + (c as int - 'a' as int)
            + 10,
        'A' <= c && c <= 'F' ==> hex_value(s.push(c)) == hex_value(s) * 16 + (c as int - 'A' as int)
            + 10,
{
    assert(s.push(c).drop_last() =~= s);
}

/// The bits of an address are its groups, the first the highest.
pub proof fn lemma_groups_make_the_bits(groups: Seq<nat>, group: nat)
    ensures
        groups_value(Seq::empty()) == 0,
        groups_value(groups.push(group)) == groups_value(groups) * 65536 + group,
{
    assert(groups.push(group).drop_last() =~= groups);
}

/// An IPv6 address in brackets with a port writes that address and that port, without flow
/// information and scope.
pub proof fn lemma_socket_v6_is_read(ip: Seq<char>, port: u16)
    requires
        is_ipv6_text(ip),
    ensures
        parse_socket(seq!['['] + ip + seq![']', ':'] + decimal(port as nat)) == Some(
            SocketAddr::V6 {
                bits: groups_value(ipv6_groups(ip)) as u128,
                port,
                flowinfo: 0,
                scope_id: 0,
            },
        ),
{
    lemma_address_holds_no(ip, ']');
    lemma_address_holds_no(ip, '%');
    lemma_first_index(ip, '%');
    assert(ip.take(ip.len() as int) =~= ip);
    lemma_bracketed_socket(ip, port);
}

/// An IPv6 address with a scope in brackets with a port writes the address, the scope and the port.
pub proof fn lemma_scoped_socket_v6_is_read(ip: Seq<char>, scope: u32, port: u16)
    requires
        is_ipv6_text(ip),
    ensures
        parse_socket(
            seq!['['] + (ip + seq!['%'] + decimal(scope as nat)) + seq![']', ':'] + decimal(
                port as nat,
            ),
        ) == Some(
            SocketAddr::V6 {
                bits: groups_value(ipv6_groups(ip)) as u128,
                port,
                flowinfo: 0,
                scope_id: scope,
            },
        ),
{
    lemma_address_holds_no(ip, ']');
    lemma_address_holds_no(ip, '%');
    let digits = decimal(scope as nat);
    let inside = ip + seq!['%'] + digits;
    lemma_decimal_is_read_back(scope as nat);
    assert forall|i: int| 0 <= i < ip.len() implies #[trigger] inside[i] != '%' by {
        assert(inside[i] == ip[i]);
    }
    lemma_first_index_is(inside, '%', ip.len() as int);
    assert(inside.take(ip.len() as int) =~= ip);
    assert(inside.skip(ip.len() + 1int) =~= digits);
    assert(!inside.contains(']')) by {
        if inside.contains(']') {
            let i = choose|i: int| 0 <= i < inside.len() && inside[i] == ']';
            if i < ip.len() {
                assert(ip[i] == ']');
            } else if i > ip.len() {
                assert(is_digit(digits[i - ip.len() - 1]));
            }
        }
    }
    lemma_bracketed_socket(inside, port);
}

/// The parts of an address in brackets with a port.
proof fn lemma_bracketed_socket(inside: Seq<char>, port: u16)
    requires
        is_scoped_ipv6_text(inside),
        !inside.contains(']'),
    ensures
        ({
            let text = seq!['['] + inside + seq![']', ':'] + decimal(port as nat);
            let at = first_index(text, ']');
            &&& parse_socket_v4(text) is None
            &&& is_socket_v6_text(text)
            &&& text.subrange(1, at) == inside
            &&& number_value(text.skip(at + 2)) == port
        }),
{
    let digits = decimal(port as nat);
    let text = seq!['['] + inside + seq![']', ':'] + digits;
    let at = inside.len() + 1int;
    lemma_decimal_is_read_back(port as nat);
    assert forall|i: int| 0 <= i < at implies #[trigger] text[i] != ']' by {
        if i > 0 {
            assert(text[i] == inside[i - 1]);
        }
    }
    assert(text[at] == ']');
    lemma_first_index_is(text, ']', at);
    assert(text.subrange(1, at) =~= inside);
    assert(text.skip(at + 2) =~= digits);
    let colon = first_index(text, ':');
    lemma_first_index(text, ':');
    if let Some(ip) = parse_socket_v4(text) {
        let front = text.take(colon);
        lemma_ipv4_text_is_the_only_one(front);
        lemma_ipv4_text_chars(ip);
        assert(front[0] == '[');
    }
}

/// Groups between colons, of which the last may be an IPv4 address, are made of hexadecimal digits,
/// colons and dots.
proof fn lemma_group_characters(s: Seq<char>, ipv4_end: bool, i: int)
    requires
        group_count(s, ipv4_end) is Some,
        0 <= i < s.len(),
    ensures
        is_hex_digit(s[i]) || s[i] == ':' || s[i] == '.',
{
    let x = s[i];
    let parts = split(s, ':');
    lemma_split_join(s, ':');
    if x != ':' {
        assert(s.contains(x));
        lemma_char_in_piece(s, ':', x);
        let k = choose|k: int| 0 <= k < parts.len() && (#[trigger] parts[k]).contains(x);
        let j = choose|j: int| 0 <= j < parts[k].len() && parts[k][j] == x;
        if is_group(parts[k]) {
            assert(is_hex_digit(parts[k][j]));
        } else {
            if k < parts.len() - 1 {
                assert(parts.drop_last()[k] == parts[k]);
            }
            let ip = parse_ipv4(parts.last())->0;
            lemma_ipv4_text_is_the_only_one(parts.last());
            lemma_ipv4_text_chars(ip);
            assert(is_digit(ipv4_text(ip)[j]) || ipv4_text(ip)[j] == '.');
        }
    }
}

/// An IPv6 address is written with hexadecimal digits, colons and dots alone.
pub proof fn lemma_addresses_are_written_in_hexadecimal(s: Seq<char>, i: int)
    requires
        is_ipv6_text(s),
        0 <= i < s.len(),
    ensures
        is_hex_digit(s[i]) || s[i] == ':' || s[i] == '.',
{
    let at = first_colons(s);
    lemma_first_colons(s);
    if at < s.len() {
        if i < at {
            lemma_group_characters(s.take(at), false, i);
        } else if i >= at + 2 {
            lemma_group_characters(s.skip(at + 2), true, i - at - 2);
        }
    } else {
        lemma_group_characters(s, true, i);
    }
}

/// An IPv6 address holds none of the other characters.
proof fn lemma_address_holds_no(s: Seq<char>, c: char)
    requires
        is_ipv6_text(s),
        !is_hex_digit(c),
        c != ':',
        c != '.',
    ensures
        !s.contains(c),
{
    if s.contains(c) {
        let i = choose|i: int| 0 <= i < s.len() && s[i] == c;
        lemma_addresses_are_written_in_hexadecimal(s, i);
    }
}

/// A group has one to four hexadecimal digits.
pub proof fn lemma_groups_have_up_to_four_digits(s: Seq<char>)
    ensures
        is_group(s) <==> 1 <= s.len() <= 4 && forall|i: int|
            0 <= i < s.len() ==> ('0' <= #[trigger] s[i] && s[i] <= '9') || ('a' <= s[i] && s[i]
                <= 'f') || ('A' <= s[i] && s[i] <= 'F'),
{
    if is_group(s) {
        assert forall|i: int| 0 <= i < s.len() implies ('0' <= #[trigger] s[i] && s[i] <= '9') || (
        'a' <= s[i] && s[i] <= 'f') || ('A' <= s[i] && s[i] <= 'F') by {
            assert(is_hex_digit(s[i]));
        }
    }
}

/// A text that writes an IPv4 address with a port is the dotted decimal form of that address, a
/// colon and the digits of that port.
pub proof fn lemma_socket_v4_texts(s: Seq<char>)
    ensures
        parse_socket(s) matches Some(SocketAddr::V4 { ip, port }) ==> s.len() > ipv4_text(ip).len()
            && s.take(ipv4_text(ip).len() as int) == ipv4_text(ip) && s[ipv4_text(ip).len() as int]
            == ':' && is_number(s.skip(ipv4_text(ip).len() + 1int)) && number_value(
            s.skip(ipv4_text(ip).len() + 1int),
        ) == port,
{
    if let Some(SocketAddr::V4 { ip, port }) = parse_socket(s) {
        let at = first_index(s, ':');
        lemma_first_index(s, ':');
        lemma_ipv4_text_is_the_only_one(s.take(at));
    }
}

/// A text writes a socket address only if it writes an IPv4 or an IPv6 address with a port.
pub proof fn lemma_socket_texts(s: Seq<char>)
    ensures
        parse_socket(s) is Some <==> parse_socket_v4(s) is Some || is_socket_v6_text(s),
        is_socket_v6_text(s) ==> s[0] == '[' && s.contains(']') && s.contains(':'),
        crate::socket_client::is_socket_text(s) <==> parse_socket(s) is Some,
{
    lemma_first_index(s, ']');
    if is_socket_v6_text(s) {
        assert(s[first_index(s, ']') + 1] == ':');
    }
}

} // verus!
