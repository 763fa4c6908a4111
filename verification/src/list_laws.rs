//! What the entries of the list of direct servers mean for targets, and which texts name a host.
use crate::address::{
    ipv4_text, is_ipv6_text, is_socket_v6_text, lemma_ipv4_text_chars,
    lemma_ipv4_text_is_read_back, lemma_ipv4_text_is_the_only_one, lemma_ipv6_text_has_colon,
    parse_ipv4, parse_socket_v4, Ipv4Addr,
};
use crate::direct_laws::{
    lemma_ipv4_has_no_colon, lemma_no_colon_no_socket, lemma_trim_keeps, lemma_trimmed_ends,
};
use crate::direct_server::{
    entry_alias, interface_view, interface_views, is_direct, lists_alias, lists_host, normalized,
    only_alias, resolution, text_view, DirectInterface,
};
use crate::routing_laws::lemma_rsplit_is_at_the_last;
use crate::text::{
    decimal, first_index, is_digit, is_hex_digit, is_number, is_space, join,
    lemma_decimal_is_read_back, lemma_first_index, lemma_last_index, lemma_split_last,
    lemma_split_whole, lower, number_value, parse_int, parse_port, signed_decimal, split,
    strip_first, trim, trim_end, trim_end_char, trim_start,
};
use vstd::prelude::*;

verus! {

/// Texts without the separator, joined by it, are the pieces of the whole.
pub proof fn lemma_joined_pieces_are_split_again(pieces: Seq<Seq<char>>, c: char)
    requires
        pieces.len() > 0,
        forall|i: int| 0 <= i < pieces.len() ==> !(#[trigger] pieces[i]).contains(c),
    ensures
        split(join(pieces, seq![c]), c) == pieces,
    decreases pieces.len(),
{
    if pieces.len() == 1 {
        assert(!pieces[0].contains(c));
        lemma_split_whole(pieces[0], c);
        assert(pieces =~= seq![pieces[0]]);
    } else {
        let front = pieces.drop_last();
        assert forall|i: int| 0 <= i < front.len() implies !(#[trigger] front[i]).contains(c) by {
            assert(front[i] == pieces[i]);
        }
        lemma_joined_pieces_are_split_again(front, c);
        assert(!pieces[pieces.len() - 1].contains(c));
        lemma_split_last(join(front, seq![c]), pieces.last(), c);
        assert(front.push(pieces.last()) =~= pieces);
    }
}

/// A target is direct exactly where some entry of the list names the same host.
pub proof fn lemma_listed_hosts_are_direct(target: Seq<char>, entries: Seq<Seq<char>>)
    requires
        entries.len() > 0,
        forall|i: int| 0 <= i < entries.len() ==> !(#[trigger] entries[i]).contains(','),
    ensures
        is_direct(target, join(entries, seq![','])) <==> normalized(target) is Some && exists|i: int|
            0 <= i < entries.len() && normalized(#[trigger] entries[i]) == normalized(target),
{
    let configured = join(entries, seq![',']);
    lemma_joined_pieces_are_split_again(entries, ',');
    if is_direct(target, configured) {
        let i = choose|i: int|
            0 <= i < split(configured, ',').len() && normalized(
                #[trigger] split(configured, ',')[i],
            ) == Some(normalized(target)->0);
        assert(normalized(entries[i]) == normalized(target));
    }
    if normalized(target) is Some && exists|i: int|
        0 <= i < entries.len() && normalized(#[trigger] entries[i]) == normalized(target) {
        let i = choose|i: int|
            0 <= i < entries.len() && normalized(#[trigger] entries[i]) == normalized(target);
        assert(normalized(split(configured, ',')[i]) == Some(normalized(target)->0));
        assert(lists_host(configured, normalized(target)->0));
    }
}

/// Two targets that name the same host are both direct or both not, whatever the list.
pub proof fn lemma_same_host_same_route(a: Seq<char>, b: Seq<char>, configured: Seq<char>)
    requires
        normalized(a) == normalized(b),
    ensures
        is_direct(a, configured) == is_direct(b, configured),
{
}

/// The list names an address exactly where some entry names it.
pub proof fn lemma_listed_addresses_are_aliases(entries: Seq<Seq<char>>, ip: Ipv4Addr)
    requires
        entries.len() > 0,
        forall|i: int| 0 <= i < entries.len() ==> !(#[trigger] entries[i]).contains(','),
    ensures
        lists_alias(join(entries, seq![',']), ip) <==> exists|i: int|
            0 <= i < entries.len() && normalized(#[trigger] entries[i]) == Some(ipv4_text(ip)),
{
    let configured = join(entries, seq![',']);
    lemma_joined_pieces_are_split_again(entries, ',');
    lemma_ipv4_text_is_read_back(ip);
    if lists_alias(configured, ip) {
        let i = choose|i: int|
            0 <= i < split(configured, ',').len() && entry_alias(
                #[trigger] split(configured, ',')[i],
            ) == Some(ip);
        lemma_ipv4_text_is_the_only_one(normalized(entries[i])->0);
        assert(normalized(entries[i]) == Some(ipv4_text(ip)));
    }
    if exists|i: int|
        0 <= i < entries.len() && normalized(#[trigger] entries[i]) == Some(ipv4_text(ip)) {
        let i = choose|i: int|
            0 <= i < entries.len() && normalized(#[trigger] entries[i]) == Some(ipv4_text(ip));
        assert(entry_alias(split(configured, ',')[i]) == Some(ip));
    }
}

/// Where the entries name one address, however often, it is the only alias of the list.
proof fn lemma_only_alias_of_entries(entries: Seq<Seq<char>>, alias: Ipv4Addr)
    requires
        entries.len() > 0,
        forall|i: int| 0 <= i < entries.len() ==> !(#[trigger] entries[i]).contains(','),
        exists|i: int|
            0 <= i < entries.len() && normalized(#[trigger] entries[i]) == Some(ipv4_text(alias)),
        forall|i: int, ip: Ipv4Addr|
            0 <= i < entries.len() && normalized(#[trigger] entries[i]) == Some(
                #[trigger] ipv4_text(ip),
            ) ==> ip == alias,
    ensures
        only_alias(join(entries, seq![',']), alias),
        forall|ip: Ipv4Addr| only_alias(join(entries, seq![',']), ip) ==> ip == alias,
{
    let configured = join(entries, seq![',']);
    lemma_listed_addresses_are_aliases(entries, alias);
    assert forall|other: Ipv4Addr| #[trigger] lists_alias(configured, other) implies other
        == alias by {
        lemma_listed_addresses_are_aliases(entries, other);
        let i = choose|i: int|
            0 <= i < entries.len() && normalized(#[trigger] entries[i]) == Some(ipv4_text(other));
        assert(normalized(entries[i]) == Some(ipv4_text(other)));
    }
    assert forall|ip: Ipv4Addr| only_alias(configured, ip) implies ip == alias by {
        assert(lists_alias(configured, ip));
    }
}

/// A listed name resolves to the address that the entries name, where they name exactly one,
/// however often: with the port of the target, or without one where it has none.
pub proof fn lemma_listed_names_resolve_to_the_alias(
    host: Seq<char>,
    port: Seq<char>,
    entries: Seq<Seq<char>>,
    alias: Ipv4Addr,
)
    requires
        entries.len() > 0,
        forall|i: int| 0 <= i < entries.len() ==> !(#[trigger] entries[i]).contains(','),
        exists|i: int|
            0 <= i < entries.len() && normalized(#[trigger] entries[i]) == Some(ipv4_text(alias)),
        forall|i: int, ip: Ipv4Addr|
            0 <= i < entries.len() && normalized(#[trigger] entries[i]) == Some(
                #[trigger] ipv4_text(ip),
            ) ==> ip == alias,
        !host.contains(':'),
        !port.contains(':'),
        parse_port(port) is Some,
    ensures
        is_direct(host + seq![':'] + port, join(entries, seq![','])) && normalized(
            host + seq![':'] + port,
        ) != Some(ipv4_text(alias)) ==> resolution(
            host + seq![':'] + port,
            join(entries, seq![',']),
        ) == Some(ipv4_text(alias) + seq![':'] + port),
        is_direct(host, join(entries, seq![','])) && normalized(host) != Some(ipv4_text(alias))
            ==> resolution(host, join(entries, seq![','])) == Some(ipv4_text(alias)),
{
    let configured = join(entries, seq![',']);
    let target = host + seq![':'] + port;
    lemma_only_alias_of_entries(entries, alias);
    let chosen = choose|ip: Ipv4Addr| only_alias(configured, ip);
    assert(only_alias(configured, chosen));
    assert(chosen == alias);
    lemma_rsplit_is_at_the_last(host, port, ':');
    lemma_last_index(host, ':');
    if is_direct(target, configured) {
        lemma_direct_address_is_the_alias(target, entries, alias);
    }
    if is_direct(host, configured) {
        lemma_direct_address_is_the_alias(host, entries, alias);
    }
}

/// A direct target that names an address names the only alias of the list.
proof fn lemma_direct_address_is_the_alias(
    target: Seq<char>,
    entries: Seq<Seq<char>>,
    alias: Ipv4Addr,
)
    requires
        entries.len() > 0,
        forall|i: int| 0 <= i < entries.len() ==> !(#[trigger] entries[i]).contains(','),
        only_alias(join(entries, seq![',']), alias),
        is_direct(target, join(entries, seq![','])),
    ensures
        parse_ipv4(normalized(target)->0) is Some ==> normalized(target) == Some(ipv4_text(alias)),
{
    let host = normalized(target)->0;
    if let Some(ip) = parse_ipv4(host) {
        lemma_ipv4_text_is_the_only_one(host);
        lemma_listed_hosts_are_direct(target, entries);
        lemma_listed_addresses_are_aliases(entries, ip);
        assert(lists_alias(join(entries, seq![',']), ip));
    }
}

/// A target that names the only alias of the list resolves to itself.
pub proof fn lemma_listed_address_resolves_to_itself(
    target: Seq<char>,
    entries: Seq<Seq<char>>,
    alias: Ipv4Addr,
)
    requires
        entries.len() > 0,
        forall|i: int| 0 <= i < entries.len() ==> !(#[trigger] entries[i]).contains(','),
        exists|i: int|
            0 <= i < entries.len() && normalized(#[trigger] entries[i]) == Some(ipv4_text(alias)),
        forall|i: int, ip: Ipv4Addr|
            0 <= i < entries.len() && normalized(#[trigger] entries[i]) == Some(
                #[trigger] ipv4_text(ip),
            ) ==> ip == alias,
        normalized(target) == Some(ipv4_text(alias)),
    ensures
        resolution(target, join(entries, seq![','])) == Some(target),
{
    lemma_only_alias_of_entries(entries, alias);
    lemma_listed_hosts_are_direct(target, entries);
    lemma_ipv4_text_is_read_back(alias);
}

/// Entries that name two addresses, or none, leave every target to DNS.
pub proof fn lemma_ambiguous_lists_resolve_nothing(
    target: Seq<char>,
    entries: Seq<Seq<char>>,
    a: Ipv4Addr,
    b: Ipv4Addr,
)
    requires
        entries.len() > 0,
        forall|i: int| 0 <= i < entries.len() ==> !(#[trigger] entries[i]).contains(','),
    ensures
        a != b && (exists|i: int|
            0 <= i < entries.len() && normalized(#[trigger] entries[i]) == Some(ipv4_text(a))) && (
        exists|i: int|
            0 <= i < entries.len() && normalized(#[trigger] entries[i]) == Some(ipv4_text(b)))
            ==> resolution(target, join(entries, seq![','])) is None,
        (forall|i: int, ip: Ipv4Addr|
            0 <= i < entries.len() ==> normalized(#[trigger] entries[i]) != Some(
                #[trigger] ipv4_text(ip),
            )) ==> resolution(target, join(entries, seq![','])) is None,
{
    let configured = join(entries, seq![',']);
    lemma_listed_addresses_are_aliases(entries, a);
    lemma_listed_addresses_are_aliases(entries, b);
    if a != b && lists_alias(configured, a) && lists_alias(configured, b) {
        crate::direct_laws::lemma_two_aliases_resolve_nothing(target, configured, a, b);
    }
    if forall|i: int, ip: Ipv4Addr|
        0 <= i < entries.len() ==> normalized(#[trigger] entries[i]) != Some(
            #[trigger] ipv4_text(ip),
        ) {
        assert forall|ip: Ipv4Addr| !#[trigger] lists_alias(configured, ip) by {
            lemma_listed_addresses_are_aliases(entries, ip);
            if lists_alias(configured, ip) {
                let i = choose|i: int|
                    0 <= i < entries.len() && normalized(#[trigger] entries[i]) == Some(
                        ipv4_text(ip),
                    );
                assert(normalized(entries[i]) != Some(ipv4_text(ip)));
            }
        }
        crate::direct_laws::lemma_no_alias_resolves_nothing(target, configured);
    }
}

/// The characters that are trimmed around targets and that no host name holds: those with the
/// Unicode property `White_Space`.
pub proof fn lemma_white_space_characters(c: char)
    ensures
        is_space(c) <==> c == ' ' || c == '\t' || c == '\n' || c == '\u{b}' || c == '\u{c}' || c
            == '\r' || c == '\u{85}' || c == '\u{a0}' || c == '\u{1680}' || ('\u{2000}' <= c && c
            <= '\u{200a}') || c == '\u{2028}' || c == '\u{2029}' || c == '\u{202f}' || c
            == '\u{205f}' || c == '\u{3000}',
{
}

/// White space at the start is trimmed away.
proof fn lemma_trim_start_of_padded(before: Seq<char>, s: Seq<char>)
    requires
        forall|i: int| 0 <= i < before.len() ==> is_space(#[trigger] before[i]),
    ensures
        trim_start(before + s) == trim_start(s),
    decreases before.len(),
{
    if before.len() == 0 {
        assert(before + s =~= s);
    } else {
        assert(is_space(before[0]));
        assert((before + s)[0] == before[0]);
        assert((before + s).skip(1) =~= before.skip(1) + s);
        assert forall|i: int| 0 <= i < before.skip(1).len() implies is_space(
            #[trigger] before.skip(1)[i],
        ) by {
            assert(before.skip(1)[i] == before[i + 1]);
        }
        lemma_trim_start_of_padded(before.skip(1), s);
    }
}

/// White space at the end is trimmed away.
proof fn lemma_trim_end_of_padded(s: Seq<char>, after: Seq<char>)
    requires
        forall|i: int| 0 <= i < after.len() ==> is_space(#[trigger] after[i]),
    ensures
        trim_end(s + after) == trim_end(s),
    decreases after.len(),
{
    if after.len() == 0 {
        assert(s + after =~= s);
    } else {
        assert(is_space(after[after.len() - 1]));
        assert((s + after).last() == after.last());
        assert((s + after).drop_last() =~= s + after.drop_last());
        assert forall|i: int| 0 <= i < after.drop_last().len() implies is_space(
            #[trigger] after.drop_last()[i],
        ) by {
            assert(after.drop_last()[i] == after[i]);
        }
        lemma_trim_end_of_padded(s, after.drop_last());
    }
}

/// White space at the end does not matter to trimming the start.
proof fn lemma_trim_start_before(s: Seq<char>, after: Seq<char>)
    requires
        forall|i: int| 0 <= i < after.len() ==> is_space(#[trigger] after[i]),
    ensures
        trim_end(trim_start(s + after)) == trim_end(trim_start(s)),
    decreases s.len(),
{
    if s.len() == 0 {
        assert(s + after =~= after + s);
        lemma_trim_start_of_padded(after, s);
    } else if is_space(s[0]) {
        assert((s + after)[0] == s[0]);
        assert((s + after).skip(1) =~= s.skip(1) + after);
        lemma_trim_start_before(s.skip(1), after);
    } else {
        assert((s + after)[0] == s[0]);
        lemma_trim_end_of_padded(s, after);
    }
}

/// White space around a target does not matter to which host it names.
pub proof fn lemma_white_space_does_not_matter(
    before: Seq<char>,
    target: Seq<char>,
    after: Seq<char>,
)
    requires
        forall|i: int| 0 <= i < before.len() ==> is_space(#[trigger] before[i]),
        forall|i: int| 0 <= i < after.len() ==> is_space(#[trigger] after[i]),
    ensures
        normalized(before + target + after) == normalized(target),
{
    assert(before + target + after =~= before + (target + after));
    lemma_trim_start_of_padded(before, target + after);
    lemma_trim_start_before(target, after);
}

/// A host name in small letters, without white space, colons and a dot at its end, is its own form.
pub proof fn lemma_plain_names_are_their_form(host: Seq<char>)
    requires
        host.len() > 0,
        host.last() != '.',
        forall|i: int|
            0 <= i < host.len() ==> !is_space(#[trigger] host[i]) && host[i] != ':' && !('A'
                <= host[i] && host[i] <= 'Z'),
    ensures
        normalized(host) == Some(host),
{
    assert(!is_space(host[0]));
    assert(!is_space(host[host.len() - 1]));
    lemma_trim_keeps(host);
    assert(!host.contains(':')) by {
        if host.contains(':') {
            let i = choose|i: int| 0 <= i < host.len() && host[i] == ':';
            assert(host[i] != ':');
        }
    }
    lemma_no_colon_no_socket(host);
    lemma_ipv6_text_has_colon(host);
    lemma_ipv4_text_is_the_only_one(host);
    assert(lower(host) =~= host);
    assert(trim_end_char(host, '.') == host);
}

/// A text with white space inside, and no colon, names no host.
pub proof fn lemma_white_space_names_nothing(host: Seq<char>, i: int)
    requires
        trim(host) == host,
        !host.contains(':'),
        0 <= i < host.len(),
        is_space(host[i]),
    ensures
        normalized(host) is None,
{
    lemma_no_colon_no_socket(host);
    if let Some(ip) = parse_ipv4(host) {
        lemma_ipv4_text_is_the_only_one(host);
        lemma_ipv4_text_chars(ip);
        assert(is_digit(host[i]) || host[i] == '.');
    }
    lemma_trim_dots_keeps(host, i);
}

/// Trimming final dots takes away nothing but dots.
proof fn lemma_trim_dots_keeps(s: Seq<char>, i: int)
    requires
        0 <= i < s.len(),
        s[i] != '.',
    ensures
        i < trim_end_char(s, '.').len() <= s.len(),
        trim_end_char(s, '.')[i] == s[i],
    decreases s.len(),
{
    if s.last() == '.' {
        lemma_trim_dots_keeps(s.drop_last(), i);
    }
}

/// A text whose part behind the last colon is no port names no host.
pub proof fn lemma_bad_ports_name_nothing(host: Seq<char>, port: Seq<char>)
    requires
        trim(host + seq![':'] + port) == host + seq![':'] + port,
        !port.contains(':'),
        parse_port(port) is None,
    ensures
        normalized(host + seq![':'] + port) is None,
{
    let text = host + seq![':'] + port;
    let at = first_index(text, ':');
    lemma_first_index(text, ':');
    lemma_rsplit_is_at_the_last(host, port, ':');
    assert(text[host.len() as int] == ':');
    assert(text.contains(':'));
    lemma_ipv4_has_no_colon(text);
    if parse_socket_v4(text) is Some {
        let digits = text.skip(at + 1);
        lemma_number_behind_the_last_colon(host, port, at);
    }
    if is_socket_v6_text(text) {
        let end = first_index(text, ']');
        lemma_first_index(text, ']');
        lemma_number_behind_the_last_colon(host, port, end + 1);
    }
}

/// A port in digits behind a colon stands behind the last colon.
proof fn lemma_number_behind_the_last_colon(host: Seq<char>, port: Seq<char>, at: int)
    requires
        ({
            let text = host + seq![':'] + port;
            &&& 0 <= at < text.len()
            &&& text[at] == ':'
            &&& is_number(text.skip(at + 1))
            &&& number_value(text.skip(at + 1)) <= 0xffff
        }),
        !port.contains(':'),
    ensures
        parse_port(port) is Some,
{
    let text = host + seq![':'] + port;
    let digits = text.skip(at + 1);
    assert(text[host.len() as int] == ':');
    if at < host.len() {
        assert(digits[host.len() - at - 1] == ':');
        assert(is_digit(digits[host.len() - at - 1]));
    } else if at > host.len() {
        assert(port[at - host.len() - 1] == ':');
    } else {
        assert(digits =~= port);
        assert(is_digit(port[0]));
        assert(strip_first(port, '+') == port);
    }
}

/// An IPv6 address with a port names no host that could be direct.
pub proof fn lemma_ipv6_sockets_name_nothing(target: Seq<char>)
    requires
        is_socket_v6_text(target),
        trim(target) == target,
    ensures
        normalized(target) is None,
{
    lemma_first_index(target, ':');
    if let Some(ip) = parse_socket_v4(target) {
        let at = first_index(target, ':');
        lemma_ipv4_text_is_the_only_one(target.take(at));
        lemma_ipv4_text_chars(ip);
        assert(target.take(at)[0] == '[');
    }
}

/// Digits for a number up to 65535 are a port, with or without a plus sign before them and with any
/// zeros in front; digits for a larger number are none.
pub proof fn lemma_numbers_are_ports(n: nat, s: Seq<char>)
    requires
        is_number(s),
    ensures
        n <= 65535 ==> parse_port(decimal(n)) == Some(n),
        n <= 65535 ==> parse_port(seq!['+'] + decimal(n)) == Some(n),
        n > 65535 ==> parse_port(decimal(n)) is None,
        parse_port(seq!['0'] + s) == parse_port(s),
        parse_port(seq!['+'] + s) == parse_port(s),
{
    let digits = decimal(n);
    lemma_decimal_is_read_back(n);
    assert(is_digit(digits[0]));
    assert((seq!['+'] + digits).skip(1) =~= digits);
    assert((seq!['+'] + s).skip(1) =~= s);
    assert(is_digit(s[0]));
    lemma_leading_zero(s);
}

/// A zero before a number changes nothing.
proof fn lemma_leading_zero(s: Seq<char>)
    requires
        is_number(s),
    ensures
        is_number(seq!['0'] + s),
        number_value(seq!['0'] + s) == number_value(s),
    decreases s.len(),
{
    let padded = seq!['0'] + s;
    assert forall|i: int| 0 <= i < padded.len() implies is_digit(#[trigger] padded[i]) by {
        if i > 0 {
            assert(padded[i] == s[i - 1]);
        }
    }
    assert(padded.drop_last() =~= seq!['0'] + s.drop_last());
    assert(padded.last() == s.last());
    if s.len() == 1 {
        assert(s.drop_last() =~= Seq::<char>::empty());
        assert(padded.drop_last() =~= seq!['0']);
        assert(seq!['0'].drop_last() =~= Seq::<char>::empty());
        assert(number_value(seq!['0'].drop_last()) == 0);
        assert(number_value(seq!['0']) == 0);
        assert(number_value(s.drop_last()) == 0);
    } else {
        assert(is_number(s.drop_last())) by {
            assert forall|i: int| 0 <= i < s.drop_last().len() implies is_digit(
                #[trigger] s.drop_last()[i],
            ) by {
                assert(s.drop_last()[i] == s[i]);
            }
        }
        lemma_leading_zero(s.drop_last());
    }
}

/// A text with anything but digits behind an optional plus sign is no port, and neither is an empty
/// one.
pub proof fn lemma_other_texts_are_no_ports(s: Seq<char>, i: int)
    requires
        0 <= i < s.len(),
        !is_digit(s[i]),
        i == 0 ==> s[0] != '+' || s.len() == 1,
    ensures
        parse_port(s) is None,
        parse_port(Seq::empty()) is None,
{
    if s[0] == '+' {
        if s.len() > 1 {
            assert(s.skip(1)[i - 1] == s[i]);
        }
    }
}

/// The text of an integer is read as that integer where it fits in 32 bits, and else as none.
pub proof fn lemma_integers_are_read_back(n: int)
    ensures
        i32::MIN <= n <= i32::MAX ==> parse_int(signed_decimal(n)) == Some(n),
        !(i32::MIN <= n <= i32::MAX) ==> parse_int(signed_decimal(n)) is None,
        0 <= n <= i32::MAX ==> parse_int(seq!['+'] + signed_decimal(n)) == Some(n),
{
    if n < 0 {
        let digits = decimal((-n) as nat);
        lemma_decimal_is_read_back((-n) as nat);
        assert(signed_decimal(n).skip(1) =~= digits);
    } else {
        let digits = decimal(n as nat);
        lemma_decimal_is_read_back(n as nat);
        assert(is_digit(digits[0]));
        assert((seq!['+'] + digits).skip(1) =~= digits);
    }
}

/// Only the 26 capitals of ASCII are made small, each into its own small letter.
pub proof fn lemma_only_ascii_capitals_are_made_small(s: Seq<char>, i: int)
    requires
        0 <= i < s.len(),
    ensures
        lower(s).len() == s.len(),
        'A' <= s[i] && s[i] <= 'Z' ==> lower(s)[i] as u32 == s[i] as u32 + 32,
        !('A' <= s[i] && s[i] <= 'Z') ==> lower(s)[i] == s[i],
{
}

/// A name with a port, whatever sign the port has, is the name: in small letters, without white
/// space and a dot at its end it is its own form. Where it is an IPv6 address, or one in brackets,
/// there is no form.
pub proof fn lemma_names_with_ports(host: Seq<char>, port: Seq<char>)
    requires
        host.len() > 0,
        host.last() != '.',
        forall|i: int|
            0 <= i < host.len() ==> !is_space(#[trigger] host[i]) && !('A' <= host[i] && host[i]
                <= 'Z'),
        parse_port(port) is Some,
    ensures
        ({
            let text = host + seq![':'] + port;
            &&& !is_socket_v6_text(text) && !is_ipv6_text(host) ==> normalized(text) == Some(host)
            &&& is_socket_v6_text(text) || is_ipv6_text(host) ==> normalized(text) is None
        }),
{
    let text = host + seq![':'] + port;
    lemma_port_ends(port);
    lemma_rsplit_is_at_the_last(host, port, ':');
    assert(text[host.len() as int] == ':');
    assert(text.contains(':'));
    lemma_ipv4_has_no_colon(text);
    assert(!is_space(host[0]));
    assert(text[0] == host[0]);
    assert(text.last() == port.last());
    lemma_trim_keeps(text);
    assert(lower(host) =~= host);
    assert(trim_end_char(host, '.') == host);
    let at = first_index(text, ':');
    lemma_first_index(text, ':');
    if let Some(ip) = parse_socket_v4(text) {
        if at < host.len() {
            let digits = text.skip(at + 1);
            assert(digits[host.len() - at - 1] == ':');
            assert(is_digit(digits[host.len() - at - 1]));
        }
        assert(text.take(at) =~= host);
        lemma_ipv4_text_is_the_only_one(host);
        lemma_ipv4_text_chars(ip);
        assert(!host.contains(':'));
        lemma_ipv6_text_has_colon(host);
        if is_socket_v6_text(text) {
            assert(host[0] == '[');
        }
    }
}

/// A port text holds no colon and ends in a digit.
proof fn lemma_port_ends(port: Seq<char>)
    requires
        parse_port(port) is Some,
    ensures
        !port.contains(':'),
        port.len() > 0,
        !is_space(port.last()),
{
    let digits = strip_first(port, '+');
    assert(is_digit(digits[digits.len() - 1]));
    assert(digits.last() == port.last());
    if port.contains(':') {
        let i = choose|i: int| 0 <= i < port.len() && port[i] == ':';
        if port[0] == '+' {
            assert(is_digit(digits[i - 1]));
        } else {
            assert(is_digit(digits[i]));
        }
    }
}

/// The port of a target does not matter to which host it names, also where it has a plus sign.
pub proof fn lemma_any_port_does_not_matter(host: Seq<char>, port: Seq<char>)
    requires
        trim(host) == host,
        !host.contains(':'),
        parse_port(port) is Some,
    ensures
        normalized(host + seq![':'] + port) == normalized(host),
{
    let text = host + seq![':'] + port;
    lemma_port_ends(port);
    if port[0] != '+' {
        crate::direct_laws::lemma_port_does_not_matter(host, port);
    } else {
        crate::direct_laws::lemma_one_colon(host, port);
        lemma_no_colon_no_socket(host);
        lemma_ipv4_has_no_colon(text);
        if host.len() > 0 {
            lemma_trimmed_ends(host);
            assert(text[0] == host[0]);
        }
        assert(text.last() == port.last());
        lemma_trim_keeps(text);
        assert(parse_socket_v4(text) is None) by {
            assert(!is_digit(text.skip(host.len() + 1int)[0]));
        }
        if let Some(ip) = parse_ipv4(host) {
            lemma_ipv4_text_is_the_only_one(host);
            lemma_ipv4_text_chars(ip);
            crate::direct_laws::lemma_address_is_its_name(ip);
        }
        if host.len() == 0 {
            assert(trim_end_char(host, '.') == host);
        }
    }
}

/// The dotted decimal form writes the four octets in their order, with dots between them.
pub proof fn lemma_dotted_form_has_the_octets(ip: Ipv4Addr)
    ensures
        ipv4_text(ip) == join(
            seq![
                decimal(ip.a as nat),
                decimal(ip.b as nat),
                decimal(ip.c as nat),
                decimal(ip.d as nat),
            ],
            seq!['.'],
        ),
{
    let parts = seq![
        decimal(ip.a as nat),
        decimal(ip.b as nat),
        decimal(ip.c as nat),
        decimal(ip.d as nat),
    ];
    reveal_with_fuel(join, 5);
    assert(parts.drop_last().drop_last().drop_last() =~= seq![decimal(ip.a as nat)]);
    assert(ipv4_text(ip) =~= join(parts, seq!['.']));
}

/// The decimal text of a number ends in its last digit, after the text of the other digits.
pub proof fn lemma_decimal_digits(n: nat)
    ensures
        n < 10 ==> decimal(n).len() == 1 && decimal(n)[0] as int == '0' as int + n,
        n >= 10 ==> decimal(n).drop_last() == decimal(n / 10) && decimal(n).last() as int == '0' as int
            + n % 10,
{
    if n >= 10 {
        assert(decimal(n).drop_last() =~= decimal(n / 10));
    }
}

/// The digits are those of ASCII.
pub proof fn lemma_digits_are_ascii(c: char)
    ensures
        is_digit(c) <==> '0' <= c && c <= '9',
        is_hex_digit(c) <==> ('0' <= c && c <= '9') || ('a' <= c && c <= 'f') || ('A' <= c && c
            <= 'F'),
{
}

/// The views of texts and lists leave nothing out.
pub proof fn lemma_views_hold_everything(
    text: String,
    interface: DirectInterface,
    list: Seq<DirectInterface>,
    i: int,
)
    requires
        0 <= i < list.len(),
    ensures
        text_view(Some(text)) == Some(text@),
        text_view(None) is None,
        interface@.index == interface.index,
        interface@.local_ip == interface.local_ip,
        interface@.name == interface.name@,
        interface_view(Some(interface)) == Some(interface@),
        interface_view(None) is None,
        interface_views(list).len() == list.len(),
        interface_views(list)[i] == list[i]@,
{
}

} // verus!
