//! How hosts and ports are put together and taken apart, and what a proxy is asked for.
use crate::address::{
    has_group_near, ipv4_text, is_colon_groups, is_group, is_loose_octet, lemma_ipv4_text_chars,
    lemma_ipv4_text_is_read_back, looks_like_ipv4, looks_like_ipv6, octet_value, Ipv4Addr,
    SocketAddr,
};
use crate::direct_laws::lemma_no_colon_no_socket;
use crate::list_laws::lemma_joined_pieces_are_split_again;
use crate::ports::{
    host_and_port, lemma_bracketed_read_back, nip_io_form, with_port, with_raised_port,
};
use crate::routing_laws::lemma_rsplit_is_at_the_last;
use crate::socket_client::{proxy_address_error, proxy_target, TargetAddrView};
use crate::socket_text::{lemma_socket_v4_is_read_back, parse_socket};
use crate::text::{
    decimal, first_index, is_digit, is_hex_digit, is_number, join, lemma_char_in_piece,
    lemma_first_index, lemma_first_index_is, lemma_last_index, lemma_split_join, lemma_split_last,
    lemma_split_whole, parse_int, parse_port, signed_decimal, split,
};
use vstd::prelude::*;
use vstd::utf8::encode_utf8;

verus! {

/// A host without a colon gets the port behind one.
pub proof fn lemma_plain_hosts_get_the_port(host: Seq<char>, port: int)
    requires
        !host.contains(':'),
    ensures
        with_port(host, port) == host + seq![':'] + signed_decimal(port),
{
    if looks_like_ipv6(host) {
        crate::address::lemma_ipv6_look_is_not_empty(host);
    }
}

/// A host with a colon that does not look like an IPv6 address has its port and stays as it is, and
/// so does an IPv6 address in brackets; one without brackets gets them and the port.
pub proof fn lemma_other_hosts_and_their_port(host: Seq<char>, port: int)
    requires
        host.contains(':'),
    ensures
        !looks_like_ipv6(host) ==> with_port(host, port) == host,
        looks_like_ipv6(host) && host[0] == '[' ==> with_port(host, port) == host,
        looks_like_ipv6(host) && host[0] != '[' ==> with_port(host, port) == seq!['['] + host + seq![
            ']',
            ':',
        ] + signed_decimal(port),
{
}

/// A text with one colon that does not look like an IPv6 address is taken apart at the colon, where
/// a number above zero stands behind it.
pub proof fn lemma_hosts_are_taken_apart_at_the_colon(name: Seq<char>, port: Seq<char>)
    requires
        !name.contains(':'),
        !port.contains(':'),
        !looks_like_ipv6(name + seq![':'] + port),
    ensures
        parse_int(port) matches Some(n) && n > 0 ==> host_and_port(name + seq![':'] + port) == Some(
            (name, parse_int(port)->0),
        ),
        parse_int(port) is None || parse_int(port)->0 <= 0 ==> host_and_port(
            name + seq![':'] + port,
        ) is None,
{
    lemma_split_whole(name, ':');
    lemma_split_last(name, port, ':');
    assert(split(name + seq![':'] + port, ':') =~= seq![name, port]);
}

/// A text without a colon has no port.
pub proof fn lemma_no_colon_no_port(host: Seq<char>)
    requires
        !host.contains(':'),
    ensures
        host_and_port(host) is None,
{
    lemma_split_whole(host, ':');
    if looks_like_ipv6(host) {
        crate::address::lemma_ipv6_look_is_not_empty(host);
    }
}

/// A text with two colons or more has a port only where it looks like an IPv6 address in brackets.
pub proof fn lemma_two_colons_no_port(a: Seq<char>, b: Seq<char>, c: Seq<char>)
    requires
        !b.contains(':'),
        !c.contains(':'),
    ensures
        ({
            let text = a + seq![':'] + b + seq![':'] + c;
            !looks_like_ipv6(text) || text[0] != '[' ==> host_and_port(text) is None
        }),
{
    lemma_split_join(a, ':');
    lemma_split_last(a, b, ':');
    lemma_split_last(a + seq![':'] + b, c, ':');
}

/// Raising the port of a host adds the offset to it and leaves the host as it is.
pub proof fn lemma_raising_adds_the_offset(name: Seq<char>, port: Seq<char>, offset: int)
    requires
        !name.contains(':'),
        !port.contains(':'),
        !looks_like_ipv6(name + seq![':'] + port),
    ensures
        parse_int(port) matches Some(n) && n > 0 ==> with_raised_port(
            name + seq![':'] + port,
            offset,
        ) == name + seq![':'] + signed_decimal(parse_int(port)->0 + offset),
        parse_int(port) is None || parse_int(port)->0 <= 0 ==> with_raised_port(
            name + seq![':'] + port,
            offset,
        ) == name + seq![':'] + port,
{
    lemma_hosts_are_taken_apart_at_the_colon(name, port);
}

/// A text without a port stays as it is, whatever the offset.
pub proof fn lemma_raising_needs_a_port(host: Seq<char>, offset: int)
    requires
        host_and_port(host) is None,
    ensures
        with_raised_port(host, offset) == host,
{
}

/// The port of an IPv6 address in brackets is read and raised behind the brackets, which stay.
pub proof fn lemma_bracketed_ports(groups: Seq<char>, port: int, offset: int)
    requires
        is_colon_groups(groups),
        0 < port <= i32::MAX,
    ensures
        ({
            let text = seq!['['] + groups + seq![']', ':'] + signed_decimal(port);
            &&& host_and_port(text) == Some((seq!['['] + groups + seq![']'], port))
            &&& with_raised_port(text, offset) == seq!['['] + groups + seq![']', ':']
                + signed_decimal(port + offset)
        }),
{
    let text = seq!['['] + groups + seq![']', ':'] + signed_decimal(port);
    lemma_bracketed_read_back(groups, port);
    assert(with_raised_port(text, offset) =~= seq!['['] + groups + seq![']', ':'] + signed_decimal(
        port + offset,
    ));
}

/// The name for an IPv4 address has the address, then `.nip.io`, then the port, if any.
pub proof fn lemma_nip_io_stands_before_the_port(ip: Seq<char>, rest: Seq<char>)
    requires
        !ip.contains(':'),
    ensures
        nip_io_form(ip) == ip + ".nip.io"@,
        nip_io_form(ip + seq![':'] + rest) == ip + ".nip.io"@ + seq![':'] + rest,
{
    let text = ip + seq![':'] + rest;
    lemma_first_index(ip, ':');
    assert(ip.take(ip.len() as int) =~= ip);
    assert(nip_io_form(ip) =~= ip + ".nip.io"@);
    assert forall|i: int| 0 <= i < ip.len() implies #[trigger] text[i] != ':' by {
        assert(text[i] == ip[i]);
    }
    lemma_first_index_is(text, ':', ip.len() as int);
    assert(nip_io_form(text) =~= ip + ".nip.io"@ + seq![':'] + rest);
}

/// The dotted decimal form of every IPv4 address looks like one, alone and with digits behind a
/// colon.
pub proof fn lemma_ipv4_texts_look_like_ipv4(ip: Ipv4Addr, port: Seq<char>)
    requires
        is_number(port),
    ensures
        looks_like_ipv4(ipv4_text(ip)),
        looks_like_ipv4(ipv4_text(ip) + seq![':'] + port),
{
    let address = ipv4_text(ip);
    let text = address + seq![':'] + port;
    lemma_ipv4_text_is_read_back(ip);
    lemma_ipv4_text_chars(ip);
    assert forall|i: int| 0 <= i < 4 implies is_loose_octet(#[trigger] split(address, '.')[i]) by {
        assert(octet_value(split(address, '.')[i]) is Some);
    }
    assert forall|i: int| 0 <= i < address.len() implies #[trigger] text[i] != ':' by {
        assert(text[i] == address[i]);
    }
    assert forall|i: int| 0 <= i < address.len() implies #[trigger] address[i] != ':' by {}
    lemma_first_index_is(address, ':', address.len() as int);
    lemma_first_index_is(text, ':', address.len() as int);
    assert(address.take(address.len() as int) =~= address);
    assert(text.take(address.len() as int) =~= address);
    assert(text.skip(address.len() + 1int) =~= port);
}

/// Two or more groups of hexadecimal digits with a colon between them look like an IPv6 address.
pub proof fn lemma_groups_look_like_ipv6(groups: Seq<Seq<char>>)
    requires
        groups.len() >= 2,
        forall|i: int| 0 <= i < groups.len() ==> is_group(#[trigger] groups[i]),
    ensures
        looks_like_ipv6(join(groups, seq![':'])),
{
    assert forall|i: int| 0 <= i < groups.len() implies !(#[trigger] groups[i]).contains(':') by {
        assert(is_group(groups[i]));
        if groups[i].contains(':') {
            let j = choose|j: int| 0 <= j < groups[i].len() && groups[i][j] == ':';
            assert(crate::text::is_hex_digit(groups[i][j]));
        }
    }
    lemma_joined_pieces_are_split_again(groups, ':');
}

/// A name and a port are handed to a proxy as they stand, where the name has at most 255 bytes; a
/// longer name and a bad port are refused, each with its own text.
pub proof fn lemma_names_for_a_proxy(domain: Seq<char>, port: Seq<char>)
    requires
        !port.contains(':'),
        parse_socket(domain + seq![':'] + port) is None,
    ensures
        ({
            let host = domain + seq![':'] + port;
            &&& parse_port(port) is Some && encode_utf8(domain).len() <= 255 ==> {
                &&& proxy_address_error(host) is None
                &&& proxy_target(host) == TargetAddrView::Domain(domain, parse_port(port)->0 as u16)
            }
            &&& parse_port(port) is Some && encode_utf8(domain).len() > 255 ==> proxy_address_error(
                host,
            ) == Some("Target address is invalid: overlong domain"@)
            &&& parse_port(port) is None ==> proxy_address_error(host) == Some(
                "Target address is invalid: invalid address format"@,
            )
        }),
{
    lemma_rsplit_is_at_the_last(domain, port, ':');
}

/// A text without a colon is no target for a proxy.
pub proof fn lemma_no_colon_for_a_proxy(host: Seq<char>)
    requires
        !host.contains(':'),
    ensures
        proxy_address_error(host) == Some("Target address is invalid: invalid address format"@),
{
    lemma_no_colon_no_socket(host);
    lemma_last_index(host, ':');
}

/// An address with a port is handed to a proxy as that address, whatever its length.
pub proof fn lemma_addresses_for_a_proxy(host: Seq<char>, ip: Ipv4Addr, port: u16)
    ensures
        parse_socket(host) matches Some(addr) ==> proxy_address_error(host) is None && proxy_target(
            host,
        ) == TargetAddrView::Ip(addr),
        proxy_target(ipv4_text(ip) + seq![':'] + decimal(port as nat)) == TargetAddrView::Ip(
            SocketAddr::V4 { ip, port },
        ),
{
    lemma_socket_v4_is_read_back(ip, port);
}

/// Two colons may stand between groups, once or more often, and the text still looks like an IPv6
/// address.
pub proof fn lemma_two_colons_look_like_ipv6(head: Seq<Seq<char>>, tail: Seq<Seq<char>>)
    requires
        head.len() > 0,
        tail.len() > 0,
        forall|i: int| 0 <= i < head.len() ==> is_group(#[trigger] head[i]),
        forall|i: int| 0 <= i < tail.len() ==> is_group(#[trigger] tail[i]),
    ensures
        looks_like_ipv6(join(head.push(Seq::empty()) + tail, seq![':'])),
{
    let none = Seq::<char>::empty();
    let parts = head.push(none) + tail;
    assert forall|i: int| 0 <= i < parts.len() implies !(#[trigger] parts[i]).contains(':') by {
        if i < head.len() {
            assert(is_group(head[i]));
            lemma_group_holds_no_colon(parts[i]);
        } else if i > head.len() {
            assert(is_group(tail[i - head.len() - 1]));
            lemma_group_holds_no_colon(parts[i]);
        }
    }
    lemma_joined_pieces_are_split_again(parts, ':');
    assert(is_group(head[0]));
    assert(is_group(tail[tail.len() - 1]));
    assert forall|i: int| 0 <= i < parts.len() implies is_group(#[trigger] parts[i])
        || parts[i].len() == 0 by {
        if i < head.len() {
            assert(is_group(head[i]));
        } else if i > head.len() {
            assert(is_group(tail[i - head.len() - 1]));
        }
    }
    assert forall|i: int| 0 <= i < parts.len() - 1 implies #[trigger] has_group_near(parts, i) by {
        if i < head.len() {
            assert(is_group(head[i]));
        } else {
            assert(is_group(tail[i - head.len()]));
            assert(parts[i + 1] == tail[i - head.len()]);
        }
    }
}

/// A group holds no colon.
proof fn lemma_group_holds_no_colon(s: Seq<char>)
    requires
        is_group(s),
    ensures
        !s.contains(':'),
{
    if s.contains(':') {
        let j = choose|j: int| 0 <= j < s.len() && s[j] == ':';
        assert(is_hex_digit(s[j]));
    }
}

/// Groups in brackets with digits behind a colon look like an IPv6 address.
pub proof fn lemma_brackets_look_like_ipv6(groups: Seq<char>, port: Seq<char>)
    requires
        is_colon_groups(groups),
        is_number(port),
    ensures
        looks_like_ipv6(seq!['['] + groups + seq![']', ':'] + port),
{
    let text = seq!['['] + groups + seq![']', ':'] + port;
    let at = groups.len() + 1int;
    crate::address::lemma_groups_hold_no_bracket(groups);
    assert forall|i: int| 0 <= i < at implies #[trigger] text[i] != ']' by {
        if i > 0 {
            assert(text[i] == groups[i - 1]);
        }
    }
    assert(text[at] == ']');
    lemma_first_index_is(text, ']', at);
    assert(text.subrange(1, at) =~= groups);
    assert(text.skip(at + 2) =~= port);
}

/// A text without brackets that looks like an IPv6 address is made of hexadecimal digits and
/// colons, and one that looks like an IPv4 address of digits, dots and colons.
pub proof fn lemma_looks_are_made_of(s: Seq<char>, i: int)
    requires
        0 <= i < s.len(),
    ensures
        looks_like_ipv6(s) && s[0] != '[' ==> is_hex_digit(s[i]) || s[i] == ':',
        looks_like_ipv4(s) ==> is_digit(s[i]) || s[i] == '.' || s[i] == ':',
{
    let x = s[i];
    if looks_like_ipv6(s) && s[0] != '[' && x != ':' {
        let parts = split(s, ':');
        assert(s.contains(x));
        lemma_char_in_piece(s, ':', x);
        let k = choose|k: int| 0 <= k < parts.len() && (#[trigger] parts[k]).contains(x);
        let j = choose|j: int| 0 <= j < parts[k].len() && parts[k][j] == x;
        assert(is_group(parts[k]));
        assert(is_hex_digit(parts[k][j]));
    }
    if looks_like_ipv4(s) {
        let at = first_index(s, ':');
        lemma_first_index(s, ':');
        if i < at {
            let front = s.take(at);
            let parts = split(front, '.');
            if x != '.' {
                assert(front[i] == x);
                assert(front.contains(x));
                lemma_char_in_piece(front, '.', x);
                let k = choose|k: int| 0 <= k < parts.len() && (#[trigger] parts[k]).contains(x);
                let j = choose|j: int| 0 <= j < parts[k].len() && parts[k][j] == x;
                assert(is_loose_octet(parts[k]));
                assert(is_digit(parts[k][j]));
            }
        } else if i > at {
            assert(is_digit(s.skip(at + 1)[i - at - 1]));
        }
    }
}

} // verus!
