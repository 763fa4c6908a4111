//! What the forms of a host have in common, what resolving a direct target leads to, and which
//! interfaces are direct.
use crate::address::{
    ipv4_text, is_port_text, is_socket_v6_text, lemma_ipv4_text_chars,
    lemma_ipv4_text_is_read_back, lemma_ipv4_text_is_the_only_one, lemma_ipv6_text_has_colon,
    parse_ipv4, parse_socket_v4, Ipv4Addr,
};
use crate::direct_server::{
    as_direct, direct_among, entry_alias, first_routable, first_with_ip, host_name, is_direct,
    is_routable, lists_alias, lists_host, normalized, only_alias, resolution, DirectInterfaceView,
    NetworkInterface, IF_OPER_STATUS_UP, IF_TYPE_TUNNEL,
};
use crate::text::{
    first_index, is_digit, is_number, is_space, last_index, lemma_first_index,
    lemma_first_index_is, lemma_last_index, lemma_last_index_is, lower, lower_char, parse_port,
    rsplit_once, split, trim, trim_end, trim_end_char, trim_start,
};
use vstd::prelude::*;

verus! {

/// A text that neither starts nor ends with white space is not trimmed.
pub proof fn lemma_trim_keeps(s: Seq<char>)
    requires
        s.len() > 0,
        !is_space(s[0]),
        !is_space(s.last()),
    ensures
        trim(s) == s,
{
}

/// Trimming at the start makes no text longer.
proof fn lemma_trim_start_shortens(s: Seq<char>)
    ensures
        trim_start(s).len() <= s.len(),
        s.len() > 0 && is_space(s[0]) ==> trim_start(s).len() < s.len(),
    decreases s.len(),
{
    if s.len() > 0 && is_space(s[0]) {
        lemma_trim_start_shortens(s.skip(1));
    }
}

/// Trimming at the end makes no text longer.
proof fn lemma_trim_end_shortens(s: Seq<char>)
    ensures
        trim_end(s).len() <= s.len(),
        s.len() > 0 && is_space(s.last()) ==> trim_end(s).len() < s.len(),
    decreases s.len(),
{
    if s.len() > 0 && is_space(s.last()) {
        lemma_trim_end_shortens(s.drop_last());
    }
}

/// A text that is not trimmed neither starts nor ends with white space.
pub proof fn lemma_trimmed_ends(s: Seq<char>)
    requires
        trim(s) == s,
        s.len() > 0,
    ensures
        !is_space(s[0]),
        !is_space(s.last()),
{
    lemma_trim_start_shortens(s);
    lemma_trim_end_shortens(trim_start(s));
    lemma_trim_end_shortens(s);
}

/// An IPv4 address text holds no colon.
pub proof fn lemma_ipv4_has_no_colon(s: Seq<char>)
    requires
        s.contains(':'),
    ensures
        parse_ipv4(s) is None,
{
    if let Some(ip) = parse_ipv4(s) {
        lemma_ipv4_text_is_the_only_one(s);
        lemma_ipv4_text_chars(ip);
        let i = choose|i: int| 0 <= i < s.len() && s[i] == ':';
        assert(is_digit(s[i]) || s[i] == '.');
    }
}

/// A text without a colon is no socket address.
pub proof fn lemma_no_colon_no_socket(s: Seq<char>)
    requires
        !s.contains(':'),
    ensures
        parse_socket_v4(s) is None,
        !is_socket_v6_text(s),
        rsplit_once(s, ':') is None,
{
    lemma_first_index(s, ':');
    lemma_last_index(s, ':');
    lemma_first_index(s, ']');
    let at = first_index(s, ']');
    if is_socket_v6_text(s) {
        assert(s[at + 1] == ':');
    }
}

/// A name, a colon and a port without a colon: where the colon stands.
pub proof fn lemma_one_colon(host: Seq<char>, port: Seq<char>)
    requires
        !host.contains(':'),
        !port.contains(':'),
    ensures
        ({
            let text = host + seq![':'] + port;
            &&& first_index(text, ':') == host.len()
            &&& last_index(text, ':') == host.len()
            &&& text.take(host.len() as int) == host
            &&& text.skip(host.len() + 1int) == port
            &&& text.contains(':')
            &&& rsplit_once(text, ':') == Some((host, port))
            &&& !is_socket_v6_text(text)
        }),
{
    let text = host + seq![':'] + port;
    assert(text[host.len() as int] == ':');
    assert forall|i: int| 0 <= i < host.len() implies #[trigger] text[i] != ':' by {
        assert(text[i] == host[i]);
    }
    assert forall|i: int| host.len() < i < text.len() implies #[trigger] text[i] != ':' by {
        assert(text[i] == port[i - host.len() - 1]);
    }
    lemma_first_index_is(text, ':', host.len() as int);
    lemma_last_index_is(text, ':', host.len() as int);
    assert(text.take(host.len() as int) =~= host);
    assert(text.skip(host.len() + 1int) =~= port);
    if is_socket_v6_text(text) {
        let at = first_index(text, ']');
        lemma_first_index(text, ']');
        assert(text[at + 1] == ':');
        assert(at + 1 == host.len());
        let inside = text.subrange(1, at);
        assert(!inside.contains(':')) by {
            if inside.contains(':') {
                let i = choose|i: int| 0 <= i < inside.len() && inside[i] == ':';
                assert(text[i + 1] == ':');
            }
        }
        lemma_ipv6_text_has_colon(inside);
    }
}

/// A port in digits holds no colon and ends in a digit.
proof fn lemma_port_text(port: Seq<char>)
    requires
        is_number(port),
    ensures
        !port.contains(':'),
        !is_space(port.last()),
        port[0] != '+',
{
    assert(is_digit(port[0]));
    assert(is_digit(port[port.len() - 1]));
    if port.contains(':') {
        let i = choose|i: int| 0 <= i < port.len() && port[i] == ':';
        assert(is_digit(port[i]));
    }
}

/// The port of a target does not matter to which host it names.
pub proof fn lemma_port_does_not_matter(host: Seq<char>, port: Seq<char>)
    requires
        trim(host) == host,
        !host.contains(':'),
        is_port_text(port),
    ensures
        normalized(host + seq![':'] + port) == normalized(host),
{
    let text = host + seq![':'] + port;
    lemma_port_text(port);
    lemma_one_colon(host, port);
    lemma_no_colon_no_socket(host);
    lemma_ipv4_has_no_colon(text);
    if host.len() > 0 {
        lemma_trimmed_ends(host);
        assert(text[0] == host[0]);
    }
    assert(text.last() == port.last());
    lemma_trim_keeps(text);
    if host.len() == 0 {
        if let Some(ip) = parse_ipv4(host) {
            lemma_ipv4_text_is_the_only_one(host);
            lemma_ipv4_text_chars(ip);
        }
    }
}

/// The dots at the end of a host without a port do not matter to which host it names.
pub proof fn lemma_final_dot_does_not_matter(host: Seq<char>)
    requires
        trim(host) == host,
        !host.contains(':'),
    ensures
        normalized(host.push('.')) == normalized(host),
{
    let text = host.push('.');
    assert(!text.contains(':')) by {
        if text.contains(':') {
            let i = choose|i: int| 0 <= i < text.len() && text[i] == ':';
            assert(host[i] == ':');
        }
    }
    lemma_no_colon_no_socket(host);
    lemma_no_colon_no_socket(text);
    if host.len() > 0 {
        lemma_trimmed_ends(host);
        assert(text[0] == host[0]);
    }
    lemma_trim_keeps(text);
    if let Some(ip) = parse_ipv4(text) {
        lemma_ipv4_text_is_the_only_one(text);
        lemma_ipv4_text_chars(ip);
        assert(text.last() == '.');
    }
    assert(text.drop_last() =~= host);
    assert(host_name(text) == host_name(host));
    if let Some(ip) = parse_ipv4(host) {
        lemma_ipv4_text_is_the_only_one(host);
        lemma_address_is_its_name(ip);
    }
}

/// The dotted decimal form of an address, taken for a host name, stays as it is.
pub proof fn lemma_address_is_its_name(ip: Ipv4Addr)
    ensures
        host_name(ipv4_text(ip)) == Some(ipv4_text(ip)),
        !ipv4_text(ip).contains(':'),
        trim(ipv4_text(ip)) == ipv4_text(ip),
{
    let text = ipv4_text(ip);
    lemma_ipv4_text_chars(ip);
    assert(trim_end_char(text, '.') == text);
    assert forall|i: int| 0 <= i < text.len() implies !is_space(#[trigger] text[i]) by {}
    if text.contains(':') {
        let i = choose|i: int| 0 <= i < text.len() && text[i] == ':';
        assert(is_digit(text[i]) || text[i] == '.');
    }
    lemma_ipv6_text_has_colon(text);
    assert(lower(text) =~= text);
    lemma_trim_keeps(text);
}

/// The form in which hosts are compared names the same host: it is its own form.
pub proof fn lemma_normal_form_is_stable(target: Seq<char>)
    requires
        normalized(target) matches Some(host) && !host.contains(':'),
    ensures
        normalized(normalized(target)->0) == normalized(target),
{
    let host = normalized(target)->0;
    let trimmed = trim(target);
    lemma_no_colon_no_socket(host);
    if parse_socket_v4(trimmed) is Some {
        let ip = parse_socket_v4(trimmed)->0;
        lemma_address_is_its_name(ip);
        lemma_ipv4_text_is_read_back(ip);
        lemma_ipv4_text_chars(ip);
    } else if parse_ipv4(trimmed) is Some {
        let ip = parse_ipv4(trimmed)->0;
        lemma_address_is_its_name(ip);
        lemma_ipv4_text_is_read_back(ip);
        lemma_ipv4_text_chars(ip);
    } else {
        let given = match rsplit_once(trimmed, ':') {
            Some((name, _)) => name,
            None => trimmed,
        };
        assert(host_name(given) == Some(host));
        lemma_host_name_is_stable(given);
    }
}

/// A text without final dots does not end in a dot.
proof fn lemma_no_final_dot(s: Seq<char>)
    ensures
        trim_end_char(s, '.').len() > 0 ==> trim_end_char(s, '.').last() != '.',
    decreases s.len(),
{
    if s.len() > 0 && s.last() == '.' {
        lemma_no_final_dot(s.drop_last());
    }
}

/// A host name without a colon is its own form.
proof fn lemma_host_name_is_stable(given: Seq<char>)
    requires
        host_name(given) matches Some(host) && !host.contains(':'),
    ensures
        normalized(host_name(given)->0) == host_name(given),
{
    let name = trim_end_char(given, '.');
    let host = lower(name);
    lemma_no_final_dot(given);
    lemma_no_colon_no_socket(host);
    assert(lower(host) =~= host);
    assert forall|i: int| 0 <= i < host.len() implies !is_space(#[trigger] host[i]) by {
        assert(!is_space(name[i]));
    }
    assert(host.last() == lower_char(name.last()));
    assert(trim_end_char(host, '.') == host);
    lemma_ipv6_text_has_colon(host);
    lemma_trim_keeps(host);
    lemma_ipv4_text_is_the_only_one(host);
}

/// An address with a port, or without one, names that address.
pub proof fn lemma_alias_names_itself(alias: Ipv4Addr, port: Option<Seq<char>>)
    requires
        port matches Some(p) ==> parse_port(p) is Some,
    ensures
        normalized(
            match port {
                Some(p) => ipv4_text(alias) + seq![':'] + p,
                None => ipv4_text(alias),
            },
        ) == Some(ipv4_text(alias)),
{
    let address = ipv4_text(alias);
    lemma_address_is_its_name(alias);
    lemma_ipv4_text_is_read_back(alias);
    lemma_ipv4_text_chars(alias);
    lemma_no_colon_no_socket(address);
    if let Some(p) = port {
        let text = address + seq![':'] + p;
        let digits = crate::text::strip_first(p, '+');
        lemma_port_text(digits);
        assert(digits.last() == p.last());
        assert(!p.contains(':')) by {
            if p.contains(':') {
                let i = choose|i: int| 0 <= i < p.len() && p[i] == ':';
                if p[0] == '+' {
                    assert(digits[i - 1] == ':');
                }
            }
        }
        lemma_one_colon(address, p);
        lemma_ipv4_has_no_colon(text);
        assert(text[0] == address[0]);
        assert(text.last() == p.last());
        lemma_trim_keeps(text);
    }
}

/// What a direct target resolves to is a direct target again, and resolves to itself: the
/// connection stays on the direct interfaces.
pub proof fn lemma_resolution_stays_direct(target: Seq<char>, configured: Seq<char>)
    requires
        resolution(target, configured) is Some,
    ensures
        is_direct(resolution(target, configured)->0, configured),
        resolution(resolution(target, configured)->0, configured) == resolution(target, configured),
{
    let resolved = resolution(target, configured)->0;
    let alias = choose|ip: Ipv4Addr| only_alias(configured, ip);
    assert(only_alias(configured, alias));
    let host = normalized(target)->0;
    if parse_ipv4(host) is None {
        match rsplit_once(target, ':') {
            Some((_, port)) => {
                lemma_alias_names_itself(alias, Some(port));
            },
            None => {
                lemma_alias_names_itself(alias, None);
            },
        }
        assert(normalized(resolved) == Some(ipv4_text(alias)));
        assert(lists_alias(configured, alias));
        let i = choose|i: int|
            0 <= i < split(configured, ',').len() && entry_alias(
                #[trigger] split(configured, ',')[i],
            ) == Some(alias);
        let entry = split(configured, ',')[i];
        lemma_ipv4_text_is_the_only_one(normalized(entry)->0);
        assert(normalized(entry) == Some(ipv4_text(alias)));
        assert(lists_host(configured, ipv4_text(alias)));
        lemma_ipv4_text_is_read_back(alias);
    }
}

/// Only direct targets resolve to anything.
pub proof fn lemma_only_direct_targets_resolve(target: Seq<char>, configured: Seq<char>)
    ensures
        resolution(target, configured) is Some ==> is_direct(target, configured),
{
}

/// With two different addresses in the list no target resolves to anything: looking up names is
/// left to DNS.
pub proof fn lemma_two_aliases_resolve_nothing(
    target: Seq<char>,
    configured: Seq<char>,
    a: Ipv4Addr,
    b: Ipv4Addr,
)
    requires
        lists_alias(configured, a),
        lists_alias(configured, b),
        a != b,
    ensures
        resolution(target, configured) is None,
{
    assert forall|ip: Ipv4Addr| !only_alias(configured, ip) by {}
}

/// What a direct target resolves to names the only address of the list.
pub proof fn lemma_resolution_names_the_alias(
    target: Seq<char>,
    configured: Seq<char>,
    alias: Ipv4Addr,
)
    requires
        only_alias(configured, alias),
        resolution(target, configured) is Some,
    ensures
        normalized(resolution(target, configured)->0) == Some(ipv4_text(alias)),
{
    let chosen = choose|ip: Ipv4Addr| only_alias(configured, ip);
    assert(only_alias(configured, chosen));
    assert(lists_alias(configured, chosen));
    assert(chosen == alias);
    let host = normalized(target)->0;
    match parse_ipv4(host) {
        Some(ip) => {
            let i = choose|i: int|
                0 <= i < split(configured, ',').len() && normalized(
                    #[trigger] split(configured, ',')[i],
                ) == Some(host);
            assert(entry_alias(split(configured, ',')[i]) == Some(ip));
            assert(lists_alias(configured, ip));
            lemma_ipv4_text_is_the_only_one(host);
        },
        None => match rsplit_once(target, ':') {
            Some((_, port)) => {
                lemma_alias_names_itself(alias, Some(port));
            },
            None => {
                lemma_alias_names_itself(alias, None);
            },
        },
    }
}

/// What a direct target resolves to has the port of the target, or none where the target has none.
pub proof fn lemma_resolution_keeps_the_port(target: Seq<char>, configured: Seq<char>)
    requires
        resolution(target, configured) is Some,
    ensures
        match rsplit_once(target, ':') {
            Some((_, port)) => rsplit_once(resolution(target, configured)->0, ':') matches Some(
                (_, kept),
            ) && kept == port,
            None => rsplit_once(resolution(target, configured)->0, ':') is None,
        },
{
    let alias = choose|ip: Ipv4Addr| only_alias(configured, ip);
    if parse_ipv4(normalized(target)->0) is None {
        lemma_address_is_its_name(alias);
        match rsplit_once(target, ':') {
            Some((_, port)) => {
                lemma_last_index(target, ':');
                let at = last_index(target, ':');
                assert(!port.contains(':')) by {
                    if port.contains(':') {
                        let i = choose|i: int| 0 <= i < port.len() && port[i] == ':';
                        assert(target[at + 1 + i] == ':');
                    }
                }
                lemma_one_colon(ipv4_text(alias), port);
            },
            None => {
                lemma_no_colon_no_socket(ipv4_text(alias));
            },
        }
    }
}

/// Without an address in the list no target resolves to anything.
pub proof fn lemma_no_alias_resolves_nothing(target: Seq<char>, configured: Seq<char>)
    requires
        forall|ip: Ipv4Addr| !#[trigger] lists_alias(configured, ip),
    ensures
        resolution(target, configured) is None,
{
    assert forall|ip: Ipv4Addr| !only_alias(configured, ip) by {
        assert(!lists_alias(configured, ip));
    }
}

/// A direct interface is up, has a gateway and an address that other hosts can answer to, and is
/// no tunnel.
pub proof fn lemma_no_tunnel_is_direct(interface: NetworkInterface)
    requires
        as_direct(interface) is Some,
    ensures
        interface.has_gateway,
        interface.status matches Some(status) && status.if_type != IF_TYPE_TUNNEL
            && status.oper_status == IF_OPER_STATUS_UP,
        is_routable(as_direct(interface)->0.local_ip),
        interface.ipv4@.contains(as_direct(interface)->0.local_ip),
{
    lemma_first_routable(interface.ipv4@);
}

/// The first address that other hosts can answer to is one of the addresses.
proof fn lemma_first_routable(ips: Seq<Ipv4Addr>)
    ensures
        first_routable(ips) matches Some(ip) ==> is_routable(ip) && ips.contains(ip),
    decreases ips.len(),
{
    if ips.len() > 0 {
        if is_routable(ips[0]) {
            assert(ips.contains(ips[0]));
        } else {
            lemma_first_routable(ips.skip(1));
            if let Some(ip) = first_routable(ips) {
                let i = choose|i: int| 0 <= i < ips.skip(1).len() && ips.skip(1)[i] == ip;
                assert(ips[i + 1] == ip);
            }
        }
    }
}

/// The direct interfaces are exactly those reported interfaces that are direct ones.
pub proof fn lemma_direct_interfaces_are_reported(
    found: Seq<NetworkInterface>,
    direct: DirectInterfaceView,
)
    ensures
        direct_among(found).contains(direct) <==> exists|i: int|
            0 <= i < found.len() && as_direct(#[trigger] found[i]) == Some(direct),
    decreases found.len(),
{
    if found.len() > 0 {
        let front = found.drop_last();
        let before = direct_among(front);
        lemma_direct_interfaces_are_reported(front, direct);
        if direct_among(found).contains(direct) {
            let k = choose|k: int|
                0 <= k < direct_among(found).len() && direct_among(found)[k] == direct;
            if k < before.len() {
                assert(before[k] == direct);
                let i = choose|i: int|
                    0 <= i < front.len() && as_direct(#[trigger] front[i]) == Some(direct);
                assert(found[i] == front[i]);
            } else {
                assert(as_direct(found[found.len() - 1]) == Some(direct));
            }
        }
        if exists|i: int| 0 <= i < found.len() && as_direct(#[trigger] found[i]) == Some(direct) {
            let i = choose|i: int|
                0 <= i < found.len() && as_direct(#[trigger] found[i]) == Some(direct);
            if i < front.len() {
                assert(as_direct(front[i]) == Some(direct));
                let k = choose|k: int| 0 <= k < before.len() && before[k] == direct;
                assert(direct_among(found)[k] == direct);
            } else {
                assert(direct_among(found).last() == direct);
            }
        }
    }
}

/// The interface for a local address is one of the direct interfaces and has that address; there
/// is none only where no direct interface has it.
pub proof fn lemma_interface_has_the_local_ip(interfaces: Seq<DirectInterfaceView>, ip: Ipv4Addr)
    ensures
        match first_with_ip(interfaces, ip) {
            Some(direct) => interfaces.contains(direct) && direct.local_ip == ip,
            None => forall|i: int|
                0 <= i < interfaces.len() ==> (#[trigger] interfaces[i]).local_ip != ip,
        },
    decreases interfaces.len(),
{
    if interfaces.len() > 0 {
        let rest = interfaces.skip(1);
        if interfaces[0].local_ip == ip {
            assert(interfaces.contains(interfaces[0]));
        } else {
            lemma_interface_has_the_local_ip(rest, ip);
            match first_with_ip(interfaces, ip) {
                Some(direct) => {
                    let i = choose|i: int| 0 <= i < rest.len() && rest[i] == direct;
                    assert(interfaces[i + 1] == direct);
                },
                None => {
                    assert forall|i: int| 0 <= i < interfaces.len() implies (
                    #[trigger] interfaces[i]).local_ip != ip by {
                        if i > 0 {
                            assert(rest[i - 1] == interfaces[i]);
                        }
                    }
                },
            }
        }
    }
}

} // verus!
