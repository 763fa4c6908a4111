//! Hosts with ports: adding a port, raising it and reading it.
use crate::address::{
    ipv4_look, ipv4_text, ipv6_look, is_bracketed_groups, is_colon_groups,
    lemma_groups_hold_no_bracket, lemma_ipv4_text_chars, looks_like_ipv4, looks_like_ipv6, Ipv4Addr,
};
use crate::text::{
    chars_of, decimal, find_first, first_index, has_char, lemma_first_index, lemma_first_index_is,
    lemma_int_is_read_back, lemma_split_last, lemma_split_whole, parse_int, push_signed, read_int,
    signed_decimal, split, split_at_each, text_of,
};
use vstd::prelude::*;
use vstd::slice::slice_subrange;

verus! {

/// `host` with a port: the one that it has, or else `port`. An IPv6 address gets brackets.
pub open spec fn with_port(host: Seq<char>, port: int) -> Seq<char> {
    if looks_like_ipv6(host) {
        if host[0] == '[' {
            host
        } else {
            seq!['['] + host + seq![']', ':'] + signed_decimal(port)
        }
    } else if !host.contains(':') {
        host + seq![':'] + signed_decimal(port)
    } else {
        host
    }
}

/// The host and the port of `host`, if it has a port above zero. The port of an IPv6 address
/// stands behind brackets, which stay with the address; any other host has exactly one colon.
pub open spec fn host_and_port(host: Seq<char>) -> Option<(Seq<char>, int)> {
    let (name, port) = if looks_like_ipv6(host) {
        if host[0] == '[' {
            let at = first_index(host, ']');
            (host.take(at + 1), parse_int(host.skip(at + 2)))
        } else {
            (host, None)
        }
    } else {
        let parts = split(host, ':');
        if parts.len() == 2 {
            (parts[0], parse_int(parts[1]))
        } else {
            (host, None)
        }
    };
    if port is Some && port->0 > 0 {
        Some((name, port->0))
    } else {
        None
    }
}

/// `host` with `offset` added to its port, or as it is where it has none.
pub open spec fn with_raised_port(host: Seq<char>, offset: int) -> Seq<char> {
    match host_and_port(host) {
        Some((name, port)) => name + seq![':'] + signed_decimal(port + offset),
        None => host,
    }
}

/// `addr` as a name that leads to an IPv6 address for an IPv4 address.
pub open spec fn nip_io_form(addr: Seq<char>) -> Seq<char> {
    let at = first_index(addr, ':');
    addr.take(at) + ".nip.io"@ + addr.skip(at)
}

/// `host` with a port: the one that it has, or else `port`.
pub fn check_port(host: &str, port: i32) -> (checked: String)
    ensures
        checked@ == with_port(host@, port as int),
{
    let chars: Vec<char> = chars_of(host);
    if ipv6_look(chars.as_slice()) {
        assert(chars@.len() > 0) by {
            crate::address::lemma_ipv6_look_is_not_empty(chars@);
        }
        if chars[0] == '[' {
            return host.to_owned();
        }
        let mut checked = String::new();
        checked.push('[');
        checked.append(host);
        checked.push(']');
        checked.push(':');
        push_signed(&mut checked, port);
        assert(checked@ =~= with_port(host@, port as int));
        return checked;
    }
    if !has_char(chars.as_slice(), ':') {
        let mut checked: String = host.to_owned();
        checked.push(':');
        push_signed(&mut checked, port);
        assert(checked@ =~= with_port(host@, port as int));
        return checked;
    }
    host.to_owned()
}

/// The view of an optional host and port.
pub open spec fn host_port_view(split: Option<(Vec<char>, i32)>) -> Option<(Seq<char>, int)> {
    match split {
        Some((host, port)) => Some((host@, port as int)),
        None => None,
    }
}

/// The number in a text, or zero.
fn int_or_zero(s: &[char]) -> (number: i32)
    ensures
        number == (match parse_int(s@) {
            Some(n) => n,
            None => 0,
        }),
{
    match read_int(s) {
        Some(n) => n,
        None => 0,
    }
}

/// The host and the port in a text, if it has a port above zero.
fn split_port(s: &[char]) -> (found: Option<(Vec<char>, i32)>)
    ensures
        host_port_view(found) == host_and_port(s@),
{
    if ipv6_look(s) {
        assert(s@.len() > 0) by {
            crate::address::lemma_ipv6_look_is_not_empty(s@);
        }
        if s[0] == '[' {
            proof {
                crate::address::lemma_bracketed_look(s@);
                lemma_first_index(s@, ']');
            }
            let at: usize = find_first(s, ']');
            let length: usize = s.len();
            let host: &[char] = slice_subrange(s, 0, at + 1);
            let rest: &[char] = slice_subrange(s, at + 2, length);
            assert(host@ =~= s@.take(at + 1));
            assert(rest@ =~= s@.skip(at + 2));
            let port: i32 = int_or_zero(rest);
            if port > 0 {
                return Some((vstd::slice::slice_to_vec(host), port));
            }
        }
        None
    } else {
        let parts: Vec<Vec<char>> = split_at_each(s, ':');
        let ghost pieces = split(s@, ':');
        assert(pieces.len() == parts@.len());
        if parts.len() == 2 {
            assert(pieces[0] == parts@[0]@ && pieces[1] == parts@[1]@);
            let port: i32 = int_or_zero(parts[1].as_slice());
            if port > 0 {
                return Some((vstd::slice::slice_to_vec(parts[0].as_slice()), port));
            }
        }
        None
    }
}

/// `host` with `offset` added to its port, or as it is where it has none.
pub fn increase_port(host: &str, offset: i32) -> (raised: String)
    requires
        host_and_port(host@) matches Some((_, port)) ==> i32::MIN <= port + offset <= i32::MAX,
    ensures
        raised@ == with_raised_port(host@, offset as int),
{
    let chars: Vec<char> = chars_of(host);
    match split_port(chars.as_slice()) {
        Some((name, port)) => {
            let mut raised: String = text_of(name.as_slice());
            raised.push(':');
            push_signed(&mut raised, port + offset);
            assert(raised@ =~= with_raised_port(host@, offset as int));
            raised
        },
        None => host.to_owned(),
    }
}

/// The host and the port of `host`, if it has a port above zero.
pub fn split_host_port(host: &str) -> (found: Option<(String, i32)>)
    ensures
        match found {
            Some((name, port)) => host_and_port(host@) == Some((name@, port as int)),
            None => host_and_port(host@) is None,
        },
{
    let chars: Vec<char> = chars_of(host);
    match split_port(chars.as_slice()) {
        Some((name, port)) => Some((text_of(name.as_slice()), port)),
        None => None,
    }
}

/// The name under which an IPv6 network reaches an IPv4 address. Any other address, and every
/// address on an IPv4 network, stays as it is.
pub fn ipv4_to_ipv6(addr: String, ipv4: bool) -> (name: String)
    ensures
        name@ == if !ipv4 && looks_like_ipv4(addr@) {
            nip_io_form(addr@)
        } else {
            addr@
        },
{
    let chars: Vec<char> = chars_of(addr.as_str());
    if !ipv4 && ipv4_look(chars.as_slice()) {
        let whole: &[char] = chars.as_slice();
        let length: usize = whole.len();
        let at: usize = find_first(whole, ':');
        proof {
            lemma_first_index(chars@, ':');
        }
        let ip: &[char] = slice_subrange(whole, 0, at);
        let rest: &[char] = slice_subrange(whole, at, length);
        assert(ip@ =~= chars@.take(at as int));
        assert(rest@ =~= chars@.skip(at as int));
        let mut name: String = text_of(ip);
        name.append(".nip.io");
        name.append(text_of(rest).as_str());
        return name;
    }
    addr
}

/// A host without a colon and its port are read back from the text with both.
proof fn lemma_plain_read_back(name: Seq<char>, port: int)
    requires
        !name.contains(':'),
        0 < port <= i32::MAX,
        !looks_like_ipv6(name + seq![':'] + signed_decimal(port)),
    ensures
        host_and_port(name + seq![':'] + signed_decimal(port)) == Some((name, port)),
{
    lemma_int_is_read_back(port);
    lemma_split_whole(name, ':');
    lemma_split_last(name, signed_decimal(port), ':');
    let parts = split(name + seq![':'] + signed_decimal(port), ':');
    assert(parts =~= seq![name, signed_decimal(port)]);
}

/// An IPv6 address and its port are read back from the text with both.
pub proof fn lemma_bracketed_read_back(groups: Seq<char>, port: int)
    requires
        is_colon_groups(groups),
        0 <= port <= i32::MAX,
    ensures
        is_bracketed_groups(seq!['['] + groups + seq![']', ':'] + signed_decimal(port)),
        port > 0 ==> host_and_port(seq!['['] + groups + seq![']', ':'] + signed_decimal(port))
            == Some((seq!['['] + groups + seq![']'], port)),
{
    let text = seq!['['] + groups + seq![']', ':'] + signed_decimal(port);
    let at: int = groups.len() + 1int;
    lemma_int_is_read_back(port);
    lemma_groups_hold_no_bracket(groups);
    assert forall|i: int| 0 <= i < at implies #[trigger] text[i] != ']' by {
        if i > 0 {
            assert(text[i] == groups[i - 1]);
        }
    }
    assert(text[at] == ']');
    lemma_first_index_is(text, ']', at);
    assert(text.subrange(1, at) =~= groups);
    assert(text.skip(at + 2) =~= signed_decimal(port));
    assert(text.take(at + 1) =~= seq!['['] + groups + seq![']']);
}

/// A port that was added is read back. A host without a port must not look like part of an IPv6
/// address once it has got one.
pub proof fn lemma_added_port_is_read_back(host: Seq<char>, port: int)
    requires
        0 < port <= i32::MAX,
        looks_like_ipv6(host) ==> host[0] != '[',
        !looks_like_ipv6(host) ==> !host.contains(':') && !looks_like_ipv6(with_port(host, port)),
    ensures
        host_and_port(with_port(host, port)) == Some(
            (
                if looks_like_ipv6(host) {
                    seq!['['] + host + seq![']']
                } else {
                    host
                },
                port,
            ),
        ),
{
    if looks_like_ipv6(host) {
        lemma_bracketed_read_back(host, port);
    } else {
        lemma_plain_read_back(host, port);
    }
}

/// A host that has got a port keeps it. A host without a port must not look like part of an IPv6
/// address once it has got one.
pub proof fn lemma_added_port_stays(host: Seq<char>, port: i32, other: i32)
    requires
        looks_like_ipv6(with_port(host, port as int)) ==> with_port(host, port as int)[0] == '[',
    ensures
        with_port(with_port(host, port as int), other as int) == with_port(host, port as int),
{
    let text = with_port(host, port as int);
    if looks_like_ipv6(host) {
        crate::address::lemma_ipv6_look_is_not_empty(host);
        if host[0] != '[' {
            assert(text[host.len() + 2int] == ':');
            assert(text.contains(':'));
        }
    } else if !host.contains(':') {
        assert(text[host.len() as int] == ':');
        assert(text.contains(':'));
    }
}

/// Raising a port twice is raising it once by the sum, as long as the port stays above zero and
/// fits, and the host does not come to look like an IPv6 address.
pub proof fn lemma_raised_ports_add_up(host: Seq<char>, first: int, second: int)
    requires
        host_and_port(host) matches Some((_, port)) && 0 < port + first <= i32::MAX,
        !looks_like_ipv6(host) ==> !looks_like_ipv6(with_raised_port(host, first)),
    ensures
        with_raised_port(with_raised_port(host, first), second) == with_raised_port(
            host,
            first + second,
        ),
{
    let (name, port) = host_and_port(host)->0;
    let raised = with_raised_port(host, first);
    if looks_like_ipv6(host) {
        crate::address::lemma_ipv6_look_is_not_empty(host);
        crate::address::lemma_bracketed_look(host);
        lemma_first_index(host, ']');
        let at = first_index(host, ']');
        let groups = host.subrange(1, at);
        lemma_bracketed_read_back(groups, port + first);
        assert(name =~= seq!['['] + groups + seq![']']);
        assert(raised =~= seq!['['] + groups + seq![']', ':'] + signed_decimal(port + first));
        assert(host_and_port(raised) == Some((name, port + first)));
    } else {
        let parts = split(host, ':');
        crate::text::lemma_split_join(host, ':');
        assert(!parts[0].contains(':'));
        lemma_plain_read_back(name, port + first);
    }
}

/// The name for an IPv4 address does not look like an IPv4 address any more, so it is not rewritten
/// again.
pub proof fn lemma_nip_io_form_is_a_name(addr: Seq<char>)
    requires
        looks_like_ipv4(addr),
    ensures
        !looks_like_ipv4(nip_io_form(addr)),
{
    reveal_strlit(".nip.io");
    let at = first_index(addr, ':');
    lemma_first_index(addr, ':');
    let ip = addr.take(at);
    let form = nip_io_form(addr);
    let host = ip + ".nip.io"@;
    assert forall|i: int| 0 <= i < host.len() implies #[trigger] form[i] != ':' by {
        assert(form[i] == host[i]);
    }
    if at < addr.len() {
        assert(form[host.len() as int] == addr[at]);
        lemma_first_index_is(form, ':', host.len() as int);
    } else {
        assert(form =~= host);
        lemma_first_index(form, ':');
    }
    assert(form.take(first_index(form, ':')) =~= host);
    let nip = seq!['n', 'i', 'p'];
    let io = seq!['i', 'o'];
    lemma_split_last(ip, nip, '.');
    lemma_split_last(ip + seq!['.'] + nip, io, '.');
    assert(host =~= ip + seq!['.'] + nip + seq!['.'] + io);
    assert(split(host, '.').len() == split(ip, '.').len() + 2);
}

/// The name for an IPv4 address with its port is the one that nip.io is asked for it.
pub proof fn lemma_nip_io_names_agree(ip: Ipv4Addr, port: u16)
    ensures
        nip_io_form(ipv4_text(ip) + seq![':'] + decimal(port as nat)) == ipv4_text(ip)
            + ".nip.io:"@ + decimal(port as nat),
{
    reveal_strlit(".nip.io");
    reveal_strlit(".nip.io:");
    let address = ipv4_text(ip);
    let text = address + seq![':'] + decimal(port as nat);
    lemma_ipv4_text_chars(ip);
    assert forall|i: int| 0 <= i < address.len() implies #[trigger] text[i] != ':' by {
        assert(text[i] == address[i]);
    }
    lemma_first_index_is(text, ':', address.len() as int);
    assert(nip_io_form(text) =~= address + ".nip.io:"@ + decimal(port as nat));
}

} // verus!
