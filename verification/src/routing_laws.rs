//! Which way connections and datagrams take, whatever the configuration.
use crate::address::{ipv4_text, Ipv4Addr, SocketAddr};
use crate::config::Config;
use crate::direct_laws::{
    lemma_address_is_its_name, lemma_no_alias_resolves_nothing, lemma_two_aliases_resolve_nothing,
};
use crate::direct_server::{
    is_direct, lists_alias, normalized, only_alias, resolution, DirectInterfaceView,
};
use crate::socket_client::{
    first_step, first_v4, first_v6, interface_step, is_direct_route, lookup_name,
    takes_direct_route, TcpAction, TcpRequest, UdpAction,
};
use crate::text::{join, lemma_last_index, lemma_last_index_is, parse_port, rsplit_once};
use vstd::prelude::*;

verus! {

/// The last piece of a text stands behind its last separator.
pub proof fn lemma_rsplit_is_at_the_last(front: Seq<char>, back: Seq<char>, c: char)
    requires
        !back.contains(c),
    ensures
        rsplit_once(front + seq![c] + back, c) == Some((front, back)),
        rsplit_once(back, c) is None,
{
    let text = front + seq![c] + back;
    assert(text[front.len() as int] == c);
    assert forall|i: int| front.len() < i < text.len() implies #[trigger] text[i] != c by {
        assert(text[i] == back[i - front.len() - 1]);
    }
    lemma_last_index_is(text, c, front.len() as int);
    assert(text.take(front.len() as int) =~= front);
    assert(text.skip(front.len() + 1int) =~= back);
    lemma_last_index(back, c);
}

/// Where the list names no address, a direct target is looked up as it stands.
pub proof fn lemma_lookup_without_alias_is_the_target(target: Seq<char>, configured: Seq<char>)
    requires
        forall|ip: Ipv4Addr| !#[trigger] lists_alias(configured, ip),
    ensures
        lookup_name(target, configured) == target,
{
    lemma_no_alias_resolves_nothing(target, configured);
}

/// Where the list names more than one address, a direct target is looked up as it stands.
pub proof fn lemma_lookup_with_two_aliases_is_the_target(
    target: Seq<char>,
    configured: Seq<char>,
    a: Ipv4Addr,
    b: Ipv4Addr,
)
    requires
        lists_alias(configured, a),
        lists_alias(configured, b),
        a != b,
    ensures
        lookup_name(target, configured) == target,
{
    lemma_two_aliases_resolve_nothing(target, configured, a, b);
}

/// What a direct target is looked up as has the port of the target: the same text behind its last
/// colon.
pub proof fn lemma_lookup_keeps_the_port(host: Seq<char>, port: Seq<char>, configured: Seq<char>)
    requires
        !port.contains(':'),
    ensures
        ({
            let name = lookup_name(host + seq![':'] + port, configured);
            &&& name.len() > port.len()
            &&& name.skip(name.len() - port.len() - 1) == seq![':'] + port
        }),
{
    let target = host + seq![':'] + port;
    let name = lookup_name(target, configured);
    lemma_rsplit_is_at_the_last(host, port, ':');
    if name == target {
        assert(name.skip(name.len() - port.len() - 1) =~= seq![':'] + port);
    } else {
        let alias = choose|ip: Ipv4Addr| only_alias(configured, ip);
        assert(name == ipv4_text(alias) + seq![':'] + port);
        assert(name.skip(name.len() - port.len() - 1) =~= seq![':'] + port);
    }
}

/// A target without a port is looked up without one.
pub proof fn lemma_lookup_adds_no_port(target: Seq<char>, configured: Seq<char>)
    requires
        !target.contains(':'),
    ensures
        !lookup_name(target, configured).contains(':'),
{
    lemma_last_index(target, ':');
    if lookup_name(target, configured) != target {
        let alias = choose|ip: Ipv4Addr| only_alias(configured, ip);
        lemma_address_is_its_name(alias);
    }
}

/// What a direct target is looked up as is a direct target: the connection stays past the tunnel.
pub proof fn lemma_lookup_stays_direct(target: Seq<char>, configured: Seq<char>)
    requires
        is_direct(target, configured),
    ensures
        is_direct(lookup_name(target, configured), configured),
{
    if resolution(target, configured) is Some {
        crate::direct_laws::lemma_resolution_stays_direct(target, configured);
    }
}

/// On Windows, and only there, a TCP connection to a direct server is made on the direct
/// interfaces.
pub proof fn lemma_direct_server_is_for_windows(request: TcpRequest, windows: bool, config: Config)
    ensures
        first_step(request, windows, config) is DirectServer <==> windows && is_direct(
            request.target@,
            config.force_direct_server@,
        ),
{
}

/// Interfaces are listed for a local end with an IPv4 address, on Windows, to any server that is
/// not direct.
pub proof fn lemma_interfaces_are_listed_for_ipv4_ends(
    request: TcpRequest,
    windows: bool,
    config: Config,
)
    ensures
        first_step(request, windows, config) is ListInterfaces <==> windows && !is_direct(
            request.target@,
            config.force_direct_server@,
        ) && (request.local matches Some(local) && local is V4),
{
}

/// Where a SOCKS server is configured, every connection goes through it, with the local end that
/// was given, unless it is one to a direct server or its local end belongs to a direct interface.
pub proof fn lemma_socks_takes_every_other_connection(
    request: TcpRequest,
    windows: bool,
    config: Config,
)
    requires
        config.has_socks,
    ensures
        !windows || !is_direct(request.target@, config.force_direct_server@) && (request.local is None
            || request.local->0 is V6) ==> first_step(request, windows, config)
            == (TcpAction::Socks { local: request.local }),
        interface_step(request, None, config.has_socks) == (TcpAction::Socks {
            local: request.local,
        }),
{
}

/// A plain connection is made, or nip.io is asked, only where no SOCKS server is configured.
pub proof fn lemma_plain_connections_need_no_socks(
    request: TcpRequest,
    windows: bool,
    config: Config,
    interface: Option<DirectInterfaceView>,
)
    ensures
        first_step(request, windows, config) is Connect || first_step(
            request,
            windows,
            config,
        ) is AskNipIo ==> !config.has_socks,
        interface_step(request, interface, config.has_socks) is Connect || interface_step(
            request,
            interface,
            config.has_socks,
        ) is AskNipIo ==> !config.has_socks,
{
}

/// Without a SOCKS server nothing goes through one.
pub proof fn lemma_socks_needs_a_server(
    request: TcpRequest,
    windows: bool,
    config: Config,
    interface: Option<DirectInterfaceView>,
)
    ensures
        first_step(request, windows, config) is Socks ==> config.has_socks,
        interface_step(request, interface, config.has_socks) is Socks ==> config.has_socks,
{
}

/// A local end that belongs to a direct interface is kept on that interface, whatever the target
/// and with or without a SOCKS server.
pub proof fn lemma_local_end_keeps_its_interface(
    request: TcpRequest,
    interface: DirectInterfaceView,
    local: SocketAddr,
    has_socks: bool,
)
    requires
        request.local == Some(local),
    ensures
        interface_step(request, Some(interface), has_socks) == (TcpAction::OnInterface {
            from: local,
            index: interface.index,
        }),
{
}

/// Without a SOCKS server nip.io is asked for every IPv4 address that is to be reached from an IPv6
/// socket; every other connection is made straight from the local end that was given.
pub proof fn lemma_way_without_socks(
    request: TcpRequest,
    windows: bool,
    config: Config,
)
    requires
        !config.has_socks,
        !windows || !is_direct(request.target@, config.force_direct_server@),
    ensures
        request.resolved matches Some(addr) && addr is V4 && (request.local matches Some(local)
            && local is V6) ==> first_step(request, windows, config) == (TcpAction::AskNipIo {
            addr: request.resolved->0,
        }),
        request.local is None ==> first_step(request, windows, config) == (TcpAction::Connect {
            local: None,
        }),
        (request.resolved is None || request.resolved->0 is V6) && (!windows || request.local is None
            || request.local->0 is V6) ==> first_step(request, windows, config)
            == (TcpAction::Connect { local: request.local }),
        !windows && request.local is Some && request.local->0 is V4 ==> first_step(
            request,
            windows,
            config,
        ) == (TcpAction::Connect { local: request.local }),
        request.local is Some && request.local->0 is V4 ==> interface_step(request, None, false) == (
        TcpAction::Connect { local: request.local }),
{
}

/// Whether a proxy is used for datagrams has no say in how a TCP connection is made.
pub proof fn lemma_network_type_does_not_matter_to_tcp(
    request: TcpRequest,
    windows: bool,
    a: Config,
    b: Config,
)
    requires
        a.force_direct_server@ == b.force_direct_server@,
        a.has_socks == b.has_socks,
    ensures
        first_step(request, windows, a) == first_step(request, windows, b),
{
}

/// Datagrams to a direct server take the direct route on Windows, and no others do, for every
/// network type and with or without a SOCKS server.
pub proof fn lemma_direct_route_is_for_windows(target: Seq<char>, windows: bool, config: Config)
    ensures
        takes_direct_route(target, windows, config) <==> windows && is_direct(
            target,
            config.force_direct_server@,
        ),
{
}

/// Of the configuration only the list has a say in whether datagrams take the direct route.
pub proof fn lemma_direct_route_depends_on_the_list_alone(
    target: Seq<char>,
    windows: bool,
    a: Config,
    b: Config,
)
    requires
        a.force_direct_server@ == b.force_direct_server@,
    ensures
        takes_direct_route(target, windows, a) == takes_direct_route(target, windows, b),
{
}

/// The direct route for datagrams leads to where a TCP connection to the same server leads, with
/// the port of the target.
pub proof fn lemma_direct_route_keeps_the_port(
    action: UdpAction,
    host: Seq<char>,
    port: Seq<char>,
    config: Config,
)
    requires
        !port.contains(':'),
        is_direct_route(action, host + seq![':'] + port, config),
    ensures
        action matches UdpAction::DirectRoute { name } && name@.len() > port.len() && name@.skip(
            name@.len() - port.len() - 1,
        ) == seq![':'] + port && name@ == lookup_name(
            host + seq![':'] + port,
            config.force_direct_server@,
        ),
{
    lemma_lookup_keeps_the_port(host, port, config.force_direct_server@);
}

/// The first IPv4 address in a list is in the list, and none stands before it; there is none only
/// where no address is one.
pub proof fn lemma_first_v4_is_the_first(found: Seq<SocketAddr>)
    ensures
        match first_v4(found) {
            Some(addr) => addr is V4 && exists|k: int|
                0 <= k < found.len() && #[trigger] found[k] == addr && forall|j: int|
                    0 <= j < k ==> #[trigger] found[j] is V6,
            None => forall|j: int| 0 <= j < found.len() ==> #[trigger] found[j] is V6,
        },
    decreases found.len(),
{
    if found.len() > 0 {
        let rest = found.skip(1);
        lemma_first_v4_is_the_first(rest);
        if found[0] is V4 {
            assert(found[0] == first_v4(found)->0);
        } else {
            match first_v4(rest) {
                Some(addr) => {
                    let k = choose|k: int|
                        0 <= k < rest.len() && #[trigger] rest[k] == addr && forall|j: int|
                            0 <= j < k ==> #[trigger] rest[j] is V6;
                    assert(found[k + 1] == addr);
                    assert forall|j: int| 0 <= j < k + 1 implies #[trigger] found[j] is V6 by {
                        if j > 0 {
                            assert(rest[j - 1] is V6);
                        }
                    }
                },
                None => {
                    assert forall|j: int| 0 <= j < found.len() implies #[trigger] found[j] is V6 by {
                        if j > 0 {
                            assert(rest[j - 1] is V6);
                        }
                    }
                },
            }
        }
    }
}

/// The first IPv6 address in a list is in the list, and none stands before it; there is none only
/// where no address is one.
pub proof fn lemma_first_v6_is_the_first(found: Seq<SocketAddr>)
    ensures
        match first_v6(found) {
            Some(addr) => addr is V6 && exists|k: int|
                0 <= k < found.len() && #[trigger] found[k] == addr && forall|j: int|
                    0 <= j < k ==> #[trigger] found[j] is V4,
            None => forall|j: int| 0 <= j < found.len() ==> #[trigger] found[j] is V4,
        },
    decreases found.len(),
{
    if found.len() > 0 {
        let rest = found.skip(1);
        lemma_first_v6_is_the_first(rest);
        if found[0] is V6 {
            assert(found[0] == first_v6(found)->0);
        } else {
            match first_v6(rest) {
                Some(addr) => {
                    let k = choose|k: int|
                        0 <= k < rest.len() && #[trigger] rest[k] == addr && forall|j: int|
                            0 <= j < k ==> #[trigger] rest[j] is V4;
                    assert(found[k + 1] == addr);
                    assert forall|j: int| 0 <= j < k + 1 implies #[trigger] found[j] is V4 by {
                        if j > 0 {
                            assert(rest[j - 1] is V4);
                        }
                    }
                },
                None => {
                    assert forall|j: int| 0 <= j < found.len() implies #[trigger] found[j] is V4 by {
                        if j > 0 {
                            assert(rest[j - 1] is V4);
                        }
                    }
                },
            }
        }
    }
}

/// Where the list names one address, a direct target is looked up as what it resolves to, which
/// names that address.
pub proof fn lemma_lookup_uses_the_alias(
    target: Seq<char>,
    configured: Seq<char>,
    alias: Ipv4Addr,
)
    requires
        only_alias(configured, alias),
        resolution(target, configured) is Some,
    ensures
        lookup_name(target, configured) == resolution(target, configured)->0,
        normalized(lookup_name(target, configured)) == Some(ipv4_text(alias)),
{
    crate::direct_laws::lemma_resolution_names_the_alias(target, configured, alias);
}

/// A listed name with a port is looked up as the address that the entries name, where they name
/// exactly one, with that port; without a port as the address alone.
pub proof fn lemma_listed_names_are_looked_up_as_the_alias(
    host: Seq<char>,
    port: Seq<char>,
    entries: Seq<Seq<char>>,
    alias: Ipv4Addr,
)
    requires
        entries.len() > 0,
        forall|i: int| 0 <= i < entries.len() ==> !(#[trigger] entries[i]).contains(','),
        exists|i: int|
            0 <= i < entries.len() && normalized(#[trigger] entries[i]) == Some(ipv4_text(alias)),
        forall|i: int, ip: Ipv4Addr|
            0 <= i < entries.len() && normalized(#[trigger] entries[i]) == Some(
                #[trigger] ipv4_text(ip),
            ) ==> ip == alias,
        !host.contains(':'),
        !port.contains(':'),
        parse_port(port) is Some,
    ensures
        is_direct(host + seq![':'] + port, join(entries, seq![','])) && normalized(
            host + seq![':'] + port,
        ) != Some(ipv4_text(alias)) ==> lookup_name(
            host + seq![':'] + port,
            join(entries, seq![',']),
        ) == ipv4_text(alias) + seq![':'] + port,
        is_direct(host, join(entries, seq![','])) && normalized(host) != Some(ipv4_text(alias))
            ==> lookup_name(host, join(entries, seq![','])) == ipv4_text(alias),
{
    crate::list_laws::lemma_listed_names_resolve_to_the_alias(host, port, entries, alias);
}

} // verus!
