//! Socket-scoped direct routing for a compiled-in self-hosted server.
//!
//! On Windows, full-tunnel VPN clients normally win route selection by installing a default
//! route through their TUN adapter. `IP_UNICAST_IF` lets this client select a physical interface
//! for an individual socket without changing the machine-wide routing table. Which hosts are
//! direct servers is a comma-separated list of the configuration, and the interfaces are the ones
//! that the system reports; both are handed in as plain values.
use crate::address::{
    ipv4_text, ipv6_text, is_ipv6_text, is_socket_v6_text, parse_ipv4, parse_socket_v4, read_ipv4,
    read_socket_v4, socket_v6_text, IpAddr, Ipv4Addr,
};
use crate::bytes::{be_bytes, big_endian};
use crate::config::Config;
use crate::text::{
    chars_of, contains_part, find_last, has_part, has_space, is_space, lower, lowered, parse_port,
    piece_views, read_port, rsplit_once, same_chars, split, split_at_each, text_of,
    trim, trim_end_char, trimmed, without_trailing,
};
use vstd::prelude::*;
use vstd::slice::slice_subrange;

verus! {

/// A network interface that reaches the direct server without a tunnel.
#[derive(Debug)]
pub struct DirectInterface {
    pub index: u32,
    pub local_ip: Ipv4Addr,
    pub name: String,
}

/// What a `DirectInterface` holds.
pub ghost struct DirectInterfaceView {
    pub index: u32,
    pub local_ip: Ipv4Addr,
    pub name: Seq<char>,
}

impl View for DirectInterface {
    type V = DirectInterfaceView;

    open spec fn view(&self) -> DirectInterfaceView {
        DirectInterfaceView { index: self.index, local_ip: self.local_ip, name: self.name@ }
    }
}

impl Clone for DirectInterface {
    fn clone(&self) -> (copy: Self)
        ensures
            copy@ == self@,
    {
        DirectInterface {
            index: self.index,
            local_ip: self.local_ip,
            name: self.name.clone(),
        }
    }
}

/// The host name that `host` stands for, without trailing dots and in small letters.
pub open spec fn host_name(host: Seq<char>) -> Option<Seq<char>> {
    let host = trim_end_char(host, '.');
    if host.len() == 0 || (exists|i: int| 0 <= i < host.len() && is_space(#[trigger] host[i]))
        || is_ipv6_text(host) {
        None
    } else {
        Some(lower(host))
    }
}

/// The host that `target` names, in the one form in which hosts are compared: an IPv4 address in
/// dotted decimal form, or a host name in small letters, both without the port. IPv6 socket
/// addresses and texts that name no host have no such form. A bare IPv6 address is read like a
/// name: where its last group reads as a port and what stands before it is no IPv6 address, that is
/// its form, as `:` is the form of `::1`; any other has none.
pub open spec fn normalized(target: Seq<char>) -> Option<Seq<char>> {
    let target = trim(target);
    if target.len() == 0 {
        None
    } else if parse_socket_v4(target) is Some {
        Some(ipv4_text(parse_socket_v4(target)->0))
    } else if is_socket_v6_text(target) {
        None
    } else if parse_ipv4(target) is Some {
        Some(ipv4_text(parse_ipv4(target)->0))
    } else {
        match rsplit_once(target, ':') {
            Some((host, port)) => if parse_port(port) is Some {
                host_name(host)
            } else {
                None
            },
            None => host_name(target),
        }
    }
}

/// Some entry of the comma-separated list `configured` names the host `host`.
pub open spec fn lists_host(configured: Seq<char>, host: Seq<char>) -> bool {
    exists|i: int|
        0 <= i < split(configured, ',').len() && normalized(#[trigger] split(configured, ',')[i])
            == Some(host)
}

/// `target` names a host of the comma-separated list `configured`.
pub open spec fn is_direct(target: Seq<char>, configured: Seq<char>) -> bool {
    normalized(target) is Some && lists_host(configured, normalized(target)->0)
}

/// The IPv4 address that one entry of the list names, if it names one.
pub open spec fn entry_alias(entry: Seq<char>) -> Option<Ipv4Addr> {
    match normalized(entry) {
        Some(host) => parse_ipv4(host),
        None => None,
    }
}

/// Some entry of the comma-separated list `configured` names the address `ip`.
pub open spec fn lists_alias(configured: Seq<char>, ip: Ipv4Addr) -> bool {
    exists|i: int|
        0 <= i < split(configured, ',').len() && entry_alias(
            #[trigger] split(configured, ',')[i],
        ) == Some(ip)
}

/// `ip` is the one IPv4 address that the entries of `configured` name.
pub open spec fn only_alias(configured: Seq<char>, ip: Ipv4Addr) -> bool {
    &&& lists_alias(configured, ip)
    &&& forall|other: Ipv4Addr| #[trigger] lists_alias(configured, other) ==> other == ip
}

/// `target` with its host replaced by `alias`, its port kept.
pub open spec fn with_alias(target: Seq<char>, alias: Ipv4Addr) -> Option<Seq<char>> {
    match rsplit_once(target, ':') {
        Some((_, port)) => if parse_port(port) is Some {
            Some(ipv4_text(alias) + seq![':'] + port)
        } else {
            None
        },
        None => Some(ipv4_text(alias)),
    }
}

/// What a direct target resolves to under the only alias of the list.
pub open spec fn resolved_with(target: Seq<char>, alias: Ipv4Addr) -> Option<Seq<char>> {
    if normalized(target) is Some && parse_ipv4(normalized(target)->0) is Some {
        Some(target)
    } else {
        with_alias(target, alias)
    }
}

/// What a target resolves to without a name server: nothing, unless it is direct and the list
/// names exactly one IPv4 address.
pub open spec fn resolution(target: Seq<char>, configured: Seq<char>) -> Option<Seq<char>> {
    if is_direct(target, configured) && exists|ip: Ipv4Addr| only_alias(configured, ip) {
        resolved_with(target, choose|ip: Ipv4Addr| only_alias(configured, ip))
    } else {
        None
    }
}

/// The view of an optional text.
pub open spec fn text_view(text: Option<String>) -> Option<Seq<char>> {
    match text {
        Some(t) => Some(t@),
        None => None,
    }
}

/// The view of optional characters.
pub open spec fn chars_view(chars: Option<Vec<char>>) -> Option<Seq<char>> {
    match chars {
        Some(c) => Some(c@),
        None => None,
    }
}

/// The host name that a text stands for.
fn read_host_name(host: &[char]) -> (name: Option<Vec<char>>)
    ensures
        chars_view(name) == host_name(host@),
{
    let host: &[char] = without_trailing(host, '.');
    if host.len() == 0 || has_space(host) || ipv6_text(host) {
        None
    } else {
        Some(lowered(host))
    }
}

/// The host that a target names, in the form in which hosts are compared.
fn normalize(target: &[char]) -> (host: Option<Vec<char>>)
    ensures
        chars_view(host) == normalized(target@),
{
    let target: &[char] = trimmed(target);
    if target.len() == 0 {
        return None;
    }
    if let Some(ip) = read_socket_v4(target) {
        return Some(chars_of(ip.text().as_str()));
    }
    if socket_v6_text(target) {
        return None;
    }
    if let Some(ip) = read_ipv4(target) {
        return Some(chars_of(ip.text().as_str()));
    }
    proof {
        crate::text::lemma_last_index(target@, ':');
    }
    match find_last(target, ':') {
        Some(at) => {
            let host: &[char] = slice_subrange(target, 0, at);
            let port: &[char] = slice_subrange(target, at + 1, target.len());
            assert(host@ =~= target@.take(at as int));
            assert(port@ =~= target@.skip(at + 1));
            if read_port(port).is_some() {
                read_host_name(host)
            } else {
                None
            }
        },
        None => read_host_name(target),
    }
}

/// The host that `target` names, in the one form in which hosts are compared.
pub fn normalized_host(target: &str) -> (host: Option<String>)
    ensures
        text_view(host) == normalized(target@),
{
    let chars: Vec<char> = chars_of(target);
    match normalize(chars.as_slice()) {
        Some(host) => Some(text_of(host.as_slice())),
        None => None,
    }
}

/// Whether some entry of `configured` names the host `host`.
fn host_listed(configured: &Vec<Vec<char>>, host: &Vec<char>) -> (yes: bool)
    ensures
        yes == exists|i: int|
            0 <= i < configured@.len() && normalized(#[trigger] piece_views(configured@)[i]) == Some(
                host@,
            ),
{
    let mut i: usize = 0;
    while i < configured.len()
        invariant
            i <= configured@.len(),
            forall|k: int|
                0 <= k < i ==> normalized(#[trigger] piece_views(configured@)[k]) != Some(host@),
        decreases configured@.len() - i,
    {
        assert(piece_views(configured@)[i as int] == configured@[i as int]@);
        if let Some(entry) = normalize(configured[i].as_slice()) {
            if same_chars(entry.as_slice(), host.as_slice()) {
                return true;
            }
        }
        assert(normalized(piece_views(configured@)[i as int]) != Some(host@));
        i += 1;
    }
    false
}

/// Whether `target` names one of the configured direct servers.
pub fn is_target(target: &str, config: &Config) -> (yes: bool)
    ensures
        yes == is_direct(target@, config.force_direct_server@),
{
    let target: Vec<char> = chars_of(target);
    match normalize(target.as_slice()) {
        Some(host) => {
            let configured: Vec<char> = chars_of(config.force_direct_server.as_str());
            let entries: Vec<Vec<char>> = split_at_each(configured.as_slice(), ',');
            host_listed(&entries, &host)
        },
        None => false,
    }
}

/// The one IPv4 address that the entries name, if there is exactly one.
fn find_only_alias(entries: &Vec<Vec<char>>, Ghost(configured): Ghost<Seq<char>>) -> (alias: Option<
    Ipv4Addr,
>)
    requires
        piece_views(entries@) == split(configured, ','),
    ensures
        match alias {
            Some(ip) => only_alias(configured, ip),
            None => forall|ip: Ipv4Addr| !only_alias(configured, ip),
        },
{
    let ghost pieces = split(configured, ',');
    let mut alias: Option<Ipv4Addr> = None;
    let mut i: usize = 0;
    while i < entries.len()
        invariant
            i <= entries@.len(),
            pieces == split(configured, ','),
            pieces == piece_views(entries@),
            match alias {
                Some(ip) => {
                    &&& lists_alias(configured, ip)
                    &&& forall|k: int|
                        0 <= k < i ==> (entry_alias(#[trigger] pieces[k]) matches Some(other)
                            ==> other == ip)
                },
                None => forall|k: int| 0 <= k < i ==> entry_alias(#[trigger] pieces[k]) is None,
            },
        decreases entries@.len() - i,
    {
        assert(pieces[i as int] == entries@[i as int]@);
        if let Some(host) = normalize(entries[i].as_slice()) {
            if let Some(ip) = read_ipv4(host.as_slice()) {
                assert(entry_alias(pieces[i as int]) == Some(ip));
                assert(lists_alias(configured, ip));
                match alias {
                    Some(known) => {
                        if known != ip {
                            assert forall|only: Ipv4Addr| !only_alias(configured, only) by {
                                assert(lists_alias(configured, known));
                            }
                            return None;
                        }
                    },
                    None => {
                        alias = Some(ip);
                    },
                }
            }
        }
        i += 1;
    }
    alias
}

/// The list resolves a direct target under the only address that it names.
proof fn lemma_resolution(target: Seq<char>, configured: Seq<char>, alias: Ipv4Addr)
    requires
        only_alias(configured, alias),
    ensures
        is_direct(target, configured) ==> resolution(target, configured) == resolved_with(
            target,
            alias,
        ),
{
    let chosen = choose|ip: Ipv4Addr| only_alias(configured, ip);
    assert(only_alias(configured, chosen));
    assert(lists_alias(configured, chosen));
    assert(chosen == alias);
}

/// A target with its host replaced by an address, its port kept.
fn replace_host(target: &[char], alias: Ipv4Addr) -> (replaced: Option<String>)
    ensures
        text_view(replaced) == with_alias(target@, alias),
{
    let length: usize = target.len();
    proof {
        crate::text::lemma_last_index(target@, ':');
    }
    match find_last(target, ':') {
        Some(at) => {
            let port: &[char] = slice_subrange(target, at + 1, length);
            assert(port@ =~= target@.skip(at + 1));
            if read_port(port).is_some() {
                let mut text: String = alias.text();
                text.push(':');
                text.append(text_of(port).as_str());
                assert(text@ =~= ipv4_text(alias) + seq![':'] + port@);
                Some(text)
            } else {
                None
            }
        },
        None => Some(alias.text()),
    }
}

/// Replaces a configured direct-server hostname with the configured IPv4 alias while preserving
/// its port. This avoids depending on a VPN-controlled DNS path after the physical interface has
/// explicitly been selected.
///
/// The replacement is intentionally enabled only when the direct-server list contains exactly one
/// IPv4 alias. With zero or multiple aliases there is no unambiguous hostname-to-address mapping,
/// so normal DNS resolution is kept.
pub fn resolved_target_from_config(target: &str, configured: &str) -> (resolved: Option<String>)
    ensures
        text_view(resolved) == resolution(target@, configured@),
{
    let chars: Vec<char> = chars_of(target);
    let host: Vec<char> = match normalize(chars.as_slice()) {
        Some(host) => host,
        None => return None,
    };
    let list: Vec<char> = chars_of(configured);
    let entries: Vec<Vec<char>> = split_at_each(list.as_slice(), ',');
    if !host_listed(&entries, &host) {
        return None;
    }
    match find_only_alias(&entries, Ghost(configured@)) {
        Some(alias) => {
            proof {
                lemma_resolution(target@, configured@, alias);
            }
            if read_ipv4(host.as_slice()).is_some() {
                Some(target.to_owned())
            } else {
                replace_host(chars.as_slice(), alias)
            }
        },
        None => None,
    }
}

/// What a target resolves to under the configured direct servers.
pub fn resolved_target(target: &str, config: &Config) -> (resolved: Option<String>)
    ensures
        text_view(resolved) == resolution(target@, config.force_direct_server@),
{
    resolved_target_from_config(target, config.force_direct_server.as_str())
}

/// The interface type of Ethernet adapters.
pub const IF_TYPE_ETHERNET_CSMACD: u32 = 6;

/// The interface type of tunnels.
pub const IF_TYPE_TUNNEL: u32 = 131;

/// The operational status of an interface that can pass packets.
pub const IF_OPER_STATUS_UP: u32 = 1;

/// What the system reports of the state of an interface.
#[derive(Clone, Copy, Debug)]
pub struct InterfaceStatus {
    pub oper_status: u32,
    pub if_type: u32,
    pub hardware: bool,
    pub not_media_connected: bool,
    pub end_point: bool,
}

/// A network interface as the system reports it.
pub struct NetworkInterface {
    pub index: u32,
    pub name: String,
    pub friendly_name: Option<String>,
    pub description: Option<String>,
    pub ipv4: Vec<Ipv4Addr>,
    pub has_gateway: bool,
    /// The state of the interface, where the system could tell it.
    pub status: Option<InterfaceStatus>,
}

/// `description` is that of an adapter which a Hyper-V external switch gives to its host.
pub open spec fn names_hyper_v(description: Option<Seq<char>>) -> bool {
    match description {
        Some(text) => has_part(lower(text), "hyper-v virtual ethernet adapter"@),
        None => false,
    }
}

/// Packets that leave through an interface in this state pass no tunnel.
pub open spec fn is_egress(status: InterfaceStatus, description: Option<Seq<char>>) -> bool {
    &&& status.oper_status == IF_OPER_STATUS_UP
    &&& status.if_type != IF_TYPE_TUNNEL
    &&& !status.not_media_connected
    &&& !status.end_point
    &&& status.hardware || (status.if_type == IF_TYPE_ETHERNET_CSMACD && names_hyper_v(description))
}

/// An address that other hosts can answer to.
pub open spec fn is_routable(ip: Ipv4Addr) -> bool {
    &&& !ip.spec_is_unspecified()
    &&& ip.a != 127
    &&& !(ip.a == 169 && ip.b == 254)
}

/// The first address that other hosts can answer to.
pub open spec fn first_routable(ips: Seq<Ipv4Addr>) -> Option<Ipv4Addr>
    decreases ips.len(),
{
    if ips.len() == 0 {
        None
    } else if is_routable(ips[0]) {
        Some(ips[0])
    } else {
        first_routable(ips.skip(1))
    }
}

/// The name that a user knows an interface by.
pub open spec fn shown_name(interface: NetworkInterface) -> Seq<char> {
    match interface.friendly_name {
        Some(name) => if name@.len() > 0 {
            name@
        } else {
            interface.name@
        },
        None => interface.name@,
    }
}

/// The direct interface that a reported interface is, if it is one: it has a gateway, is usable
/// and has an address that other hosts can answer to.
pub open spec fn as_direct(interface: NetworkInterface) -> Option<DirectInterfaceView> {
    if interface.has_gateway && interface.status is Some && is_egress(
        interface.status->0,
        text_view(interface.description),
    ) && first_routable(interface.ipv4@) is Some {
        Some(
            DirectInterfaceView {
                index: interface.index,
                local_ip: first_routable(interface.ipv4@)->0,
                name: shown_name(interface),
            },
        )
    } else {
        None
    }
}

/// The direct interfaces among the reported ones, in the same order.
pub open spec fn direct_among(found: Seq<NetworkInterface>) -> Seq<DirectInterfaceView>
    decreases found.len(),
{
    if found.len() == 0 {
        Seq::empty()
    } else {
        match as_direct(found.last()) {
            Some(interface) => direct_among(found.drop_last()).push(interface),
            None => direct_among(found.drop_last()),
        }
    }
}

/// The first of `interfaces` whose local address is `ip`.
pub open spec fn first_with_ip(interfaces: Seq<DirectInterfaceView>, ip: Ipv4Addr) -> Option<
    DirectInterfaceView,
>
    decreases interfaces.len(),
{
    if interfaces.len() == 0 {
        None
    } else if interfaces[0].local_ip == ip {
        Some(interfaces[0])
    } else {
        first_with_ip(interfaces.skip(1), ip)
    }
}

/// The view of an optional interface.
pub open spec fn interface_view(interface: Option<DirectInterface>) -> Option<
    DirectInterfaceView,
> {
    match interface {
        Some(i) => Some(i@),
        None => None,
    }
}

/// The views of a list of interfaces.
pub open spec fn interface_views(interfaces: Seq<DirectInterface>) -> Seq<DirectInterfaceView> {
    interfaces.map_values(|i: DirectInterface| i@)
}

/// The view of an optional text that is only looked at.
pub open spec fn str_view(text: Option<&str>) -> Option<Seq<char>> {
    match text {
        Some(t) => Some(t@),
        None => None,
    }
}

/// Whether a description is that of an adapter which a Hyper-V external switch gives to its host.
pub fn is_hyper_v_external_ethernet(description: Option<&str>) -> (yes: bool)
    ensures
        yes == names_hyper_v(str_view(description)),
{
    match description {
        Some(text) => {
            let chars: Vec<char> = chars_of(text);
            let low: Vec<char> = lowered(chars.as_slice());
            let part: Vec<char> = chars_of("hyper-v virtual ethernet adapter");
            contains_part(low.as_slice(), part.as_slice())
        },
        None => false,
    }
}

/// Whether packets that leave through an interface pass no tunnel. An interface whose state the
/// system could not tell is not usable.
pub fn is_usable_egress_interface(
    status: Option<InterfaceStatus>,
    description: Option<&str>,
) -> (yes: bool)
    ensures
        yes == (status is Some && is_egress(status->0, str_view(description))),
{
    match status {
        Some(row) => {
            let hardware_or_external_hyper_v: bool = row.hardware || (row.if_type
                == IF_TYPE_ETHERNET_CSMACD && is_hyper_v_external_ethernet(description));
            row.oper_status == IF_OPER_STATUS_UP && row.if_type != IF_TYPE_TUNNEL
                && !row.not_media_connected && !row.end_point && hardware_or_external_hyper_v
        },
        None => false,
    }
}

/// The first address that other hosts can answer to.
fn find_routable(ips: &Vec<Ipv4Addr>) -> (ip: Option<Ipv4Addr>)
    ensures
        ip == first_routable(ips@),
{
    let mut i: usize = 0;
    assert(ips@.skip(0) =~= ips@);
    while i < ips.len()
        invariant
            i <= ips@.len(),
            first_routable(ips@) == first_routable(ips@.skip(i as int)),
        decreases ips@.len() - i,
    {
        let ip: Ipv4Addr = ips[i];
        if !ip.is_unspecified() && !ip.is_loopback() && !ip.is_link_local() {
            return Some(ip);
        }
        assert(ips@.skip(i as int).skip(1) =~= ips@.skip(i + 1));
        i += 1;
    }
    None
}

/// The direct interface that a reported interface is, if it is one.
fn direct_interface(interface: &NetworkInterface) -> (direct: Option<DirectInterface>)
    ensures
        interface_view(direct) == as_direct(*interface),
{
    let description: Option<&str> = match &interface.description {
        Some(text) => Some(text.as_str()),
        None => None,
    };
    assert(str_view(description) == text_view(interface.description));
    if !interface.has_gateway || !is_usable_egress_interface(interface.status, description) {
        return None;
    }
    match find_routable(&interface.ipv4) {
        Some(local_ip) => {
            let name: String = match &interface.friendly_name {
                Some(name) => if name.as_str().is_empty() {
                    interface.name.clone()
                } else {
                    name.clone()
                },
                None => interface.name.clone(),
            };
            Some(DirectInterface { index: interface.index, local_ip, name })
        },
        None => None,
    }
}

/// The interfaces among the reported ones that reach the direct server without a tunnel.
pub fn interfaces(found: &Vec<NetworkInterface>) -> (direct: Vec<DirectInterface>)
    ensures
        interface_views(direct@) == direct_among(found@),
{
    let mut direct: Vec<DirectInterface> = Vec::new();
    let mut i: usize = 0;
    assert(interface_views(direct@) =~= direct_among(found@.take(0)));
    while i < found.len()
        invariant
            i <= found@.len(),
            interface_views(direct@) == direct_among(found@.take(i as int)),
        decreases found@.len() - i,
    {
        assert(found@.take(i + 1).drop_last() =~= found@.take(i as int));
        let ghost before = direct@;
        if let Some(interface) = direct_interface(&found[i]) {
            let ghost view = interface@;
            direct.push(interface);
            assert(interface_views(direct@) =~= interface_views(before).push(view));
        }
        i += 1;
    }
    assert(found@.take(i as int) =~= found@);
    direct
}

/// The direct interface with the local address `local_ip`. No direct interface has an IPv6
/// address.
pub fn interface_for_local_ip(local_ip: IpAddr, found: &Vec<NetworkInterface>) -> (direct: Option<
    DirectInterface,
>)
    ensures
        interface_view(direct) == match local_ip {
            IpAddr::V4(ip) => first_with_ip(direct_among(found@), ip),
            IpAddr::V6(_) => None,
        },
{
    let ip: Ipv4Addr = match local_ip {
        IpAddr::V4(ip) => ip,
        IpAddr::V6(_) => return None,
    };
    let direct: Vec<DirectInterface> = interfaces(found);
    let ghost views = interface_views(direct@);
    let mut i: usize = 0;
    assert(views.skip(0) =~= views);
    while i < direct.len()
        invariant
            i <= direct@.len(),
            views == interface_views(direct@),
            views == direct_among(found@),
            local_ip == IpAddr::V4(ip),
            first_with_ip(views, ip) == first_with_ip(views.skip(i as int), ip),
        decreases direct@.len() - i,
    {
        assert(views.skip(i as int)[0] == direct@[i as int]@);
        if direct[i].local_ip == ip {
            return Some(direct[i].clone());
        }
        assert(views.skip(i as int).skip(1) =~= views.skip(i + 1));
        i += 1;
    }
    None
}

/// The socket option that binds an IPv4 socket to one interface.
pub struct UnicastInterfaceOption {
    /// The number of the option, at the IP level.
    pub name: i32,
    /// The interface index, in network byte order.
    pub value: [u8; 4],
}

/// The number of the socket option `IP_UNICAST_IF` in the Windows SDK.
pub const IP_UNICAST_IF: i32 = 31;

/// The socket option that binds an IPv4 socket to the interface `interface_index`. Unlike
/// `IPV6_UNICAST_IF`, the IPv4 interface index is passed in network byte order.
pub fn set_ipv4_unicast_interface(interface_index: u32) -> (option: UnicastInterfaceOption)
    ensures
        option.name == IP_UNICAST_IF,
        option.value@ == be_bytes(interface_index as nat, 4),
        option.name == 31,
        option.value@ == seq![
            (interface_index / 0x100_0000) as u8,
            (interface_index / 0x1_0000 % 256) as u8,
            (interface_index / 0x100 % 256) as u8,
            (interface_index % 256) as u8,
        ],
{
    let bytes: Vec<u8> = big_endian(interface_index as u64, 4);
    proof {
        crate::message_laws::lemma_four_bytes_in_network_order(interface_index as nat);
    }
    UnicastInterfaceOption { name: IP_UNICAST_IF, value: [bytes[0], bytes[1], bytes[2], bytes[3]] }
}

} // verus!
