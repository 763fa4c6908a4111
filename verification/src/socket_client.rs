//! Which way a connection takes: the decisions between the steps of connecting.
//!
//! Looking up names, listing interfaces and opening sockets is left to the caller, who performs
//! the action that a function here names and hands back what came of it.
use crate::address::{ipv4_text, Ipv4Addr, SocketAddr};
use crate::config::{Config, NetworkType};
use crate::direct_server::{
    direct_among, first_with_ip, interface_for_local_ip, interface_views,
    interfaces, is_direct, is_target, resolution, resolved_target, text_view, DirectInterface,
    DirectInterfaceView, NetworkInterface,
};
pub use crate::ports::{check_port, increase_port, ipv4_to_ipv6, split_host_port};
use crate::ports::with_port;
use crate::route_error::{failure_message, failure_text, text_views, RouteError};
use crate::socket_text::{parse_socket, read_socket};
use crate::text::{chars_of, decimal, parse_port, push_decimal, rsplit_once};
use tokio_socks::IntoTargetAddr;
use vstd::prelude::*;
use vstd::utf8::encode_utf8;

verus! {

/// The direct interfaces, of which there must be at least one.
pub fn direct_interfaces(found: &Vec<NetworkInterface>) -> (direct: Result<
    Vec<DirectInterface>,
    RouteError,
>)
    ensures
        match direct {
            Ok(list) => {
                &&& interface_views(list@) == direct_among(found@)
                &&& list@.len() > 0
            },
            Err(error) => error is NoInterface && direct_among(found@).len() == 0,
        },
{
    let direct: Vec<DirectInterface> = interfaces(found);
    assert(interface_views(direct@).len() == direct@.len());
    if direct.is_empty() {
        Err(RouteError::NoInterface)
    } else {
        Ok(direct)
    }
}

/// What a direct target is looked up as: what it resolves to, or else itself.
pub open spec fn lookup_name(target: Seq<char>, configured: Seq<char>) -> Seq<char> {
    match resolution(target, configured) {
        Some(resolved) => resolved,
        None => target,
    }
}

/// What a direct target is looked up as.
fn lookup_target(target: &str, config: &Config) -> (name: String)
    ensures
        name@ == lookup_name(target@, config.force_direct_server@),
{
    match resolved_target(target, config) {
        Some(resolved) => resolved,
        None => target.to_owned(),
    }
}

/// The attempts to connect to a direct server, one on each direct interface, all at once.
pub struct DirectConnect {
    /// The target as it was asked for.
    pub target: String,
    /// The target that every attempt connects to.
    pub resolved: String,
    /// The interfaces on which an attempt is under way.
    pub pending: Vec<DirectInterface>,
    /// What went wrong on the other ones, in the order in which they failed.
    pub failures: Vec<String>,
}

/// One attempt to connect to a direct server.
pub struct DirectAttempt {
    pub target: String,
    pub local: SocketAddr,
    pub index: u32,
}

/// What comes after an attempt has finished.
pub enum DirectStep {
    /// The attempt connected: its stream is the connection.
    Connected,
    /// Wait for the attempts that are still under way.
    Wait,
    /// Every attempt failed.
    Failed(RouteError),
}

/// The local end of a socket on an interface: its address, and any port.
pub open spec fn any_port(ip: Ipv4Addr) -> SocketAddr {
    SocketAddr::V4 { ip, port: 0 }
}

/// Starts to connect to a direct server: one attempt on each direct interface.
pub fn connect_tcp_direct_server(
    target: &str,
    config: &Config,
    found: &Vec<NetworkInterface>,
) -> (connect: Result<DirectConnect, RouteError>)
    ensures
        match connect {
            Ok(state) => {
                &&& state.target@ == target@
                &&& state.resolved@ == lookup_name(target@, config.force_direct_server@)
                &&& interface_views(state.pending@) == direct_among(found@)
                &&& state.pending@.len() > 0
                &&& state.failures@.len() == 0
            },
            Err(error) => error is NoInterface && direct_among(found@).len() == 0,
        },
{
    match direct_interfaces(found) {
        Ok(pending) => Ok(
            DirectConnect {
                target: target.to_owned(),
                resolved: lookup_target(target, config),
                pending,
                failures: Vec::new(),
            },
        ),
        Err(error) => Err(error),
    }
}

impl DirectConnect {
    /// The attempt on the pending interface at `at`.
    pub fn attempt(&self, at: usize) -> (attempt: DirectAttempt)
        requires
            at < self.pending@.len(),
        ensures
            attempt.target@ == self.resolved@,
            attempt.local == any_port(self.pending@[at as int].local_ip),
            attempt.local == (SocketAddr::V4 { ip: self.pending@[at as int].local_ip, port: 0 }),
            attempt.index == self.pending@[at as int].index,
    {
        let interface: &DirectInterface = &self.pending[at];
        DirectAttempt {
            target: self.resolved.clone(),
            local: SocketAddr::V4 { ip: interface.local_ip, port: 0 },
            index: interface.index,
        }
    }

    /// Takes note that the attempt on the pending interface at `at` has finished, with an error or
    /// without. The first attempt that connects ends the rest; where all fail, the error holds
    /// what went wrong on each.
    pub fn finished(&mut self, at: usize, error: Option<&str>) -> (step: DirectStep)
        requires
            at < old(self).pending@.len(),
        ensures
            final(self).target@ == old(self).target@,
            final(self).resolved@ == old(self).resolved@,
            final(self).pending@.len() + final(self).failures@.len() == old(self).pending@.len()
                + old(self).failures@.len(),
            error is None ==> {
                &&& step is Connected
                &&& final(self).pending@ == old(self).pending@
                &&& final(self).failures@ == old(self).failures@
            },
            error matches Some(text) ==> {
                &&& final(self).pending@ == old(self).pending@.remove(at as int)
                &&& text_views(final(self).failures@) == text_views(old(self).failures@).push(
                    failure_text(
                        old(self).pending@[at as int].name@,
                        old(self).pending@[at as int].index,
                        text@,
                    ),
                )
                &&& if final(self).pending@.len() == 0 {
                    step matches DirectStep::Failed(RouteError::NotConnected { target, failures })
                        && target@ == old(self).target@ && text_views(failures@) == text_views(
                        final(self).failures@,
                    )
                } else {
                    step is Wait
                }
            },
    {
        match error {
            None => DirectStep::Connected,
            Some(text) => {
                let interface: DirectInterface = self.pending.remove(at);
                let failure: String = failure_message(
                    interface.name.as_str(),
                    interface.index,
                    text,
                );
                let ghost before = text_views(self.failures@);
                let ghost said = failure@;
                self.failures.push(failure);
                assert(text_views(self.failures@) =~= before.push(said));
                if self.pending.is_empty() {
                    DirectStep::Failed(
                        RouteError::NotConnected {
                            target: self.target.clone(),
                            failures: copy_texts(&self.failures),
                        },
                    )
                } else {
                    DirectStep::Wait
                }
            },
        }
    }
}

/// A list with the same texts.
fn copy_texts(texts: &Vec<String>) -> (copy: Vec<String>)
    ensures
        text_views(copy@) == text_views(texts@),
{
    let mut copy: Vec<String> = Vec::new();
    let mut i: usize = 0;
    while i < texts.len()
        invariant
            i <= texts@.len(),
            copy@.len() == i,
            forall|k: int| 0 <= k < i ==> (#[trigger] copy@[k])@ == texts@[k]@,
        decreases texts@.len() - i,
    {
        copy.push(texts[i].clone());
        i += 1;
    }
    assert(text_views(copy@) =~= text_views(texts@));
    copy
}

/// The first IPv4 address in a list.
pub open spec fn first_v4(found: Seq<SocketAddr>) -> Option<SocketAddr>
    decreases found.len(),
{
    if found.len() == 0 {
        None
    } else if found[0] is V4 {
        Some(found[0])
    } else {
        first_v4(found.skip(1))
    }
}

/// The first IPv6 address in a list.
pub open spec fn first_v6(found: Seq<SocketAddr>) -> Option<SocketAddr>
    decreases found.len(),
{
    if found.len() == 0 {
        None
    } else if found[0] is V6 {
        Some(found[0])
    } else {
        first_v6(found.skip(1))
    }
}

/// The first IPv4 address in a list.
fn find_v4(found: &Vec<SocketAddr>) -> (addr: Option<SocketAddr>)
    ensures
        addr == first_v4(found@),
{
    let mut i: usize = 0;
    assert(found@.skip(0) =~= found@);
    while i < found.len()
        invariant
            i <= found@.len(),
            first_v4(found@) == first_v4(found@.skip(i as int)),
        decreases found@.len() - i,
    {
        if found[i].is_ipv4() {
            return Some(found[i]);
        }
        assert(found@.skip(i as int).skip(1) =~= found@.skip(i + 1));
        i += 1;
    }
    None
}

/// The first IPv6 address in a list.
fn find_v6(found: &Vec<SocketAddr>) -> (addr: Option<SocketAddr>)
    ensures
        addr == first_v6(found@),
{
    let mut i: usize = 0;
    assert(found@.skip(0) =~= found@);
    while i < found.len()
        invariant
            i <= found@.len(),
            first_v6(found@) == first_v6(found@.skip(i as int)),
        decreases found@.len() - i,
    {
        if found[i].is_ipv6() {
            return Some(found[i]);
        }
        assert(found@.skip(i as int).skip(1) =~= found@.skip(i + 1));
        i += 1;
    }
    None
}

/// The route of datagrams to a direct server.
pub struct DirectUdpRoute {
    pub interface: DirectInterface,
    pub peer: SocketAddr,
}

/// The name to look up for the route of datagrams to a target, if the target is a direct server.
/// Any other target has no such route.
pub fn direct_udp_name(target: &str, config: &Config) -> (name: Option<String>)
    ensures
        text_view(name) == if is_direct(target@, config.force_direct_server@) {
            Some(lookup_name(target@, config.force_direct_server@))
        } else {
            None
        },
{
    if is_target(target, config) {
        Some(lookup_target(target, config))
    } else {
        None
    }
}

/// The address of a direct server among those that its name led to: the first IPv4 address.
pub fn direct_udp_peer(target: &str, found: &Vec<SocketAddr>) -> (peer: Result<
    SocketAddr,
    RouteError,
>)
    ensures
        match peer {
            Ok(addr) => first_v4(found@) == Some(addr),
            Err(RouteError::NoIpv4 { target: asked }) => {
                first_v4(found@) is None && asked@ == target@
            },
            Err(_) => false,
        },
{
    match find_v4(found) {
        Some(addr) => Ok(addr),
        None => Err(RouteError::NoIpv4 { target: target.to_owned() }),
    }
}

/// The route of datagrams to the direct server at `peer`: through the first direct interface.
pub fn direct_udp_route(peer: SocketAddr, found: &Vec<NetworkInterface>) -> (route: Result<
    DirectUdpRoute,
    RouteError,
>)
    ensures
        match route {
            Ok(way) => {
                &&& direct_among(found@).len() > 0
                &&& way.interface@ == direct_among(found@)[0]
                &&& way.peer == peer
            },
            Err(error) => error is NoInterface && direct_among(found@).len() == 0,
        },
{
    match direct_interfaces(found) {
        Ok(list) => {
            assert(interface_views(list@)[0] == list@[0]@);
            Ok(DirectUdpRoute { interface: list[0].clone(), peer })
        },
        Err(error) => Err(error),
    }
}

/// The text is an address with its port.
pub open spec fn is_socket_text(text: Seq<char>) -> bool {
    parse_socket(text) is Some
}

/// Why a text is no address for a proxy, if it is none: an address with its port, or a name of at
/// most 255 bytes and a port.
pub open spec fn proxy_address_error(host: Seq<char>) -> Option<Seq<char>> {
    if is_socket_text(host) {
        None
    } else {
        match rsplit_once(host, ':') {
            Some((domain, port)) => if parse_port(port) is None {
                Some("Target address is invalid: invalid address format"@)
            } else if encode_utf8(domain).len() > 255 {
                Some("Target address is invalid: overlong domain"@)
            } else {
                None
            },
            None => Some("Target address is invalid: invalid address format"@),
        }
    }
}

/// The target of datagrams.
#[derive(Debug)]
pub enum TargetAddr {
    Ip(SocketAddr),
    Domain(String, u16),
}

/// What a `TargetAddr` holds.
pub ghost enum TargetAddrView {
    Ip(SocketAddr),
    Domain(Seq<char>, u16),
}

impl View for TargetAddr {
    type V = TargetAddrView;

    open spec fn view(&self) -> TargetAddrView {
        match self {
            TargetAddr::Ip(addr) => TargetAddrView::Ip(*addr),
            TargetAddr::Domain(name, port) => TargetAddrView::Domain(name@, *port),
        }
    }
}

/// The target that a text is for a proxy, where it is one: the address that it writes, or else the
/// name before its last colon and the port behind it.
pub open spec fn proxy_target(host: Seq<char>) -> TargetAddrView {
    match parse_socket(host) {
        Some(addr) => TargetAddrView::Ip(addr),
        None => {
            let (domain, port) = rsplit_once(host, ':')->0;
            TargetAddrView::Domain(domain, parse_port(port)->0 as u16)
        },
    }
}

/// A target for a proxy, an address in it as a text.
enum TargetText {
    Address(String),
    Domain(String, u16),
}

/// `IntoTargetAddr::into_target_addr` of `tokio_socks` takes a text that is a socket address, or
/// else a name and a port with a colon between them, the name at most 255 bytes long. What it
/// says of any other text is the text of its error. An address comes back in the textual form of
/// `std`, which writes the same address as the text did.
#[verifier::external_body]
fn target_text(host: &str) -> (target: Result<TargetText, String>)
    ensures
        match target {
            Ok(TargetText::Address(text)) => {
                is_socket_text(host@) && parse_socket(text@) == parse_socket(host@)
            },
            Ok(TargetText::Domain(name, port)) => {
                &&& proxy_address_error(host@) is None
                &&& !is_socket_text(host@)
                &&& rsplit_once(host@, ':') matches Some((domain, digits)) && name@ == domain
                    && parse_port(digits) == Some(port as nat)
            },
            Err(error) => proxy_address_error(host@) == Some(error@),
        },
{
    match host.into_target_addr() {
        Ok(tokio_socks::TargetAddr::Ip(addr)) => Ok(TargetText::Address(addr.to_string())),
        Ok(tokio_socks::TargetAddr::Domain(name, port)) => {
            Ok(TargetText::Domain(name.into_owned(), port))
        },
        Err(error) => Err(error.to_string()),
    }
}

/// The target that `host` is for a proxy, or what is wrong with it.
pub fn proxy_target_addr(host: &str) -> (target: Result<TargetAddr, String>)
    ensures
        match target {
            Ok(addr) => proxy_address_error(host@) is None && addr@ == proxy_target(host@),
            Err(error) => proxy_address_error(host@) == Some(error@),
        },
{
    match target_text(host) {
        Ok(TargetText::Address(text)) => {
            let chars: Vec<char> = chars_of(text.as_str());
            Ok(TargetAddr::Ip(read_socket(chars.as_slice()).unwrap()))
        },
        Ok(TargetText::Domain(name, port)) => Ok(TargetAddr::Domain(name, port)),
        Err(error) => Err(error),
    }
}

/// What is wrong with `host` as an address for a proxy, or nothing. The proxy resolves names, so
/// none is looked up here; this holds for SOCKS and HTTP proxies alike.
pub fn test_if_valid_server_for_proxy_(host: &str) -> (error: String)
    ensures
        error@ == match proxy_address_error(host@) {
            Some(text) => text,
            None => Seq::empty(),
        },
{
    match proxy_target_addr(host) {
        Ok(_) => String::new(),
        Err(text) => text,
    }
}

/// How a server is tested.
pub enum ServerTest {
    /// The test is done: what is wrong, or nothing.
    Done(String),
    /// The server is valid if this name can be looked up.
    LookUp(String),
}

/// Tests whether `host`, with any port, is a server that can be reached: through a SOCKS proxy
/// where one is used and asked for, else by looking it up. An address needs no lookup.
pub fn test_if_valid_server(host: &str, test_with_proxy: bool, config: &Config) -> (test:
    ServerTest)
    ensures
        if test_with_proxy && config.network_type == NetworkType::ProxySocks {
            test matches ServerTest::Done(error) && error@ == match proxy_address_error(
                with_port(host@, 0),
            ) {
                Some(text) => text,
                None => Seq::empty(),
            }
        } else if is_socket_text(with_port(host@, 0)) {
            test matches ServerTest::Done(error) && error@ == Seq::<char>::empty()
        } else {
            test matches ServerTest::LookUp(name) && name@ == with_port(host@, 0)
        },
{
    let host: String = check_port(host, 0);
    if test_with_proxy && config.network_type == NetworkType::ProxySocks {
        return ServerTest::Done(test_if_valid_server_for_proxy_(host.as_str()));
    }
    let chars: Vec<char> = chars_of(host.as_str());
    if read_socket(chars.as_slice()).is_some() {
        ServerTest::Done(String::new())
    } else {
        ServerTest::LookUp(host)
    }
}

/// What may be an address already, without being looked up.
pub trait IsResolvedSocketAddr {
    /// The address, if it is one already.
    spec fn resolved(&self) -> Option<SocketAddr>;

    /// The address, if it is one already.
    fn resolve(&self) -> (addr: Option<&SocketAddr>)
        ensures
            match addr {
                Some(a) => self.resolved() == Some(*a),
                None => self.resolved() is None,
            },
    ;
}

impl IsResolvedSocketAddr for SocketAddr {
    open spec fn resolved(&self) -> Option<SocketAddr> {
        Some(*self)
    }

    fn resolve(&self) -> (addr: Option<&SocketAddr>) {
        Some(self)
    }
}

impl IsResolvedSocketAddr for String {
    open spec fn resolved(&self) -> Option<SocketAddr> {
        None
    }

    fn resolve(&self) -> (addr: Option<&SocketAddr>) {
        None
    }
}

impl IsResolvedSocketAddr for &str {
    open spec fn resolved(&self) -> Option<SocketAddr> {
        None
    }

    fn resolve(&self) -> (addr: Option<&SocketAddr>) {
        None
    }
}

/// The kind of stream that a target asks for.
pub enum StreamRoute {
    /// A WebRTC stream to the target as it was asked for.
    WebRtc(String),
    /// A WebSocket to this endpoint.
    WebSocket(String),
    /// A TCP stream.
    Tcp,
}

/// Which stream to open for `target`: a WebRTC stream for a WebRTC endpoint, a WebSocket where the
/// target, rewritten for WebSockets, is an endpoint of one, and else a TCP stream.
pub fn connect_tcp(
    target: &str,
    webrtc_endpoint: bool,
    ws_target: &str,
    ws_endpoint: bool,
) -> (route: StreamRoute)
    ensures
        match route {
            StreamRoute::WebRtc(endpoint) => webrtc_endpoint && endpoint@ == target@,
            StreamRoute::WebSocket(endpoint) => {
                !webrtc_endpoint && ws_endpoint && endpoint@ == ws_target@
            },
            StreamRoute::Tcp => !webrtc_endpoint && !ws_endpoint,
        },
{
    if webrtc_endpoint {
        StreamRoute::WebRtc(target.to_owned())
    } else if ws_endpoint {
        StreamRoute::WebSocket(ws_target.to_owned())
    } else {
        StreamRoute::Tcp
    }
}

/// A TCP connection that was asked for.
pub struct TcpRequest {
    /// The target, as a text.
    pub target: String,
    /// The target, where it is an address already.
    pub resolved: Option<SocketAddr>,
    /// The local end, where it is given.
    pub local: Option<SocketAddr>,
}

/// The next step towards a TCP connection.
#[derive(Clone, Copy, Debug, PartialEq, Eq, Structural)]
pub enum TcpAction {
    /// Connect to the direct server, on every direct interface at once.
    DirectServer,
    /// List the interfaces, and ask again with them.
    ListInterfaces,
    /// Connect to the target from `from`, on the interface `index`.
    OnInterface { from: SocketAddr, index: u32 },
    /// Connect to the target through the SOCKS server, from `local`.
    Socks { local: Option<SocketAddr> },
    /// Look up this address at nip.io, and ask again with the answer.
    AskNipIo { addr: SocketAddr },
    /// Connect to the target from `local`.
    Connect { local: Option<SocketAddr> },
    /// Connect to this address instead of the target, from `local`.
    ConnectTo { addr: SocketAddr, local: Option<SocketAddr> },
}

/// The step towards a TCP connection once it is settled that no interface is prescribed.
pub open spec fn free_step(
    resolved: Option<SocketAddr>,
    local: Option<SocketAddr>,
    has_socks: bool,
) -> TcpAction {
    if has_socks {
        TcpAction::Socks { local }
    } else if resolved is Some && resolved->0 is V4 && local is Some && local->0 is V6 {
        TcpAction::AskNipIo { addr: resolved->0 }
    } else {
        TcpAction::Connect { local }
    }
}

/// The step towards a TCP connection for the interface that the local end belongs to.
pub open spec fn interface_step(
    request: TcpRequest,
    interface: Option<DirectInterfaceView>,
    has_socks: bool,
) -> TcpAction {
    match interface {
        Some(direct) => TcpAction::OnInterface {
            from: request.local->0,
            index: direct.index,
        },
        None => free_step(request.resolved, request.local, has_socks),
    }
}

/// The first step towards a TCP connection.
pub open spec fn first_step(request: TcpRequest, windows: bool, config: Config) -> TcpAction {
    if windows && is_direct(request.target@, config.force_direct_server@) {
        TcpAction::DirectServer
    } else if windows && request.local is Some && request.local->0 is V4 {
        TcpAction::ListInterfaces
    } else {
        free_step(request.resolved, request.local, config.has_socks)
    }
}

/// The step towards a TCP connection once it is settled that no interface is prescribed. An IPv4
/// address cannot be reached from an IPv6 socket, so its IPv6 form is asked for first.
fn without_interface(request: &TcpRequest, config: &Config) -> (action: TcpAction)
    ensures
        action == free_step(request.resolved, request.local, config.has_socks),
{
    if config.has_socks {
        return TcpAction::Socks { local: request.local };
    }
    if let Some(addr) = request.resolved {
        if let Some(local) = request.local {
            if local.is_ipv6() && addr.is_ipv4() {
                return TcpAction::AskNipIo { addr };
            }
        }
    }
    TcpAction::Connect { local: request.local }
}

/// The first step towards a TCP connection that is no WebSocket and no WebRTC stream.
///
/// On Windows a direct server is reached on the direct interfaces. A TCP hole-punch attempt reuses
/// the physical local address of the server socket: that peer socket is kept on the same physical
/// interface instead of allowing Windows to route it back through a TUN adapter. No direct interface
/// has an IPv6 address, so none is looked for from there.
pub fn connect_tcp_local(request: &TcpRequest, windows: bool, config: &Config) -> (action: TcpAction)
    ensures
        action == first_step(*request, windows, *config),
        action is DirectServer <==> windows && is_direct(
            request.target@,
            config.force_direct_server@,
        ),
        action is ListInterfaces ==> windows && request.local is Some && request.local->0 is V4,
        action is Connect || action is AskNipIo ==> !config.has_socks,
        action is OnInterface || action is ConnectTo ==> false,
{
    if windows && is_target(request.target.as_str(), config) {
        return TcpAction::DirectServer;
    }
    if let Some(local) = request.local {
        if windows && local.is_ipv4() {
            return TcpAction::ListInterfaces;
        }
    }
    without_interface(request, config)
}

/// The step towards a TCP connection with a local end, once the interfaces are known.
pub fn connect_tcp_listed(
    request: &TcpRequest,
    found: &Vec<NetworkInterface>,
    config: &Config,
) -> (action: TcpAction)
    requires
        request.local is Some,
    ensures
        action == interface_step(
            *request,
            match request.local->0 {
                SocketAddr::V4 { ip, .. } => first_with_ip(direct_among(found@), ip),
                SocketAddr::V6 { .. } => None,
            },
            config.has_socks,
        ),
        action is Connect || action is AskNipIo ==> !config.has_socks,
        action is DirectServer || action is ListInterfaces || action is ConnectTo ==> false,
{
    let local: SocketAddr = request.local.unwrap();
    match interface_for_local_ip(local.ip(), found) {
        Some(interface) => TcpAction::OnInterface { from: local, index: interface.index },
        None => without_interface(request, config),
    }
}

/// The name under which nip.io answers for an address.
pub fn nip_io_name(ip: &str, port: u16) -> (name: String)
    ensures
        name@ == ip@ + ".nip.io:"@ + decimal(port as nat),
{
    let mut name: String = ip.to_owned();
    name.append(".nip.io:");
    push_decimal(&mut name, port as u64);
    name
}

/// The name under which nip.io answers for an IPv4 address and its port. It is not asked for IPv6
/// addresses.
pub fn nip_io_name_of(addr: SocketAddr) -> (name: Option<String>)
    ensures
        text_view(name) == match addr {
            SocketAddr::V4 { ip, port } => Some(
                ipv4_text(ip) + ".nip.io:"@ + decimal(port as nat),
            ),
            SocketAddr::V6 { .. } => None,
        },
{
    match addr {
        SocketAddr::V4 { ip, port } => Some(nip_io_name(ip.text().as_str(), port)),
        SocketAddr::V6 { .. } => None,
    }
}

/// The IPv6 address among those that nip.io gave: the first one.
pub fn query_nip_io(found: &Vec<SocketAddr>) -> (addr: Result<SocketAddr, RouteError>)
    ensures
        match addr {
            Ok(a) => first_v6(found@) == Some(a),
            Err(error) => error is NoIpv6 && first_v6(found@) is None,
        },
{
    match find_v6(found) {
        Some(addr) => Ok(addr),
        None => Err(RouteError::NoIpv6),
    }
}

/// The last step towards a TCP connection from an IPv6 socket to an IPv4 address, once nip.io has
/// answered.
pub fn connect_tcp_answered(request: &TcpRequest, found: &Vec<SocketAddr>) -> (action: Result<
    TcpAction,
    RouteError,
>)
    ensures
        match action {
            Ok(step) => first_v6(found@) matches Some(addr) && step == (TcpAction::ConnectTo {
                addr,
                local: request.local,
            }),
            Err(error) => error is NoIpv6 && first_v6(found@) is None,
        },
{
    match query_nip_io(found) {
        Ok(addr) => Ok(TcpAction::ConnectTo { addr, local: request.local }),
        Err(error) => Err(error),
    }
}

/// Whether datagrams to a target are sent over IPv4. A name is taken to lead to an IPv4 address.
pub fn is_ipv4(target: &TargetAddr) -> (yes: bool)
    ensures
        yes == match target {
            TargetAddr::Ip(addr) => addr is V4,
            TargetAddr::Domain(_, _) => true,
        },
{
    match target {
        TargetAddr::Ip(addr) => addr.is_ipv4(),
        TargetAddr::Domain(_, _) => true,
    }
}

/// The address of a target: the one that a trial connection reached, or else the first one that
/// its name leads to. `None` asks for the name to be looked up.
pub fn test_target(target: &str, reached: Option<SocketAddr>, found: Option<&Vec<SocketAddr>>) -> (
    addr: Option<Result<SocketAddr, RouteError>>)
    ensures
        match reached {
            Some(a) => addr == Some(Ok::<SocketAddr, RouteError>(a)),
            None => match found {
                None => addr is None,
                Some(list) => if list@.len() > 0 {
                    addr == Some(Ok::<SocketAddr, RouteError>(list@[0]))
                } else {
                    addr matches Some(Err(RouteError::NoAddress { target: asked })) && asked@
                        == target@
                },
            },
        },
{
    if let Some(a) = reached {
        return Some(Ok(a));
    }
    match found {
        None => None,
        Some(list) => if list.len() > 0 {
            Some(Ok(list[0]))
        } else {
            Some(Err(RouteError::NoAddress { target: target.to_owned() }))
        },
    }
}

/// The next step towards a socket for datagrams.
pub enum UdpAction {
    /// Find the route to the direct server that this name leads to.
    DirectRoute { name: String },
    /// Find the address of the target, and bind a socket for it.
    TestTarget,
    /// Hand the target on to the proxy, a name unresolved, and bind a socket for that.
    HandOn { target: TargetAddr },
    /// Keep the socket as it is.
    Keep,
}

/// A socket for datagrams, to be bound to one interface.
pub struct UdpOnInterface {
    pub local: SocketAddr,
    pub index: u32,
    pub peer: SocketAddr,
}

/// A socket for datagrams, to be bound to any address of one family.
pub struct UdpBind {
    pub ipv4: bool,
    pub peer: SocketAddr,
}

/// A socket for datagrams that a proxy sends on, to be bound to any address of one family.
pub struct UdpHandOn {
    pub ipv4: bool,
    pub target: TargetAddr,
}

/// Datagrams to `target` take the route to a direct server.
pub open spec fn takes_direct_route(target: Seq<char>, windows: bool, config: Config) -> bool {
    windows && is_direct(target, config.force_direct_server@)
}

/// `action` asks for the route to the direct server `target`.
pub open spec fn is_direct_route(action: UdpAction, target: Seq<char>, config: Config) -> bool {
    action matches UdpAction::DirectRoute { name } && name@ == lookup_name(
        target,
        config.force_direct_server@,
    )
}

/// The first step towards a socket for datagrams straight to a target.
pub fn new_direct_udp_for(target: &str, windows: bool, config: &Config) -> (action: UdpAction)
    ensures
        if takes_direct_route(target@, windows, *config) {
            is_direct_route(action, target@, *config)
        } else {
            action is TestTarget
        },
        action is DirectRoute <==> windows && is_direct(target@, config.force_direct_server@),
{
    if windows {
        if let Some(name) = direct_udp_name(target, config) {
            return UdpAction::DirectRoute { name };
        }
    }
    UdpAction::TestTarget
}

/// The first step towards a socket for datagrams to a target, through the proxy where there is
/// one. A proxy resolves names itself, so the target is only read into its parts.
pub fn new_udp_for(target: &str, windows: bool, config: &Config) -> (action: Result<
    UdpAction,
    RouteError,
>)
    ensures
        if takes_direct_route(target@, windows, *config) {
            action matches Ok(step) && is_direct_route(step, target@, *config)
        } else if config.network_type == NetworkType::Direct {
            action matches Ok(step) && step is TestTarget
        } else {
            match proxy_address_error(target@) {
                None => action matches Ok(UdpAction::HandOn { target: to }) && to@ == proxy_target(
                    target@,
                ),
                Some(text) => action matches Err(RouteError::NotAnAddress { reason }) && reason@
                    == text,
            }
        },
        (action matches Ok(step) && step is DirectRoute) <==> windows && is_direct(
            target@,
            config.force_direct_server@,
        ),
{
    if windows {
        if let Some(name) = direct_udp_name(target, config) {
            return Ok(UdpAction::DirectRoute { name });
        }
    }
    if config.network_type == NetworkType::Direct {
        return Ok(UdpAction::TestTarget);
    }
    match proxy_target_addr(target) {
        Ok(target) => Ok(UdpAction::HandOn { target }),
        Err(reason) => Err(RouteError::NotAnAddress { reason }),
    }
}

/// The first step towards a new socket for datagrams to a target. Behind a proxy the old one is
/// kept.
pub fn rebind_udp_for(target: &str, windows: bool, config: &Config) -> (action: UdpAction)
    ensures
        if takes_direct_route(target@, windows, *config) {
            is_direct_route(action, target@, *config)
        } else if config.network_type == NetworkType::Direct {
            action is TestTarget
        } else {
            action is Keep
        },
        action is DirectRoute <==> windows && is_direct(target@, config.force_direct_server@),
{
    if windows {
        if let Some(name) = direct_udp_name(target, config) {
            return UdpAction::DirectRoute { name };
        }
    }
    if config.network_type != NetworkType::Direct {
        return UdpAction::Keep;
    }
    UdpAction::TestTarget
}

/// The socket for datagrams on the route to a direct server.
pub fn udp_on_route(route: &DirectUdpRoute) -> (socket: UdpOnInterface)
    ensures
        socket.local == any_port(route.interface.local_ip),
        socket.local == (SocketAddr::V4 { ip: route.interface.local_ip, port: 0 }),
        socket.index == route.interface.index,
        socket.peer == route.peer,
{
    UdpOnInterface {
        local: SocketAddr::V4 { ip: route.interface.local_ip, port: 0 },
        index: route.interface.index,
        peer: route.peer,
    }
}

/// The socket for datagrams to an address: one of the same family.
pub fn udp_for_address(peer: SocketAddr) -> (socket: UdpBind)
    ensures
        socket.ipv4 == (peer is V4),
        socket.peer == peer,
{
    UdpBind { ipv4: peer.is_ipv4(), peer }
}

/// The socket for datagrams to a target that is handed on to the proxy: one over IPv4, whatever
/// the target is.
pub fn udp_for_proxy(target: TargetAddr) -> (socket: UdpHandOn)
    ensures
        socket.ipv4,
        socket.target == target,
{
    UdpHandOn { ipv4: true, target }
}

/// Who sends the datagrams of a new socket.
#[derive(Clone, Copy, Debug, PartialEq, Eq, Structural)]
pub enum UdpSender {
    /// The socket itself.
    Socket,
    /// The SOCKS server.
    Socks,
}

/// Who sends the datagrams of a new socket: the SOCKS server where there is one.
pub fn new_udp(config: &Config) -> (sender: UdpSender)
    ensures
        sender == if config.has_socks {
            UdpSender::Socks
        } else {
            UdpSender::Socket
        },
{
    if config.has_socks {
        UdpSender::Socks
    } else {
        UdpSender::Socket
    }
}

/// A direct server is reached past any proxy and, on Windows, only on direct interfaces: neither
/// the local end nor the proxy has a say.
pub proof fn lemma_direct_server_comes_first(request: TcpRequest, config: Config)
    requires
        is_direct(request.target@, config.force_direct_server@),
    ensures
        first_step(request, true, config) == TcpAction::DirectServer,
{
}

/// An IPv4 address is never connected to from an IPv6 socket without asking nip.io, unless a SOCKS
/// server connects.
pub proof fn lemma_no_ipv4_from_ipv6(
    resolved: Option<SocketAddr>,
    local: Option<SocketAddr>,
    has_socks: bool,
)
    ensures
        free_step(resolved, local, has_socks) matches TcpAction::Connect { local: from } ==> !(
        resolved is Some && resolved->0 is V4 && from is Some && from->0 is V6),
{
}

/// Only Windows ties a connection to an interface.
pub proof fn lemma_interfaces_are_for_windows(request: TcpRequest, config: Config)
    ensures
        first_step(request, false, config) == free_step(
            request.resolved,
            request.local,
            config.has_socks,
        ),
        !takes_direct_route(request.target@, false, config),
{
}

/// nip.io is asked for IPv4 addresses only, from an IPv6 socket.
pub proof fn lemma_nip_io_is_asked_for_ipv4(
    resolved: Option<SocketAddr>,
    local: Option<SocketAddr>,
    has_socks: bool,
)
    ensures
        free_step(resolved, local, has_socks) matches TcpAction::AskNipIo { addr } ==> addr is V4
            && resolved == Some(addr) && local is Some && local->0 is V6,
{
}

/// The interfaces of a local end matter only where it has an IPv4 address: listing them for an IPv6
/// one would lead to the same step.
pub proof fn lemma_listing_is_for_ipv4(request: TcpRequest, config: Config)
    requires
        request.local is Some,
        request.local->0 is V6,
        !is_direct(request.target@, config.force_direct_server@),
    ensures
        first_step(request, true, config) == interface_step(request, None, config.has_socks),
{
}

} // verus!
