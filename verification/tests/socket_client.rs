use masterdesk_net::address::{Ipv4Addr, SocketAddr};
use masterdesk_net::config::{Config, NetworkType};
use masterdesk_net::direct_server::{InterfaceStatus, NetworkInterface};
use masterdesk_net::route_error::RouteError;
use masterdesk_net::socket_client::{
    check_port, connect_tcp, connect_tcp_answered, connect_tcp_direct_server, connect_tcp_listed,
    connect_tcp_local, direct_interfaces, direct_udp_name, direct_udp_peer, direct_udp_route,
    increase_port, ipv4_to_ipv6, is_ipv4, new_direct_udp_for, new_udp, new_udp_for, nip_io_name,
    nip_io_name_of, proxy_target_addr, query_nip_io, rebind_udp_for, split_host_port, test_if_valid_server,
    test_if_valid_server_for_proxy_, test_target, udp_for_address, udp_for_proxy, udp_on_route, DirectStep,
    IsResolvedSocketAddr, ServerTest, StreamRoute, TargetAddr, TcpAction, TcpRequest, UdpAction,
    UdpSender,
};

fn config() -> Config {
    Config {
        force_direct_server: "desk.example,10.9.9.9".to_owned(),
        network_type: NetworkType::Direct,
        has_socks: false,
    }
}

fn proxied() -> Config {
    Config { network_type: NetworkType::ProxySocks, has_socks: true, ..config() }
}

fn ip(d: u8) -> Ipv4Addr {
    Ipv4Addr { a: 10, b: 0, c: 0, d }
}

fn v4(d: u8, port: u16) -> SocketAddr {
    SocketAddr::V4 { ip: ip(d), port }
}

fn v6(bits: u128, port: u16) -> SocketAddr {
    SocketAddr::V6 { bits, port, flowinfo: 0, scope_id: 0 }
}

fn card(index: u32) -> NetworkInterface {
    NetworkInterface {
        index,
        name: format!("eth{index}"),
        friendly_name: None,
        description: None,
        ipv4: vec![ip(index as u8)],
        has_gateway: true,
        status: Some(InterfaceStatus {
            oper_status: 1,
            if_type: 6,
            hardware: true,
            not_media_connected: false,
            end_point: false,
        }),
    }
}

fn request(target: &str, resolved: Option<SocketAddr>, local: Option<SocketAddr>) -> TcpRequest {
    TcpRequest { target: target.to_owned(), resolved, local }
}

fn looked_up(host: &str) -> String {
    match test_if_valid_server(host, false, &proxied()) {
        ServerTest::LookUp(name) => name,
        ServerTest::Done(_) => panic!("{host} is not looked up"),
    }
}

fn tested(host: &str) -> String {
    match test_if_valid_server(host, false, &proxied()) {
        ServerTest::LookUp(_) => panic!("{host} is looked up"),
        ServerTest::Done(error) => error,
    }
}

#[test]
fn test_nat64() {
    assert_eq!(ipv4_to_ipv6("1.1.1.1".to_owned(), true), "1.1.1.1");
    assert_eq!(ipv4_to_ipv6("1.1.1.1".to_owned(), false), "1.1.1.1.nip.io");
    assert_eq!(
        ipv4_to_ipv6("1.1.1.1:8080".to_owned(), false),
        "1.1.1.1.nip.io:8080"
    );
    assert_eq!(
        ipv4_to_ipv6("rustdesk.com".to_owned(), false),
        "rustdesk.com"
    );
    let name = ipv4_to_ipv6("1.1.1.1:8080".to_owned(), false);
    assert_eq!(ipv4_to_ipv6(name.clone(), false), name);
    // What nip.io answers for "1.1.1.1:80" is looked up by the caller.
    assert_eq!(nip_io_name("1.1.1.1", 80), "1.1.1.1.nip.io:80");
    assert_eq!(
        query_nip_io(&vec![v4(1, 80), v6(7, 80)]).unwrap(),
        v6(7, 80)
    );
    assert!(query_nip_io(&vec![v4(1, 80)]).is_err());
}

#[test]
fn test_test_if_valid_server() {
    // Without a proxy the server is valid if the name with its port can be looked up. Names are
    // looked up by the caller, addresses need no lookup.
    assert_eq!(looked_up("a"), "a:0");
    assert!(tested("1.1.1.1").is_empty());
    assert!(tested("1.1.1.1:1").is_empty());
    assert_eq!(looked_up("microsoft.com"), "microsoft.com:0");
    assert_eq!(looked_up("microsoft.com:1"), "microsoft.com:1");

    // with proxy
    // `:0` indicates `let host = check_port(host, 0);` is called.
    assert!(test_if_valid_server_for_proxy_("a:0").is_empty());
    assert!(test_if_valid_server_for_proxy_("1.1.1.1:0").is_empty());
    assert!(test_if_valid_server_for_proxy_("1.1.1.1:1").is_empty());
    assert!(test_if_valid_server_for_proxy_("abc.com:0").is_empty());
    assert!(test_if_valid_server_for_proxy_("abcd.com:1").is_empty());
}

#[test]
fn test_check_port() {
    assert_eq!(check_port("[1:2]:12", 32), "[1:2]:12");
    assert_eq!(check_port("1:2", 32), "[1:2]:32");
    assert_eq!(check_port("z1:2", 32), "z1:2");
    assert_eq!(check_port("1.1.1.1", 32), "1.1.1.1:32");
    assert_eq!(check_port("1.1.1.1:32", 32), "1.1.1.1:32");
    assert_eq!(check_port("test.com:32", 0), "test.com:32");
    assert_eq!(increase_port("[1:2]:12", 1), "[1:2]:13");
    assert_eq!(increase_port("1.2.2.4:12", 1), "1.2.2.4:13");
    assert_eq!(increase_port("1.2.2.4", 1), "1.2.2.4");
    assert_eq!(increase_port("test.com", 1), "test.com");
    assert_eq!(increase_port("test.com:13", 4), "test.com:17");
    assert_eq!(increase_port("1:13", 4), "1:13");
    assert_eq!(increase_port("22:1:13", 4), "22:1:13");
    assert_eq!(increase_port("z1:2", 1), "z1:3");
}

#[test]
fn ports_can_be_zero_or_negative_in_texts() {
    assert_eq!(check_port("host", -5), "host:-5");
    assert_eq!(check_port("host", i32::MIN), "host:-2147483648");
    assert_eq!(increase_port("host:5", -7), "host:-2");
    assert_eq!(increase_port("host:0", 3), "host:0");
    assert_eq!(increase_port("host:-4", 3), "host:-4");
    assert_eq!(increase_port("host:+08", 1), "host:9");
    assert_eq!(increase_port("host:2147483648", 1), "host:2147483648");
    assert_eq!(increase_port("", 1), "");
}

#[test]
fn ports_are_read_back() {
    assert_eq!(split_host_port("host:80"), Some(("host".to_owned(), 80)));
    assert_eq!(split_host_port("[1::2]:80"), Some(("[1::2]".to_owned(), 80)));
    assert_eq!(split_host_port(&check_port("1::2", 9)), Some(("[1::2]".to_owned(), 9)));
    assert_eq!(split_host_port(&check_port("host", 9)), Some(("host".to_owned(), 9)));
    for host in ["host", "host:0", "host:x", "1:2", "a:b:c", "[1:2]:0", ""] {
        assert_eq!(split_host_port(host), None, "{host}");
    }
}

#[test]
fn ports_that_were_added_stay_and_add_up() {
    let checked = check_port("1::2", 9);
    assert_eq!(check_port(&checked, 10), checked);
    let checked = check_port("host", 9);
    assert_eq!(check_port(&checked, 10), checked);
    // A host of hexadecimal digits looks like an IPv6 address once it has a port.
    assert_eq!(check_port(&check_port("abcd", 80), 81), "[abcd:80]:81");
    assert_eq!(
        increase_port(&increase_port("host:5", 3), 4),
        increase_port("host:5", 7)
    );
    assert_eq!(increase_port(&increase_port("[1:2]:5", 3), 4), "[1:2]:12");
}

#[test]
fn addresses_for_a_proxy_are_tested_for_their_form() {
    let format = "Target address is invalid: invalid address format";
    let overlong = "Target address is invalid: overlong domain";
    assert_eq!(test_if_valid_server_for_proxy_("host"), format);
    assert_eq!(test_if_valid_server_for_proxy_("80"), format);
    assert_eq!(test_if_valid_server_for_proxy_("host:65536"), format);
    assert_eq!(test_if_valid_server_for_proxy_("[::1]:80"), "");
    assert_eq!(test_if_valid_server_for_proxy_("[fe80::1%2]:080"), "");
    assert_eq!(test_if_valid_server_for_proxy_(":80"), "");
    let name = "a".repeat(255);
    assert_eq!(test_if_valid_server_for_proxy_(&format!("{name}:80")), "");
    assert_eq!(test_if_valid_server_for_proxy_(&format!("{name}a:80")), overlong);
    let accents = "é".repeat(128);
    assert_eq!(test_if_valid_server_for_proxy_(&format!("{accents}:80")), overlong);

    match test_if_valid_server("host", true, &proxied()) {
        ServerTest::Done(error) => assert_eq!(error, ""),
        ServerTest::LookUp(_) => panic!("the proxy looks names up"),
    }
    match test_if_valid_server("a:b:c", true, &proxied()) {
        ServerTest::Done(error) => assert_eq!(error, ""),
        ServerTest::LookUp(_) => panic!("the proxy looks names up"),
    }
    match test_if_valid_server("host:x", true, &proxied()) {
        ServerTest::Done(error) => assert_eq!(error, format),
        ServerTest::LookUp(_) => panic!("the proxy looks names up"),
    }
    assert!(matches!(
        test_if_valid_server("host", true, &config()),
        ServerTest::LookUp(_)
    ));
}

#[test]
fn only_addresses_are_resolved() {
    let addr = v4(1, 2);
    assert_eq!(addr.resolve(), Some(&addr));
    assert_eq!("10.0.0.1:2".resolve(), None);
    assert_eq!("10.0.0.1:2".to_owned().resolve(), None);
}

#[test]
fn streams_are_chosen_by_endpoint() {
    assert!(matches!(
        connect_tcp("t", true, "ws://t", true),
        StreamRoute::WebRtc(endpoint) if endpoint == "t"
    ));
    assert!(matches!(
        connect_tcp("t", false, "ws://t", true),
        StreamRoute::WebSocket(endpoint) if endpoint == "ws://t"
    ));
    assert!(matches!(connect_tcp("t", false, "t", false), StreamRoute::Tcp));
}

#[test]
fn direct_servers_come_before_everything_else() {
    let direct = request("desk.example:80", None, Some(v4(1, 0)));
    assert_eq!(connect_tcp_local(&direct, true, &proxied()), TcpAction::DirectServer);
    assert_eq!(
        connect_tcp_local(&direct, false, &proxied()),
        TcpAction::Socks { local: Some(v4(1, 0)) }
    );
}

#[test]
fn a_local_end_keeps_its_interface() {
    let found = vec![card(1), card(2)];
    let from_two = request("other:80", None, Some(v4(2, 5)));
    assert_eq!(connect_tcp_local(&from_two, true, &config()), TcpAction::ListInterfaces);
    assert_eq!(
        connect_tcp_listed(&from_two, &found, &config()),
        TcpAction::OnInterface { from: v4(2, 5), index: 2 }
    );
    let from_three = request("other:80", None, Some(v4(3, 5)));
    assert_eq!(
        connect_tcp_listed(&from_three, &found, &config()),
        TcpAction::Connect { local: Some(v4(3, 5)) }
    );
    let from_six = request("other:80", None, Some(v6(3, 5)));
    assert_eq!(
        connect_tcp_local(&from_six, true, &config()),
        TcpAction::Connect { local: Some(v6(3, 5)) }
    );
    assert_eq!(
        connect_tcp_listed(&from_six, &found, &proxied()),
        TcpAction::Socks { local: Some(v6(3, 5)) }
    );
}

#[test]
fn ipv4_addresses_are_asked_for_from_ipv6_sockets() {
    let mixed = request("10.0.0.1:80", Some(v4(1, 80)), Some(v6(9, 0)));
    assert_eq!(
        connect_tcp_local(&mixed, false, &config()),
        TcpAction::AskNipIo { addr: v4(1, 80) }
    );
    assert_eq!(
        connect_tcp_answered(&mixed, &vec![v4(1, 80), v6(8, 80)]).unwrap(),
        TcpAction::ConnectTo { addr: v6(8, 80), local: Some(v6(9, 0)) }
    );
    let error = connect_tcp_answered(&mixed, &vec![]).unwrap_err();
    assert_eq!(error.message(), "Failed to get ipv6 from nip.io");
    for other in [
        request("t", None, Some(v6(9, 0))),
        request("t", Some(v6(1, 80)), Some(v6(9, 0))),
        request("t", Some(v4(1, 80)), Some(v4(9, 0))),
        request("t", Some(v4(1, 80)), None),
    ] {
        assert_eq!(
            connect_tcp_local(&other, false, &config()),
            TcpAction::Connect { local: other.local }
        );
    }
}

#[test]
fn a_direct_server_is_tried_on_every_interface() {
    let found = vec![card(1), card(2)];
    let mut connect = connect_tcp_direct_server("desk.example:80", &config(), &found).unwrap();
    let attempt = connect.attempt(1);
    assert_eq!(attempt.target, "10.9.9.9:80");
    assert_eq!(attempt.local, v4(2, 0));
    assert_eq!(attempt.index, 2);
    assert!(matches!(connect.finished(1, Some("timeout")), DirectStep::Wait));
    match connect.finished(0, Some("refused")) {
        DirectStep::Failed(error) => assert_eq!(
            error.message(),
            "Direct-server bypass failed to connect to desk.example:80: eth2 (index 2): timeout; eth1 (index 1): refused"
        ),
        _ => panic!("no attempt is left"),
    }

    let mut connect = connect_tcp_direct_server("desk.example:80", &config(), &found).unwrap();
    assert!(matches!(connect.finished(0, Some("refused")), DirectStep::Wait));
    assert!(matches!(connect.finished(0, None), DirectStep::Connected));
}

#[test]
fn without_a_direct_interface_there_is_no_route() {
    let text = "Direct-server bypass found no connected physical or external Hyper-V IPv4 interface with a gateway";
    assert_eq!(direct_interfaces(&vec![]).unwrap_err().message(), text);
    let connect = connect_tcp_direct_server("desk.example", &config(), &vec![]);
    assert!(matches!(connect, Err(RouteError::NoInterface)));
    assert!(matches!(
        direct_udp_route(v4(1, 1), &vec![]),
        Err(RouteError::NoInterface)
    ));
    assert_eq!(direct_interfaces(&vec![card(7)]).unwrap()[0].index, 7);
}

#[test]
fn datagrams_to_a_direct_server_take_its_route() {
    assert_eq!(
        direct_udp_name("desk.example:80", &config()),
        Some("10.9.9.9:80".to_owned())
    );
    assert_eq!(direct_udp_name("other:80", &config()), None);
    let peer = direct_udp_peer("desk.example:80", &vec![v6(1, 1), v4(9, 80), v4(8, 80)]).unwrap();
    assert_eq!(peer, v4(9, 80));
    assert_eq!(
        direct_udp_peer("desk.example:80", &vec![v6(1, 1)]).unwrap_err().message(),
        "Direct-server bypass failed to resolve an IPv4 address for desk.example:80"
    );
    let route = direct_udp_route(peer, &vec![card(3), card(4)]).unwrap();
    let socket = udp_on_route(&route);
    assert_eq!(socket.local, v4(3, 0));
    assert_eq!(socket.index, 3);
    assert_eq!(socket.peer, v4(9, 80));
}

#[test]
fn sockets_for_datagrams_depend_on_the_network() {
    let direct = "desk.example:80";
    for action in [
        new_direct_udp_for(direct, true, &proxied()),
        new_udp_for(direct, true, &proxied()).unwrap(),
        rebind_udp_for(direct, true, &proxied()),
    ] {
        assert!(matches!(action, UdpAction::DirectRoute { name } if name == "10.9.9.9:80"));
    }
    for action in [
        new_direct_udp_for(direct, false, &proxied()),
        new_udp_for(direct, false, &config()).unwrap(),
        rebind_udp_for(direct, false, &config()),
        new_direct_udp_for("other:1", true, &config()),
    ] {
        assert!(matches!(action, UdpAction::TestTarget));
    }
    assert!(matches!(rebind_udp_for("other:1", true, &proxied()), UdpAction::Keep));
    assert!(matches!(
        new_udp_for("other:1", true, &proxied()).unwrap(),
        UdpAction::HandOn { target: TargetAddr::Domain(name, 1) } if name == "other"
    ));
    assert!(matches!(
        new_udp_for("10.0.0.7:1", true, &proxied()).unwrap(),
        UdpAction::HandOn { target: TargetAddr::Ip(addr) } if addr == v4(7, 1)
    ));
    match new_udp_for("other", true, &proxied()) {
        Err(error) => assert_eq!(
            error.message(),
            "Target address is invalid: invalid address format"
        ),
        Ok(_) => panic!("the target has no port"),
    }
    let handed_on = udp_for_proxy(TargetAddr::Ip(v6(1, 1)));
    assert!(handed_on.ipv4);
    assert!(matches!(handed_on.target, TargetAddr::Ip(addr) if addr == v6(1, 1)));
    assert_eq!(new_udp(&config()), UdpSender::Socket);
    assert_eq!(new_udp(&proxied()), UdpSender::Socks);
    assert!(udp_for_address(v4(1, 1)).ipv4);
    assert!(!udp_for_address(v6(1, 1)).ipv4);
}

#[test]
fn targets_are_tested_by_connecting_and_then_by_name() {
    let found = vec![v6(5, 1), v4(5, 1)];
    assert_eq!(
        test_target("t", Some(v4(1, 1)), Some(&found)).unwrap().unwrap(),
        v4(1, 1)
    );
    assert!(test_target("t", None, None).is_none());
    assert_eq!(test_target("t", None, Some(&found)).unwrap().unwrap(), v6(5, 1));
    assert_eq!(
        test_target("t", None, Some(&vec![])).unwrap().unwrap_err().message(),
        "Failed to look up host for t"
    );
}

#[test]
fn texts_for_a_proxy_are_read_into_their_parts() {
    let address = |text: &str| match proxy_target_addr(text) {
        Ok(TargetAddr::Ip(addr)) => addr,
        other => panic!("{text} gives {other:?}"),
    };
    assert_eq!(address("10.0.0.9:65535"), v4(9, 65535));
    assert_eq!(address("10.0.0.9:00080"), v4(9, 80));
    assert_eq!(address("[::]:0"), v6(0, 0));
    assert_eq!(address("[::1]:80"), v6(1, 80));
    assert_eq!(
        address("[2001:DB8::8:800:200c:417A]:443"),
        v6(0x2001_0db8_0000_0000_0008_0800_200c_417a, 443)
    );
    assert_eq!(
        address("[1:2:3:4:5:6:7:8]:9"),
        v6(0x0001_0002_0003_0004_0005_0006_0007_0008, 9)
    );
    assert_eq!(address("[1::]:9"), v6(1 << 112, 9));
    assert_eq!(
        address("[::ffff:10.1.2.3]:9"),
        v6(0xffff_0a01_0203, 9)
    );
    assert_eq!(
        address("[1:2:3:4:5:6:10.1.2.255]:9"),
        v6(0x0001_0002_0003_0004_0005_0006_0a01_02ff, 9)
    );
    assert_eq!(
        address("[ffff:ffff:ffff:ffff:ffff:ffff:ffff:ffff]:9"),
        v6(u128::MAX, 9)
    );
    assert_eq!(
        address("[fe80::1%7]:9"),
        SocketAddr::V6 { bits: (0xfe80 << 112) + 1, port: 9, flowinfo: 0, scope_id: 7 }
    );
    let name = |text: &str| match proxy_target_addr(text) {
        Ok(TargetAddr::Domain(name, port)) => (name, port),
        other => panic!("{text} gives {other:?}"),
    };
    assert_eq!(name("host:+80"), ("host".to_owned(), 80));
    assert_eq!(name("10.0.0.01:80"), ("10.0.0.01".to_owned(), 80));
    assert_eq!(name("::1:80"), ("::1".to_owned(), 80));
    assert_eq!(name("[::1%x]:80"), ("[::1%x]".to_owned(), 80));
    assert_eq!(name(":80"), ("".to_owned(), 80));
    assert_eq!(
        proxy_target_addr("host").unwrap_err(),
        "Target address is invalid: invalid address format"
    );
}

#[test]
fn nip_io_is_asked_for_ipv4_addresses() {
    assert_eq!(nip_io_name_of(v4(1, 80)), Some("10.0.0.1.nip.io:80".to_owned()));
    assert_eq!(nip_io_name_of(v6(1, 80)), None);
    assert_eq!(
        ipv4_to_ipv6("10.0.0.1:80".to_owned(), false),
        nip_io_name_of(v4(1, 80)).unwrap()
    );
}

#[test]
fn names_are_taken_for_ipv4() {
    assert!(is_ipv4(&TargetAddr::Domain("host".to_owned(), 1)));
    assert!(is_ipv4(&TargetAddr::Ip(v4(1, 1))));
    assert!(!is_ipv4(&TargetAddr::Ip(v6(1, 1))));
}
