use masterdesk_net::address::{is_ipv4_str, is_ipv6_str, IpAddr, Ipv4Addr};
use masterdesk_net::config::{Config, NetworkType};
use masterdesk_net::direct_server::{
    interface_for_local_ip, interfaces, is_hyper_v_external_ethernet, is_target,
    is_usable_egress_interface, normalized_host, resolved_target, resolved_target_from_config,
    set_ipv4_unicast_interface, InterfaceStatus, NetworkInterface, IF_OPER_STATUS_UP,
    IF_TYPE_ETHERNET_CSMACD, IF_TYPE_TUNNEL,
};

fn config(force_direct_server: &str) -> Config {
    Config {
        force_direct_server: force_direct_server.to_owned(),
        network_type: NetworkType::Direct,
        has_socks: false,
    }
}

fn host(target: &str) -> Option<String> {
    normalized_host(target)
}

fn ip(a: u8, b: u8, c: u8, d: u8) -> Ipv4Addr {
    Ipv4Addr { a, b, c, d }
}

fn ethernet() -> InterfaceStatus {
    InterfaceStatus {
        oper_status: IF_OPER_STATUS_UP,
        if_type: IF_TYPE_ETHERNET_CSMACD,
        hardware: true,
        not_media_connected: false,
        end_point: false,
    }
}

fn card(index: u32, ipv4: Vec<Ipv4Addr>) -> NetworkInterface {
    NetworkInterface {
        index,
        name: format!("eth{index}"),
        friendly_name: None,
        description: None,
        ipv4,
        has_gateway: true,
        status: Some(ethernet()),
    }
}

#[test]
fn matches_only_the_compiled_direct_targets() {
    let config = config("desk.masteronline.space,176.123.167.146");

    assert!(is_target("desk.masteronline.space", &config));
    assert!(is_target("DESK.MASTERONLINE.SPACE:21116", &config));
    assert!(is_target("desk.masteronline.space.:21117", &config));
    assert!(is_target("176.123.167.146", &config));
    assert!(is_target("176.123.167.146:21116", &config));
    assert!(is_target("176.123.167.146:21117", &config));
    assert!(!is_target("176.123.167.147:21116", &config));
    assert!(!is_target("example.com:21116", &config));
}

#[test]
fn resolves_configured_hostnames_to_the_single_ipv4_alias() {
    let configured = "hbbs.masterdesk.online,hbbr.masterdesk.online,176.123.167.146";

    assert_eq!(
        resolved_target_from_config("hbbs.masterdesk.online:21116", configured),
        Some("176.123.167.146:21116".to_owned())
    );
    assert_eq!(
        resolved_target_from_config("hbbr.masterdesk.online:21117", configured),
        Some("176.123.167.146:21117".to_owned())
    );
    assert_eq!(
        resolved_target_from_config("example.com:21116", configured),
        None
    );
}

#[test]
fn leaves_dns_in_control_when_the_ipv4_alias_is_ambiguous() {
    let configured = "hbbs.masterdesk.online,176.123.167.146,176.123.167.147";

    assert_eq!(
        resolved_target_from_config("hbbs.masterdesk.online:21116", configured),
        None
    );
}

#[test]
fn recognizes_only_hyper_v_virtual_ethernet_as_external_fallback() {
    assert!(is_hyper_v_external_ethernet(Some(
        "Hyper-V Virtual Ethernet Adapter #2"
    )));
    assert!(!is_hyper_v_external_ethernet(Some("sing-tun Tunnel")));
    assert!(!is_hyper_v_external_ethernet(Some(
        "TAP-Windows Adapter V9"
    )));
}

#[test]
fn no_description_is_no_hyper_v_adapter() {
    assert!(!is_hyper_v_external_ethernet(None));
    assert!(!is_hyper_v_external_ethernet(Some("")));
    assert!(is_hyper_v_external_ethernet(Some(
        "hyper-v virtual ethernet adapter"
    )));
}

#[test]
fn an_alias_that_is_listed_twice_is_one_alias() {
    let configured = "desk.example, 10.0.0.7 ,10.0.0.7:99";
    assert_eq!(
        resolved_target_from_config("Desk.Example.", configured),
        Some("10.0.0.7".to_owned())
    );
    assert_eq!(
        resolved_target("desk.example:80", &config(configured)),
        Some("10.0.0.7:80".to_owned())
    );
    assert_eq!(
        resolved_target_from_config("desk.example", "desk.example"),
        None
    );
}

#[test]
fn a_configured_address_resolves_to_itself() {
    let configured = "desk.example,10.0.0.7";
    assert_eq!(
        resolved_target_from_config(" 10.0.0.7:80", configured),
        Some(" 10.0.0.7:80".to_owned())
    );
}

#[test]
fn a_target_with_space_behind_its_port_is_not_resolved() {
    let configured = "desk.example,10.0.0.7";
    assert_eq!(
        resolved_target_from_config("desk.example:80 ", configured),
        None
    );
    assert!(is_target("desk.example:80 ", &config(configured)));
}

#[test]
fn resolved_targets_stay_direct() {
    let config = config("desk.example,10.0.0.7");
    let resolved = resolved_target("desk.example:+80", &config).unwrap();
    assert_eq!(resolved, "10.0.0.7:+80");
    assert!(is_target(&resolved, &config));
    assert_eq!(resolved_target(&resolved, &config), Some(resolved));
}

#[test]
fn hosts_have_one_form() {
    assert_eq!(host("  Example.COM..:21116 "), Some("example.com".to_owned()));
    assert_eq!(host("10.1.2.3:80"), Some("10.1.2.3".to_owned()));
    assert_eq!(host("10.1.2.3"), Some("10.1.2.3".to_owned()));
    assert_eq!(host("10.1.2.3."), Some("10.1.2.3".to_owned()));
    assert_eq!(host("010.1.2.3"), Some("010.1.2.3".to_owned()));
    assert_eq!(host("a:b:80"), Some("a:b".to_owned()));
    assert_eq!(host("::1"), Some(":".to_owned()));
    assert_eq!(host("\u{3000}host\u{85}"), Some("host".to_owned()));
    assert_eq!(host("Ünder.example"), Some("Ünder.example".to_owned()));
}

#[test]
fn texts_without_a_host_have_no_form() {
    for target in [
        "",
        "   ",
        ".",
        ":80",
        "host:",
        "host:65536",
        "host:-1",
        "two words",
        "[::1]:80",
        "[fe80::1%3]:80",
        "1:2:3:4:5:6:7:8:80",
        "::ffff:1.2.3.4",
    ] {
        assert_eq!(host(target), None, "{target}");
    }
}

#[test]
fn the_case_of_letters_and_the_port_do_not_matter() {
    for target in ["Desk.Example", "10.0.0.1", "x"] {
        let plain = host(target);
        assert_eq!(host(&target.to_ascii_lowercase()), plain);
        assert_eq!(host(&format!("{target}:21116")), plain);
        assert_eq!(host(&format!("{target}.")), plain);
        assert_eq!(host(&plain.clone().unwrap()), plain);
    }
}

#[test]
fn only_usable_interfaces_are_direct() {
    assert!(is_usable_egress_interface(Some(ethernet()), None));
    assert!(!is_usable_egress_interface(None, None));
    for status in [
        InterfaceStatus { oper_status: 2, ..ethernet() },
        InterfaceStatus { if_type: IF_TYPE_TUNNEL, ..ethernet() },
        InterfaceStatus { not_media_connected: true, ..ethernet() },
        InterfaceStatus { end_point: true, ..ethernet() },
        InterfaceStatus { hardware: false, ..ethernet() },
    ] {
        assert!(!is_usable_egress_interface(Some(status), None));
    }
    let virtual_switch = InterfaceStatus { hardware: false, ..ethernet() };
    let description = Some("Hyper-V Virtual Ethernet Adapter");
    assert!(is_usable_egress_interface(Some(virtual_switch), description));
    let not_ethernet = InterfaceStatus { if_type: 71, ..virtual_switch };
    assert!(!is_usable_egress_interface(Some(not_ethernet), description));
}

#[test]
fn interfaces_keep_their_order_and_first_routable_address() {
    let mut no_gateway = card(1, vec![ip(10, 0, 0, 1)]);
    no_gateway.has_gateway = false;
    let mut named = card(3, vec![ip(0, 0, 0, 0), ip(127, 0, 0, 1), ip(169, 254, 1, 1), ip(10, 0, 0, 3)]);
    named.friendly_name = Some("Ethernet".to_owned());
    let mut unnamed = card(4, vec![ip(10, 0, 0, 4)]);
    unnamed.friendly_name = Some(String::new());
    let found = vec![no_gateway, card(2, vec![ip(127, 0, 0, 1)]), named, unnamed];

    let direct = interfaces(&found);
    assert_eq!(direct.len(), 2);
    assert_eq!((direct[0].index, direct[0].local_ip), (3, ip(10, 0, 0, 3)));
    assert_eq!(direct[0].name, "Ethernet");
    assert_eq!((direct[1].index, direct[1].local_ip), (4, ip(10, 0, 0, 4)));
    assert_eq!(direct[1].name, "eth4");

    let chosen = interface_for_local_ip(IpAddr::V4(ip(10, 0, 0, 4)), &found).unwrap();
    assert_eq!(chosen.index, 4);
    assert!(interface_for_local_ip(IpAddr::V4(ip(10, 0, 0, 1)), &found).is_none());
    assert!(interface_for_local_ip(IpAddr::V6(1), &found).is_none());
}

#[test]
fn the_interface_index_is_passed_in_network_order() {
    let option = set_ipv4_unicast_interface(0x0102_0304);
    assert_eq!(option.name, 31);
    assert_eq!(option.value, [1, 2, 3, 4]);
}

#[test]
fn addresses_are_told_by_their_look() {
    for text in ["1.2.3.4", "001.02.3.255", "1.2.3.4:0"] {
        assert!(is_ipv4_str(text), "{text}");
    }
    for text in ["1.2.3", "1.2.3.256", "1.2.3.4:", "1.2.3.4:x", "a.b.c.d", "1.2.3.4.5"] {
        assert!(!is_ipv4_str(text), "{text}");
    }
    for text in ["1:2", "1::2", "fe80::1:2", "[1:2]:12", "ABCD:ef"] {
        assert!(is_ipv6_str(text), "{text}");
    }
    for text in ["::1", "1:", "1:::2", "12345:1", "[1:2]", "[1:2]:", "[12]:3", "1", "z1:2"] {
        assert!(!is_ipv6_str(text), "{text}");
    }
}

#[test]
fn addresses_are_written_in_dotted_decimal_form() {
    assert_eq!(ip(10, 0, 255, 7).text(), "10.0.255.7");
}
