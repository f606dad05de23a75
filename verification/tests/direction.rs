use sniffnet_agent::addr::{IpAddr, Ipv4Addr, Ipv6Addr};
use sniffnet_agent::device::{find_interface, interface_addresses, Interface, LinkType};
use sniffnet_agent::direction::{get_direction, FlowDirection};

fn v4(a: u8, b: u8, c: u8, d: u8) -> IpAddr {
    IpAddr::V4(Ipv4Addr::new(a, b, c, d))
}

fn localhost() -> IpAddr {
    v4(127, 0, 0, 1)
}

#[test]
fn ipv4_matches_sniffnet_reference() {
    let my = vec![v4(172, 20, 10, 9)];

    assert_eq!(
        get_direction(
            &v4(172, 20, 10, 9),
            &v4(99, 88, 77, 0),
            Some(99),
            Some(99),
            &my
        ),
        Some(FlowDirection::Outgoing),
    );
    assert_eq!(
        get_direction(
            &v4(172, 20, 10, 10),
            &v4(172, 20, 10, 9),
            Some(99),
            Some(99),
            &my
        ),
        Some(FlowDirection::Incoming),
    );
    assert_eq!(
        get_direction(
            &v4(172, 20, 10, 9),
            &IpAddr::V4(Ipv4Addr::unspecified()),
            Some(99),
            Some(99),
            &my,
        ),
        Some(FlowDirection::Outgoing),
    );
    assert_eq!(
        get_direction(
            &IpAddr::V4(Ipv4Addr::unspecified()),
            &v4(172, 20, 10, 9),
            Some(99),
            Some(99),
            &my,
        ),
        Some(FlowDirection::Incoming),
    );
    assert_eq!(
        get_direction(
            &IpAddr::V4(Ipv4Addr::unspecified()),
            &v4(172, 20, 10, 10),
            Some(99),
            Some(99),
            &my,
        ),
        Some(FlowDirection::Outgoing),
    );
}

#[test]
fn loopback_uses_port_ordering_without_interface_addresses() {
    let lo = localhost();
    assert_eq!(
        get_direction(&lo, &lo, Some(40000), Some(443), &[]),
        Some(FlowDirection::Outgoing),
    );
    assert_eq!(
        get_direction(&lo, &lo, Some(443), Some(40000), &[]),
        Some(FlowDirection::Incoming),
    );
}

#[test]
fn loopback_without_ports_falls_through() {
    // A flow without ports on loopback and no interface addresses: no guess.
    let lo = localhost();
    assert_eq!(get_direction(&lo, &lo, None, None, &[]), None);
}

#[test]
fn none_when_interface_addresses_unknown() {
    assert_eq!(
        get_direction(&v4(10, 0, 0, 1), &v4(8, 8, 8, 8), Some(1234), Some(53), &[]),
        None,
    );
}

#[test]
fn equal_loopback_ports_count_as_incoming() {
    let lo = localhost();
    assert_eq!(
        get_direction(&lo, &lo, Some(80), Some(80), &[]),
        Some(FlowDirection::Incoming),
    );
}

#[test]
fn ipv6_loopback_and_unspecified() {
    let lo = IpAddr::V6(Ipv6Addr::new(0, 0, 0, 0, 0, 0, 0, 1));
    let any = IpAddr::V6(Ipv6Addr::unspecified());
    let me = IpAddr::V6(Ipv6Addr::new(0xfe80, 0, 0, 0, 0, 0, 0, 9));
    let all_routers = IpAddr::V6(Ipv6Addr::new(0xff02, 0, 0, 0, 0, 0, 0, 2));
    assert!(lo.is_loopback());
    assert!(!any.is_loopback());
    assert!(any.is_unspecified());
    assert_eq!(
        get_direction(&lo, &lo, Some(2), Some(1), &[]),
        Some(FlowDirection::Outgoing),
    );
    assert_eq!(
        get_direction(&any, &all_routers, None, None, &[me]),
        Some(FlowDirection::Outgoing),
    );
    assert_eq!(
        get_direction(&any, &me, None, None, &[me]),
        Some(FlowDirection::Incoming),
    );
}

#[test]
fn reversing_a_conversation_reverses_its_direction() {
    let me = v4(192, 168, 1, 10);
    let peer = v4(8, 8, 8, 8);
    let own = [v4(10, 1, 1, 1), me];
    let there = get_direction(&me, &peer, Some(1), Some(2), &own);
    let back = get_direction(&peer, &me, Some(2), Some(1), &own);
    assert_eq!(there, Some(FlowDirection::Outgoing));
    assert_eq!(back, Some(FlowDirection::Incoming));
    // The order and the number of the own addresses do not matter.
    let shuffled = [me, me, v4(10, 1, 1, 1)];
    assert_eq!(get_direction(&me, &peer, Some(1), Some(2), &shuffled), there);
    assert_eq!(get_direction(&peer, &me, Some(2), Some(1), &shuffled), back);
    // Nor do ports, or own addresses that are not an end of the flow.
    assert_eq!(get_direction(&me, &peer, None, Some(9), &[me]), there);
    assert_eq!(get_direction(&peer, &me, Some(1), None, &[me]), back);
}

#[test]
fn octets_are_in_network_order() {
    assert_eq!(Ipv4Addr::new(192, 168, 1, 5).octets(), [192, 168, 1, 5]);
    let a = Ipv6Addr::new(0x2001, 0xdb8, 0, 0, 0, 0, 0xabcd, 1);
    assert_eq!(
        a.octets(),
        [0x20, 0x01, 0x0d, 0xb8, 0, 0, 0, 0, 0, 0, 0, 0, 0xab, 0xcd, 0, 1]
    );
}

fn interfaces() -> Vec<Interface> {
    vec![
        Interface {
            name: "lo".to_string(),
            desc: None,
            addresses: vec![localhost()],
        },
        Interface {
            name: "eth0".to_string(),
            desc: Some("wired".to_string()),
            addresses: vec![v4(10, 0, 0, 1), v4(10, 0, 0, 2)],
        },
        Interface {
            name: "eth0".to_string(),
            desc: None,
            addresses: vec![v4(10, 9, 9, 9)],
        },
    ]
}

#[test]
fn interface_addresses_are_those_of_the_first_of_that_name() {
    let devices = interfaces();
    assert_eq!(find_interface(&devices, &"eth0".to_string()), Some(1));
    assert_eq!(find_interface(&devices, &"wlan0".to_string()), None);
    let listed: Result<Vec<Interface>, String> = Ok(devices);
    assert_eq!(
        interface_addresses(&listed, &"eth0".to_string(), LinkType::Ethernet),
        vec![v4(10, 0, 0, 1), v4(10, 0, 0, 2)]
    );
    assert!(interface_addresses(&listed, &"wlan0".to_string(), LinkType::Null).is_empty());
}

#[test]
fn cooked_capture_owns_every_address() {
    let listed: Result<Vec<Interface>, String> = Ok(interfaces());
    for link_type in [LinkType::LinuxSll, LinkType::LinuxSll2] {
        assert_eq!(
            interface_addresses(&listed, &"any".to_string(), link_type),
            vec![
                localhost(),
                v4(10, 0, 0, 1),
                v4(10, 0, 0, 2),
                v4(10, 9, 9, 9)
            ]
        );
    }
}

#[test]
fn link_types_by_number() {
    for (datalink, link_type) in [
        (0, LinkType::Null),
        (1, LinkType::Ethernet),
        (12, LinkType::RawIp),
        (108, LinkType::Loop),
        (228, LinkType::IPv4),
        (229, LinkType::IPv6),
        (113, LinkType::LinuxSll),
        (276, LinkType::LinuxSll2),
    ] {
        assert_eq!(LinkType::from_pcap(datalink), link_type);
        assert!(link_type.is_supported());
    }
    assert_eq!(LinkType::from_pcap(0x7fff), LinkType::Unsupported);
    assert_eq!(LinkType::from_pcap(-1), LinkType::Unsupported);
    assert!(!LinkType::Unsupported.is_supported());
}

#[test]
fn a_failed_listing_gives_no_addresses() {
    let failed: Result<Vec<Interface>, String> = Err("denied".to_string());
    for link_type in [LinkType::Ethernet, LinkType::LinuxSll] {
        assert!(interface_addresses(&failed, &"eth0".to_string(), link_type).is_empty());
    }
}
