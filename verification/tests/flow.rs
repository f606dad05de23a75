use std::collections::HashMap;

use sniffnet_agent::addr::{IpAddr, Ipv4Addr, Ipv6Addr, SocketAddr};
use sniffnet_agent::agent::select_flows;
use sniffnet_agent::capture::{
    decode_bytes, decode_packet, packet_time_ms, CaptureEvent, CaptureState, ParsedPacket, TimeOverflow,
};
use sniffnet_agent::direction::FlowDirection;
use sniffnet_agent::flow::{FlowAddrs, FlowKey, FlowTable, FlowVal};
use sniffnet_agent::protocol::Protocol;

fn key(a: u8, b: u8) -> FlowKey {
    FlowKey {
        addrs: FlowAddrs::V4 {
            src: Ipv4Addr::new(10, 0, 0, a),
            dst: Ipv4Addr::new(10, 0, 0, b),
        },
        src_port: Some(1000 + u16::from(a)),
        dst_port: Some(443),
        protocol: 6,
    }
}

fn blank() -> FlowVal {
    FlowVal {
        bytes: 0,
        packets: 0,
        src_mac: None,
        dst_mac: None,
        direction: None,
        first_seen_ms: 0,
        last_seen_ms: 0,
    }
}

#[test]
fn record_accumulates_bytes_and_packets() {
    let mut table = FlowTable::new();
    let k = key(1, 2);
    table.record(k, 100, Some([1; 6]), Some([2; 6]), 1_000);
    table.record(k, 50, None, None, 2_500);

    let flows = table.drain();
    assert_eq!(flows.len(), 1);
    let state = flows.get(&k).unwrap();
    assert_eq!(state.bytes, 150);
    assert_eq!(state.packets, 2);
    assert_eq!(state.src_mac, Some([1; 6]));
    assert_eq!(state.dst_mac, Some([2; 6]));
    assert_eq!(state.first_seen_ms, 1_000);
    assert_eq!(state.last_seen_ms, 2_500);
}

#[test]
fn drain_empties_the_table() {
    let mut table = FlowTable::new();
    let k = key(1, 2);
    table.record(k, 100, None, None, 0);

    let first = table.drain();
    assert_eq!(first.len(), 1);
    assert_eq!(table.len(), 0, "drain must clear the table");

    let second = table.drain();
    assert!(second.is_empty());
}

#[test]
fn record_after_drain_creates_fresh_entry() {
    let mut table = FlowTable::new();
    table.record(key(1, 2), 100, None, None, 0);
    table.record(key(3, 4), 200, None, None, 0);
    let _ = table.drain();
    table.record(key(3, 4), 50, None, None, 0);

    let flows = table.drain();
    assert_eq!(flows.len(), 1);
    let v = flows.get(&key(3, 4)).unwrap();
    assert_eq!(v.bytes, 50);
}

#[test]
fn record_does_not_clobber_existing_mac() {
    let mut table = FlowTable::new();
    let k = key(1, 2);
    table.record(k, 100, Some([0xaa; 6]), Some([0xbb; 6]), 0);
    table.record(k, 100, Some([0xcc; 6]), Some([0xdd; 6]), 0);
    let flows = table.drain();
    assert_eq!(flows.get(&k).unwrap().src_mac, Some([0xaa; 6]));
    assert_eq!(flows.get(&k).unwrap().dst_mac, Some([0xbb; 6]));
}

#[test]
fn record_first_and_last_track_min_max() {
    let mut table = FlowTable::new();
    let k = key(1, 2);
    table.record(k, 1, None, None, 5_000);
    table.record(k, 1, None, None, 3_000); // out-of-order earlier packet
    table.record(k, 1, None, None, 7_000);
    let flows = table.drain();
    assert_eq!(flows.get(&k).unwrap().first_seen_ms, 3_000);
    assert_eq!(flows.get(&k).unwrap().last_seen_ms, 7_000);
}

#[test]
fn is_self_export_only_matches_udp_to_collector() {
    let collector_v4 = Ipv4Addr::new(127, 0, 0, 1);
    let collector_port = 4739;
    let collector = SocketAddr::new(IpAddr::V4(collector_v4), collector_port);

    // UDP to collector: matches
    let self_export = FlowKey {
        addrs: FlowAddrs::V4 {
            src: Ipv4Addr::new(192, 168, 1, 10),
            dst: collector_v4,
        },
        src_port: Some(54321),
        dst_port: Some(collector_port),
        protocol: 17,
    };
    // TCP to same dst:port: different protocol, no match
    let tcp_to_collector_port = FlowKey {
        protocol: 6,
        ..self_export
    };
    // UDP to different dst: no match
    let unrelated_udp = FlowKey {
        addrs: FlowAddrs::V4 {
            src: Ipv4Addr::new(192, 168, 1, 10),
            dst: Ipv4Addr::new(8, 8, 8, 8),
        },
        ..self_export
    };
    // UDP to different port: no match
    let udp_to_other_port = FlowKey {
        dst_port: Some(9999),
        ..self_export
    };

    assert!(self_export.is_self_export(collector));
    assert!(!tcp_to_collector_port.is_self_export(collector));
    assert!(!unrelated_udp.is_self_export(collector));
    assert!(!udp_to_other_port.is_self_export(collector));
}

#[test]
fn with_direction_classifies_against_interface_addresses() {
    let local_v4 = Ipv4Addr::new(192, 168, 1, 10);
    let remote_v4 = Ipv4Addr::new(8, 8, 8, 8);
    let local = IpAddr::V4(local_v4);

    let outgoing = FlowKey {
        addrs: FlowAddrs::V4 {
            src: local_v4,
            dst: remote_v4,
        },
        src_port: Some(40000),
        dst_port: Some(443),
        protocol: 6,
    };
    let incoming = FlowKey {
        addrs: FlowAddrs::V4 {
            src: remote_v4,
            dst: local_v4,
        },
        src_port: Some(443),
        dst_port: Some(40000),
        protocol: 6,
    };
    let val = blank();
    let by_key: HashMap<_, _> = [(outgoing, val), (incoming, val)]
        .into_iter()
        .map(|(k, v)| (k, v.with_direction(&k, &[local]).direction))
        .collect();
    assert_eq!(by_key[&outgoing], Some(FlowDirection::Outgoing));
    assert_eq!(by_key[&incoming], Some(FlowDirection::Incoming));
}

#[test]
fn with_direction_is_none_without_interface_addresses() {
    let annotated = blank().with_direction(&key(1, 2), &[]);
    assert_eq!(annotated.direction, None);
}

#[test]
fn counters_saturate() {
    let mut table = FlowTable::new();
    let k = key(1, 2);
    table.record(k, u64::MAX - 1, None, None, 0);
    table.record(k, 5, None, None, 0);
    let v = table.drain().get(&k).unwrap();
    assert_eq!(v.bytes, u64::MAX);
    assert_eq!(v.packets, 2);
}

#[test]
fn late_mac_is_taken_up() {
    let mut table = FlowTable::new();
    let k = key(1, 2);
    table.record(k, 1, None, None, 0);
    table.record(k, 1, None, Some([7; 6]), 0);
    table.record(k, 1, Some([8; 6]), Some([9; 6]), 0);
    let v = table.drain().get(&k).unwrap();
    assert_eq!(v.src_mac, Some([8; 6]));
    assert_eq!(v.dst_mac, Some([7; 6]));
    assert_eq!(v.direction, None);
}

#[test]
fn keys_with_one_digest_stay_apart() {
    // A missing port and port 0 have the same digest.
    let a = FlowKey {
        src_port: None,
        dst_port: None,
        protocol: 1,
        ..key(1, 2)
    };
    let b = FlowKey {
        src_port: Some(0),
        dst_port: Some(0),
        ..a
    };
    assert_eq!(a.digest(), b.digest());
    let mut table = FlowTable::new();
    table.record(a, 1, None, None, 0);
    table.record(b, 10, None, None, 0);
    table.record(a, 2, None, None, 0);
    table.record(b, 20, None, None, 0);
    let flows = table.drain();
    assert_eq!(flows.len(), 2);
    assert_eq!(flows.get(&a).unwrap().bytes, 3);
    assert_eq!(flows.get(&b).unwrap().bytes, 30);
    assert!(flows.get(&key(1, 2)).is_none());
}

#[test]
fn many_flows_are_all_kept() {
    let mut table = FlowTable::new();
    for round in 0..3u64 {
        for a in 0..250u8 {
            table.record(key(a, 9), u64::from(a) + round, None, None, round);
        }
    }
    let flows = table.drain();
    assert_eq!(flows.len(), 250);
    for a in 0..250u8 {
        let v = flows.get(&key(a, 9)).unwrap();
        assert_eq!(v.bytes, 3 * u64::from(a) + 3);
        assert_eq!(v.packets, 3);
        assert_eq!(v.last_seen_ms, 2);
    }
    assert_eq!(flows.into_flows().len(), 250);
}

#[test]
fn packets_may_come_in_either_order() {
    let k = key(1, 2);
    let packets = [(10u64, 50u64), (20, 40), (30, 60)];
    let mut forward = FlowTable::new();
    let mut backward = FlowTable::new();
    for (bytes, ts) in packets {
        forward.record(k, bytes, None, None, ts);
    }
    for (bytes, ts) in packets.into_iter().rev() {
        backward.record(k, bytes, None, None, ts);
    }
    let f = forward.drain().get(&k).unwrap();
    let b = backward.drain().get(&k).unwrap();
    assert_eq!((f.bytes, f.packets, f.first_seen_ms, f.last_seen_ms), (60, 3, 40, 60));
    assert_eq!((b.bytes, b.packets, b.first_seen_ms, b.last_seen_ms), (60, 3, 40, 60));
}

#[test]
fn selection_drops_own_export_and_adds_direction() {
    let collector = SocketAddr::new(IpAddr::V4(Ipv4Addr::new(10, 0, 0, 9)), 4739);
    let own = [IpAddr::V4(Ipv4Addr::new(10, 0, 0, 1))];
    let export = FlowKey {
        dst_port: Some(4739),
        protocol: 17,
        ..key(1, 9)
    };
    let mut table = FlowTable::new();
    table.record(export, 500, None, None, 1);
    table.record(key(1, 2), 100, None, None, 2);
    table.record(key(2, 1), 200, None, None, 3);
    let flows = select_flows(table.drain(), collector, &own);
    assert_eq!(flows.len(), 2);
    let by_key: HashMap<FlowKey, FlowVal> = flows.into_iter().collect();
    let out = by_key[&key(1, 2)];
    let back = by_key[&key(2, 1)];
    assert_eq!(out.direction, Some(FlowDirection::Outgoing));
    assert_eq!((out.bytes, out.packets, out.first_seen_ms), (100, 1, 2));
    assert_eq!(back.direction, Some(FlowDirection::Incoming));
    assert_eq!(back.bytes, 200);
}

fn parsed() -> ParsedPacket {
    ParsedPacket {
        src_mac: Some([1; 6]),
        dst_mac: Some([2; 6]),
        vlan_id: Some(7),
        src_ip: IpAddr::V4(Ipv4Addr::new(10, 0, 0, 1)),
        dst_ip: IpAddr::V4(Ipv4Addr::new(10, 0, 0, 2)),
        src_port: Some(1001),
        dst_port: Some(443),
        protocol: Protocol::Tcp,
        bytes: 74,
    }
}

#[test]
fn decoding_keeps_what_the_parser_found() {
    let d = decode_packet(&parsed()).unwrap();
    assert_eq!(d.key, key(1, 2));
    assert_eq!(d.bytes, 74);
    assert_eq!(d.src_mac, Some([1; 6]));
    assert_eq!(d.dst_mac, Some([2; 6]));
    assert_eq!(d.vlan_id, Some(7));

    let src = Ipv6Addr::new(0x2001, 0xdb8, 0, 0, 0, 0, 0, 1);
    let dst = Ipv6Addr::new(0x2001, 0xdb8, 0, 0, 0, 0, 0, 2);
    let v6 = ParsedPacket {
        src_ip: IpAddr::V6(src),
        dst_ip: IpAddr::V6(dst),
        protocol: Protocol::Icmpv6,
        src_port: None,
        dst_port: None,
        ..parsed()
    };
    let d = decode_packet(&v6).unwrap();
    assert_eq!(d.key.addrs, FlowAddrs::V6 { src, dst });
    assert_eq!(d.key.protocol, 58);
    assert_eq!(d.key.src_port, None);
}

#[test]
fn arp_and_mixed_families_are_skipped() {
    let arp = ParsedPacket {
        protocol: Protocol::Arp,
        ..parsed()
    };
    assert!(decode_packet(&arp).is_none());
    let mixed = ParsedPacket {
        dst_ip: IpAddr::V6(Ipv6Addr::unspecified()),
        ..parsed()
    };
    assert!(decode_packet(&mixed).is_none());
}

#[test]
fn protocol_numbers() {
    for (p, n) in [
        (Protocol::Tcp, 6),
        (Protocol::Udp, 17),
        (Protocol::Icmpv4, 1),
        (Protocol::Icmpv6, 58),
        (Protocol::Igmp, 2),
    ] {
        assert_eq!(p.number(), Some(n));
        assert_eq!(Protocol::from_number(n), Some(p));
    }
    assert_eq!(Protocol::Arp.number(), None);
    assert_eq!(Protocol::from_number(0), None);
    assert_eq!(Protocol::from_number(255), None);
}

#[test]
fn packet_times_in_milliseconds() {
    assert_eq!(packet_time_ms(0, 999), Some(0));
    assert_eq!(packet_time_ms(1_700_000_000, 123_456), Some(1_700_000_000_123));
    assert_eq!(packet_time_ms(u64::MAX, 999), Some(u64::MAX));
    assert_eq!(packet_time_ms(u64::MAX, 1_000), None);
}

#[test]
fn capture_hands_over_after_the_interval() {
    let mut state = CaptureState::new();
    let event = CaptureEvent::Packet {
        parsed: Some(parsed()),
        sec: 12,
        usec: 345_678,
    };
    assert_eq!(state.observe(&event), Ok(()));
    assert_eq!(state.observe(&CaptureEvent::Timeout), Ok(()));
    assert_eq!(state.observe(&CaptureEvent::Failed), Ok(()));
    let unparsed = CaptureEvent::Packet {
        parsed: None,
        sec: u64::MAX,
        usec: u64::MAX,
    };
    assert_eq!(state.observe(&unparsed), Ok(()));
    assert!(state.tick(899_999_999).is_none());
    let flows = state.tick(900_000_000).unwrap();
    assert_eq!(flows.len(), 1);
    let v = flows.get(&key(1, 2)).unwrap();
    assert_eq!((v.bytes, v.packets, v.first_seen_ms), (74, 1, 12_345));
    assert!(state.tick(900_000_000).unwrap().is_empty());
}

#[test]
fn capture_refuses_times_that_do_not_fit() {
    let mut state = CaptureState::new();
    let event = CaptureEvent::Packet {
        parsed: Some(parsed()),
        sec: u64::MAX,
        usec: 1_000,
    };
    assert_eq!(state.observe(&event), Err(TimeOverflow));
    assert!(state.tick(u128::MAX).unwrap().is_empty());
}

/// A parser for frames of two bytes, the last octets of the two addresses.
fn toy_parser(data: &[u8], datalink: i32) -> Option<ParsedPacket> {
    if datalink != 1 || data.len() != 2 {
        return None;
    }
    Some(ParsedPacket {
        src_ip: IpAddr::V4(Ipv4Addr::new(10, 0, 0, data[0])),
        dst_ip: IpAddr::V4(Ipv4Addr::new(10, 0, 0, data[1])),
        src_port: Some(1000 + u16::from(data[0])),
        ..parsed()
    })
}

#[test]
fn bytes_are_decoded_as_they_are_parsed() {
    assert_eq!(decode_bytes(&[3, 4], 1, toy_parser).unwrap().key, key(3, 4));
    assert!(decode_bytes(&[3, 4], 12, toy_parser).is_none());
    assert!(decode_bytes(&[3], 1, toy_parser).is_none());
    let arp = |_: &[u8], _: i32| {
        Some(ParsedPacket {
            protocol: Protocol::Arp,
            ..parsed()
        })
    };
    assert!(decode_bytes(&[3, 4], 1, arp).is_none());
}

#[test]
fn capture_counts_packets_from_their_bytes() {
    let mut state = CaptureState::new();
    assert_eq!(state.observe_bytes(&[3, 4], 1, 1, 0, toy_parser), Ok(()));
    assert_eq!(state.observe_bytes(&[3, 4], 1, 2, 5_000, toy_parser), Ok(()));
    assert_eq!(state.observe_bytes(&[3], 1, u64::MAX, 1_000, toy_parser), Ok(()));
    assert_eq!(
        state.observe_bytes(&[5, 6], 1, u64::MAX, 1_000, toy_parser),
        Err(TimeOverflow)
    );
    let flows = state.tick(900_000_000).unwrap();
    assert_eq!(flows.len(), 1);
    let v = flows.get(&key(3, 4)).unwrap();
    assert_eq!((v.bytes, v.packets), (148, 2));
    assert_eq!((v.first_seen_ms, v.last_seen_ms), (1_000, 2_005));
}
