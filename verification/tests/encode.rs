use sniffnet_agent::addr::{Ipv4Addr, Ipv6Addr};
use sniffnet_agent::direction::FlowDirection;
use sniffnet_agent::flow::{FlowAddrs, FlowKey, FlowVal};
use sniffnet_agent::ipfix::encode::{
    build_datagrams, pack_set, take_records, write_record, write_set_header,
};
use sniffnet_agent::ipfix::{
    RECORD_SIZE_V4, RECORD_SIZE_V6, SET_HEADER_LEN, TEMPLATE_ID_V4, TEMPLATE_ID_V6,
};


fn v4_flow(a: u8, b: u8, bytes: u64, packets: u64) -> (FlowKey, FlowVal) {
    (
        FlowKey {
            addrs: FlowAddrs::V4 {
                src: Ipv4Addr::new(10, 0, 0, a),
                dst: Ipv4Addr::new(10, 0, 0, b),
            },
            src_port: Some(1000 + u16::from(a)),
            dst_port: Some(443),
            protocol: 6,
        },
        FlowVal {
            bytes,
            packets,
            src_mac: Some([0xaa; 6]),
            dst_mac: Some([0xbb; 6]),
            direction: None,
            first_seen_ms: 0,
            last_seen_ms: 0,
        },
    )
}

fn v6_flow(bytes: u64, packets: u64) -> (FlowKey, FlowVal) {
    (
        FlowKey {
            addrs: FlowAddrs::V6 {
                src: Ipv6Addr::new(0x2001, 0xdb8, 0, 0, 0, 0, 0, 1),
                dst: Ipv6Addr::new(0x2001, 0xdb8, 0, 0, 0, 0, 0, 2),
            },
            src_port: Some(5555),
            dst_port: Some(80),
            protocol: 17,
        },
        FlowVal {
            bytes,
            packets,
            src_mac: None,
            dst_mac: None,
            direction: None,
            first_seen_ms: 0,
            last_seen_ms: 0,
        },
    )
}

#[test]
fn empty_flows_produces_no_datagrams() {
    let (out, seq) = build_datagrams(&[], 0, false, 12345, 0);
    assert!(out.is_empty());
    assert_eq!(seq, 0);
}

#[test]
fn header_layout_is_exact() {
    let s = [v4_flow(1, 2, 100, 5)];
    let (out, _) = build_datagrams(&s, 0x1122_3344, false, 0xDEADBEEF, 0);
    assert_eq!(out.len(), 1);
    let dg = &out[0];
    assert_eq!(dg[0..2], 0x000Au16.to_be_bytes(), "version");
    // length back-patched: header(16) + data set header(4) + 1 v4 record(58) = 78
    assert_eq!(u16::from_be_bytes([dg[2], dg[3]]), 78);
    assert_eq!(dg[4..8], 0xDEADBEEFu32.to_be_bytes(), "export_time");
    assert_eq!(dg[8..12], 0x1122_3344u32.to_be_bytes(), "sequence");
    assert_eq!(dg[12..16], 0u32.to_be_bytes(), "odid");
}

#[test]
fn odid_is_written_in_every_datagram_header() {
    // enough flows to spill over more than one datagram
    let flows: Vec<_> = (0..50)
        .map(|i| v4_flow(i as u8, (i + 1) as u8, 100, 1))
        .collect();
    let (out, _) = build_datagrams(&flows, 0, true, 0, 0x0102_0304);
    assert!(out.len() >= 2);
    for dg in &out {
        assert_eq!(dg[12..16], 0x0102_0304u32.to_be_bytes(), "odid");
    }
}

#[test]
fn template_set_only_in_first_datagram() {
    let flows: Vec<_> = (0..50)
        .map(|i| v4_flow(i as u8, (i + 1) as u8, 100, 1))
        .collect();
    let (out, _) = build_datagrams(&flows, 0, true, 0, 0);
    assert!(out.len() >= 2);
    // first datagram should contain template set id (2) right after header
    let first_set_id = u16::from_be_bytes([out[0][16], out[0][17]]);
    assert_eq!(first_set_id, 2);
    // subsequent datagrams should start with a data set (id 256)
    let second_set_id = u16::from_be_bytes([out[1][16], out[1][17]]);
    assert_eq!(second_set_id, 256);
}

#[test]
fn v4_record_byte_layout() {
    let key = FlowKey {
        addrs: FlowAddrs::V4 {
            src: Ipv4Addr::new(10, 0, 0, 1),
            dst: Ipv4Addr::new(192, 168, 1, 5),
        },
        src_port: Some(0xAABB),
        dst_port: Some(0x01BB),
        protocol: 6,
    };
    let val = FlowVal {
        bytes: 0x0102_0304_0506_0708,
        packets: 0x00FF,
        src_mac: Some([0x11, 0x22, 0x33, 0x44, 0x55, 0x66]),
        dst_mac: Some([0x77, 0x88, 0x99, 0xAA, 0xBB, 0xCC]),
        direction: Some(FlowDirection::Outgoing),
        first_seen_ms: 0x1111_2222_3333_4444,
        last_seen_ms: 0x5555_6666_7777_8888,
    };
    let (out, _) = build_datagrams(&[(key, val)], 0, false, 0, 0);
    let dg = &out[0];
    // Skip 16B header + 4B data set header = 20B prefix.
    let rec = &dg[20..20 + usize::from(RECORD_SIZE_V4)];
    assert_eq!(rec[0..4], [10, 0, 0, 1]);
    assert_eq!(rec[4..8], [192, 168, 1, 5]);
    assert_eq!(rec[8..10], [0xAA, 0xBB]);
    assert_eq!(rec[10..12], [0x01, 0xBB]);
    assert_eq!(rec[12], 6);
    assert_eq!(rec[13..19], [0x11, 0x22, 0x33, 0x44, 0x55, 0x66]);
    assert_eq!(rec[19..25], [0x77, 0x88, 0x99, 0xAA, 0xBB, 0xCC]);
    assert_eq!(rec[25], 0x01, "flowDirection egress");
    assert_eq!(
        rec[26..34],
        [0x01, 0x02, 0x03, 0x04, 0x05, 0x06, 0x07, 0x08]
    );
    assert_eq!(rec[34..42], 0x00FFu64.to_be_bytes());
    assert_eq!(rec[42..50], 0x1111_2222_3333_4444u64.to_be_bytes());
    assert_eq!(rec[50..58], 0x5555_6666_7777_8888u64.to_be_bytes());
}

#[test]
fn v6_record_byte_layout() {
    let src = Ipv6Addr::new(0x2001, 0xdb8, 0, 0, 0, 0, 0, 1);
    let dst = Ipv6Addr::new(0x2001, 0xdb8, 0, 0, 0, 0, 0, 2);
    let key = FlowKey {
        addrs: FlowAddrs::V6 { src, dst },
        src_port: Some(0xAABB),
        dst_port: Some(0x01BB),
        protocol: 17,
    };
    let val = FlowVal {
        bytes: 0x0102_0304_0506_0708,
        packets: 0x00FF,
        src_mac: Some([0x11, 0x22, 0x33, 0x44, 0x55, 0x66]),
        dst_mac: Some([0x77, 0x88, 0x99, 0xAA, 0xBB, 0xCC]),
        direction: Some(FlowDirection::Incoming),
        first_seen_ms: 0x1111_2222_3333_4444,
        last_seen_ms: 0x5555_6666_7777_8888,
    };
    let (out, _) = build_datagrams(&[(key, val)], 0, false, 0, 0);
    let dg = &out[0];
    // Skip 16B header + 4B data set header = 20B prefix.
    let rec = &dg[20..20 + usize::from(RECORD_SIZE_V6)];
    assert_eq!(rec[0..16], src.octets());
    assert_eq!(rec[16..32], dst.octets());
    assert_eq!(rec[32..34], [0xAA, 0xBB]);
    assert_eq!(rec[34..36], [0x01, 0xBB]);
    assert_eq!(rec[36], 17);
    assert_eq!(rec[37..43], [0x11, 0x22, 0x33, 0x44, 0x55, 0x66]);
    assert_eq!(rec[43..49], [0x77, 0x88, 0x99, 0xAA, 0xBB, 0xCC]);
    assert_eq!(rec[49], 0x00, "flowDirection ingress");
    assert_eq!(rec[50..58], 0x0102_0304_0506_0708u64.to_be_bytes());
    assert_eq!(rec[58..66], 0x00FFu64.to_be_bytes());
    assert_eq!(rec[66..74], 0x1111_2222_3333_4444u64.to_be_bytes());
    assert_eq!(rec[74..82], 0x5555_6666_7777_8888u64.to_be_bytes());
}

#[test]
fn direction_byte_encodes_all_three_states() {
    let key = FlowKey {
        addrs: FlowAddrs::V4 {
            src: Ipv4Addr::new(10, 0, 0, 1),
            dst: Ipv4Addr::new(10, 0, 0, 2),
        },
        src_port: Some(1234),
        dst_port: Some(80),
        protocol: 6,
    };
    let make = |dir| FlowVal {
        bytes: 1,
        packets: 1,
        src_mac: None,
        dst_mac: None,
        direction: dir,
        first_seen_ms: 0,
        last_seen_ms: 0,
    };
    let cases = [
        (Some(FlowDirection::Incoming), 0x00),
        (Some(FlowDirection::Outgoing), 0x01),
        (None, 0xFF),
    ];
    for (dir, expected) in cases {
        let (out, _) = build_datagrams(&[(key, make(dir))], 0, false, 0, 0);
        // Byte offset for flowDirection: header(16) + set hdr(4) + 4+4+2+2+1+6+6 = 45.
        assert_eq!(out[0][45], expected, "dir {:?}", dir);
    }
}

#[test]
fn sequence_number_advances_by_record_count() {
    let flows = vec![v4_flow(1, 2, 100, 1), v4_flow(3, 4, 200, 1)];
    let (_, seq) = build_datagrams(&flows, 100, false, 0, 0);
    assert_eq!(seq, 102);
}

#[test]
fn sequence_number_carries_across_messages() {
    // At mtu=1200 a no-template datagram fits floor((1200 - 16 - 4) / 58) = 20 v4
    // records. 67 records therefore splits into 20 + 20 + 20 + 7 across four datagrams.
    let flows: Vec<_> = (0..67)
        .map(|i| v4_flow((i % 250) as u8, ((i + 1) % 250) as u8, 100, 1))
        .collect();
    let (out, seq) = build_datagrams(&flows, 0, false, 0, 0);
    assert_eq!(out.len(), 4);
    assert_eq!(
        u32::from_be_bytes([out[0][8], out[0][9], out[0][10], out[0][11]]),
        0
    );
    assert_eq!(
        u32::from_be_bytes([out[1][8], out[1][9], out[1][10], out[1][11]]),
        20
    );
    assert_eq!(
        u32::from_be_bytes([out[2][8], out[2][9], out[2][10], out[2][11]]),
        40
    );
    assert_eq!(
        u32::from_be_bytes([out[3][8], out[3][9], out[3][10], out[3][11]]),
        60
    );
    assert_eq!(seq, 67);
}

#[test]
fn sequence_number_wraps_modulo_2_32() {
    let flows = vec![v4_flow(1, 2, 100, 1), v4_flow(3, 4, 100, 1)];
    let (_, seq) = build_datagrams(&flows, u32::MAX - 1, false, 0, 0);
    assert_eq!(seq, 0);
}

#[test]
fn mtu_split_v4_count_matches_input() {
    let flows: Vec<_> = (0..200)
        .map(|i| v4_flow((i % 250) as u8, ((i + 1) % 250) as u8, 100, 1))
        .collect();
    let (out, seq) = build_datagrams(&flows, 0, false, 0, 0);
    assert_eq!(seq, 200);
    // Sum the records reported in each datagram's message length.
    let mut total_records = 0u32;
    for dg in &out {
        assert!(dg.len() <= 1200);
        let msg_len = u16::from_be_bytes([dg[2], dg[3]]);
        assert_eq!(
            usize::from(msg_len),
            dg.len(),
            "length field matches datagram size"
        );
        // After 16B msg hdr + 4B set hdr, what remains is records.
        let data_bytes = msg_len - 20;
        assert_eq!(data_bytes % RECORD_SIZE_V4, 0);
        total_records += u32::from(data_bytes / RECORD_SIZE_V4);
    }
    assert_eq!(total_records, 200);
}

#[test]
fn mtu_split_v6_count_matches_input() {
    let flows: Vec<_> = (0..200).map(|_| v6_flow(200, 1)).collect();
    let (out, seq) = build_datagrams(&flows, 0, false, 0, 0);
    assert_eq!(seq, 200);
    // Sum the records reported in each datagram's message length.
    let mut total_records = 0u32;
    for dg in &out {
        assert!(dg.len() <= 1200);
        let msg_len = u16::from_be_bytes([dg[2], dg[3]]);
        assert_eq!(
            usize::from(msg_len),
            dg.len(),
            "length field matches datagram size"
        );
        // After 16B msg hdr + 4B set hdr, what remains is records.
        let data_bytes = msg_len - 20;
        assert_eq!(data_bytes % RECORD_SIZE_V6, 0);
        total_records += u32::from(data_bytes / RECORD_SIZE_V6);
    }
    assert_eq!(total_records, 200);
}

#[test]
fn v4_and_v6_share_a_datagram_when_room_allows() {
    let flows = vec![v4_flow(1, 2, 100, 1), v6_flow(200, 2)];
    let (out, _) = build_datagrams(&flows, 0, false, 0, 0);
    assert_eq!(out.len(), 1);
    let dg = &out[0];
    // After 16B header: v4 data set (4 + 58 = 62B) then v6 data set (4 + 82 = 86B)
    let first_set_id = u16::from_be_bytes([dg[16], dg[17]]);
    let first_set_len = u16::from_be_bytes([dg[18], dg[19]]);
    assert_eq!(first_set_id, TEMPLATE_ID_V4);
    assert_eq!(first_set_len, SET_HEADER_LEN + RECORD_SIZE_V4);
    let off = 16 + usize::from(first_set_len);
    let second_set_id = u16::from_be_bytes([dg[off], dg[off + 1]]);
    let second_set_len = u16::from_be_bytes([dg[off + 2], dg[off + 3]]);
    assert_eq!(second_set_id, TEMPLATE_ID_V6);
    assert_eq!(second_set_len, SET_HEADER_LEN + RECORD_SIZE_V6);
}

#[test]
fn include_template_set_flag_drives_first_datagram_layout() {
    let flows = [v4_flow(1, 2, 100, 1)];
    let (with, _) = build_datagrams(&flows, 0, true, 0, 0);
    let (without, _) = build_datagrams(&flows, 0, false, 0, 0);
    // With template, the first set is the template set (id=2)
    let with_id = u16::from_be_bytes([with[0][16], with[0][17]]);
    let without_id = u16::from_be_bytes([without[0][16], without[0][17]]);
    assert_eq!(with_id, 2);
    assert_eq!(without_id, TEMPLATE_ID_V4);
    // With template means longer message
    assert!(with[0].len() > without[0].len());
}

#[test]
fn missing_ports_and_macs_are_zero() {
    let (key, val) = v4_flow(1, 2, 100, 5);
    let key = FlowKey {
        src_port: None,
        dst_port: None,
        protocol: 1,
        ..key
    };
    let val = FlowVal {
        src_mac: None,
        dst_mac: None,
        ..val
    };
    let (out, _) = build_datagrams(&[(key, val)], 0, false, 0, 0);
    let rec = &out[0][20..];
    assert_eq!(rec.len(), 58);
    assert_eq!(rec[8..12], [0; 4]);
    assert_eq!(rec[12], 1);
    assert_eq!(rec[13..25], [0; 12]);
}

#[test]
fn record_capacity() {
    // (1200 - 16 - 4) / 58 = 20 and (1200 - 16 - 124 - 4) / 82 = 12
    assert_eq!(take_records(67, 16, RECORD_SIZE_V4), 20);
    assert_eq!(take_records(7, 16, RECORD_SIZE_V4), 7);
    assert_eq!(take_records(usize::MAX, 140, RECORD_SIZE_V6), 12);
    assert_eq!(take_records(5, 1197, RECORD_SIZE_V6), 0);
    assert_eq!(take_records(5, u16::MAX, RECORD_SIZE_V4), 0);
    assert_eq!(take_records(0, 16, RECORD_SIZE_V4), 0);
}

#[test]
fn set_header_layout() {
    let mut out = vec![9u8];
    write_set_header(&mut out, TEMPLATE_ID_V6, 3 * RECORD_SIZE_V6);
    assert_eq!(out, [9, 0x01, 0x01, 0x00, 250]);
}

/// Walk a datagram from set to set.
fn sets(dg: &[u8]) -> Vec<(u16, Vec<u8>)> {
    let mut found = Vec::new();
    let mut at = 16;
    while at < dg.len() {
        let id = u16::from_be_bytes([dg[at], dg[at + 1]]);
        let len = usize::from(u16::from_be_bytes([dg[at + 2], dg[at + 3]]));
        found.push((id, dg[at + 4..at + len].to_vec()));
        at += len;
    }
    assert_eq!(at, dg.len());
    found
}

#[test]
fn every_flow_is_exported_once_and_in_order() {
    let flows: Vec<_> = (0..90u64)
        .map(|i| {
            if i % 3 == 0 {
                v6_flow(i, 1)
            } else {
                v4_flow((i % 250) as u8, 7, i, 1)
            }
        })
        .collect();
    let (out, seq) = build_datagrams(&flows, 7, true, 99, 5);
    assert_eq!(seq, 97);
    let mut v4_bytes = Vec::new();
    let mut v6_bytes = Vec::new();
    let mut sent = 7u32;
    for (i, dg) in out.iter().enumerate() {
        assert!(dg.len() <= 1200);
        assert_eq!(usize::from(u16::from_be_bytes([dg[2], dg[3]])), dg.len());
        assert_eq!(u32::from_be_bytes([dg[8], dg[9], dg[10], dg[11]]), sent);
        let mut records = 0;
        for (id, payload) in sets(dg) {
            let (size, offset, into) = match id {
                2 => {
                    assert_eq!(i, 0);
                    assert_eq!(payload.len(), 120);
                    continue;
                }
                256 => (58, 26, &mut v4_bytes),
                257 => (82, 50, &mut v6_bytes),
                _ => panic!("unexpected set"),
            };
            assert_eq!(payload.len() % size, 0);
            for rec in payload.chunks(size) {
                let mut b = [0u8; 8];
                b.copy_from_slice(&rec[offset..offset + 8]);
                into.push(u64::from_be_bytes(b));
                records += 1;
            }
        }
        assert!(records > 0);
        sent += records;
    }
    assert_eq!(sent, 97);
    assert_eq!(v4_bytes, (0..90).filter(|i| i % 3 != 0).collect::<Vec<u64>>());
    assert_eq!(v6_bytes, (0..90).filter(|i| i % 3 == 0).collect::<Vec<u64>>());
}

#[test]
fn full_datagrams_leave_no_room_for_another_record() {
    let flows: Vec<_> = (0..50).map(|i| v4_flow(i, 1, 1, 1)).collect();
    let (out, _) = build_datagrams(&flows, 0, true, 0, 0);
    // 16 + 124 + 4 + 18 * 58 = 1188, then 16 + 4 + 20 * 58 = 1180
    assert_eq!(
        out.iter().map(|d| d.len()).collect::<Vec<usize>>(),
        vec![1188, 1180, 16 + 4 + 12 * 58]
    );
}

#[test]
fn template_is_not_sent_without_flows() {
    let (out, seq) = build_datagrams(&[], 41, true, 0, 0);
    assert!(out.is_empty());
    assert_eq!(seq, 41);
}

#[test]
fn a_full_message_takes_no_set() {
    let flows = vec![v4_flow(1, 2, 3, 4)];
    for full in [1139u16, 1200, 1201, u16::MAX] {
        let mut buf = vec![7u8];
        let mut idx = 0;
        let mut msg_len = full;
        let took = pack_set(
            &mut buf,
            &flows,
            &mut idx,
            TEMPLATE_ID_V4,
            RECORD_SIZE_V4,
            &mut msg_len,
        );
        assert_eq!((took, idx, msg_len), (0, 0, full));
        assert_eq!(buf, [7]);
    }
    // 1138 + 4 + 58 = 1200
    let mut buf = Vec::new();
    let mut idx = 0;
    let mut msg_len = 1138;
    let took = pack_set(
        &mut buf,
        &flows,
        &mut idx,
        TEMPLATE_ID_V4,
        RECORD_SIZE_V4,
        &mut msg_len,
    );
    assert_eq!((took, idx, msg_len, buf.len()), (1, 1, 1200, 62));
}

#[test]
fn records_differ_when_the_exported_flows_differ() {
    let bytes = |key: FlowKey, val: FlowVal| {
        let mut out = Vec::new();
        write_record(&mut out, &key, &val);
        out
    };
    let (key, val) = v4_flow(1, 2, 100, 5);
    let r = bytes(key, val);
    // A missing port reads as 0, a missing MAC as all zeros.
    let portless = FlowKey {
        src_port: None,
        ..key
    };
    let port_zero = FlowKey {
        src_port: Some(0),
        ..key
    };
    assert_eq!(bytes(portless, val), bytes(port_zero, val));
    assert_ne!(bytes(portless, val), r);
    let no_mac = FlowVal {
        dst_mac: None,
        ..val
    };
    let zero_mac = FlowVal {
        dst_mac: Some([0; 6]),
        ..val
    };
    assert_eq!(bytes(key, no_mac), bytes(key, zero_mac));
    assert_ne!(bytes(key, no_mac), r);
    assert_ne!(bytes(key, FlowVal { packets: 6, ..val }), r);
    assert_ne!(bytes(FlowKey { protocol: 17, ..key }, val), r);
}

#[test]
fn stream_settings_reach_the_header_only() {
    let flows: Vec<_> = (0..50).map(|i| v4_flow(i, 1, 1, 1)).collect();
    let (a, _) = build_datagrams(&flows, 1, true, 2, 3);
    let (b, _) = build_datagrams(&flows, 0xFFFF_FFFF, true, 77, 88);
    assert_eq!(a.len(), b.len());
    for (x, y) in a.iter().zip(&b) {
        assert_eq!(x[..4], y[..4]);
        assert_ne!(x[4..16], y[4..16]);
        assert_eq!(x[16..], y[16..]);
    }
}
