use sniffnet_agent::addr::{IpAddr, Ipv4Addr, Ipv6Addr, SocketAddr};
use sniffnet_agent::agent::select_flows;
use sniffnet_agent::exporter::{flush_outcome, unix_seconds, Exporter};
use sniffnet_agent::flow::{FlowAddrs, FlowKey, FlowTable, FlowVal};
use sniffnet_agent::gc::{check_due, check_interval};

fn flow(a: u8) -> (FlowKey, FlowVal) {
    (
        FlowKey {
            addrs: FlowAddrs::V4 {
                src: Ipv4Addr::new(10, 0, 0, a),
                dst: Ipv4Addr::new(10, 0, 0, 99),
            },
            src_port: Some(1000 + u16::from(a)),
            dst_port: Some(443),
            protocol: 6,
        },
        FlowVal {
            bytes: 100,
            packets: 1,
            src_mac: None,
            dst_mac: None,
            direction: None,
            first_seen_ms: 0,
            last_seen_ms: 0,
        },
    )
}

fn collector() -> SocketAddr {
    SocketAddr::new(IpAddr::V4(Ipv4Addr::new(127, 0, 0, 1)), 4739)
}

#[test]
fn first_flush_carries_template_then_subsequent_does_not() {
    let (mut exp, _) = Exporter::connect(collector(), 0);
    let first = exp.flush(&[flow(1)], 1_000, 0);
    assert!(first.with_templates);
    assert_eq!(exp.last_template_send, Some(1_000));
    assert_eq!(first.datagrams.len(), 1);
    let dg = &first.datagrams[0];
    // header(16) + template set(124) + data set(4 + 58)
    assert_eq!(dg.len(), 202);
    assert_eq!(u16::from_be_bytes([dg[16], dg[17]]), 2);

    let second = exp.flush(&[flow(2)], 3_000, 0);
    assert!(!second.with_templates);
    let dg = &second.datagrams[0];
    // header(16) + data set(4 + 58)
    assert_eq!(dg.len(), 78);
    assert_eq!(u16::from_be_bytes([dg[16], dg[17]]), 256);
    // The sequence number counts the record of the first flush.
    assert_eq!(u32::from_be_bytes([dg[8], dg[9], dg[10], dg[11]]), 1);
}

#[test]
fn flush_with_empty_flows_is_noop() {
    let (mut exp, _) = Exporter::connect(collector(), 3);
    let flush = exp.flush(&[], 0, 0);
    assert!(flush.datagrams.is_empty());
    assert!(!flush.with_templates);
    assert_eq!((exp.seq, exp.odid, exp.last_template_send), (0, 3, None));
}

#[test]
fn templates_are_refreshed_after_thirty_seconds() {
    let (mut exp, _) = Exporter::connect(collector(), 0);
    assert!(exp.flush(&[flow(1)], 5, 0).with_templates);
    // Flushes in between do not put the refresh off.
    assert!(!exp.flush(&[flow(1)], 20_000_000_000, 0).with_templates);
    assert!(!exp.flush(&[flow(1)], 30_000_000_004, 0).with_templates);
    assert_eq!(exp.last_template_send, Some(5));
    // A flush without flows sends nothing and restarts nothing.
    assert!(!exp.flush(&[], 40_000_000_000, 0).with_templates);
    assert_eq!(exp.last_template_send, Some(5));
    let refresh = exp.flush(&[flow(1)], 30_000_000_005, 0);
    assert!(refresh.with_templates);
    assert_eq!(refresh.datagrams[0][16..18], [0, 2]);
    assert_eq!(exp.last_template_send, Some(30_000_000_005));
    // A reading before the last one counts as no time at all.
    assert!(!exp.flush(&[flow(1)], 0, 0).with_templates);
    assert_eq!(exp.seq, 5);
}

#[test]
fn export_time_and_domain_reach_the_header() {
    let (mut exp, _) = Exporter::connect(collector(), 0x0102_0304);
    let flush = exp.flush(&[flow(1)], 0, 0xDEAD_BEEF);
    let dg = &flush.datagrams[0];
    assert_eq!(dg[4..8], [0xDE, 0xAD, 0xBE, 0xEF]);
    assert_eq!(dg[12..16], [1, 2, 3, 4]);
}

#[test]
fn socket_binds_in_the_family_of_the_collector() {
    let (_, bind) = Exporter::connect(collector(), 0);
    assert_eq!(
        bind,
        SocketAddr::V4 {
            ip: Ipv4Addr::unspecified(),
            port: 0
        }
    );
    let v6 = SocketAddr::V6 {
        ip: Ipv6Addr::new(0xfe80, 0, 0, 0, 0, 0, 0, 1),
        port: 4739,
        flowinfo: 1,
        scope_id: 2,
    };
    let (_, bind) = Exporter::connect(v6, 0);
    assert_eq!(
        bind,
        SocketAddr::V6 {
            ip: Ipv6Addr::unspecified(),
            port: 0,
            flowinfo: 0,
            scope_id: 0
        }
    );
}

#[test]
fn the_last_send_error_is_reported() {
    assert_eq!(flush_outcome::<u8>(vec![]), Ok(()));
    assert_eq!(flush_outcome::<u8>(vec![Ok(()), Ok(())]), Ok(()));
    assert_eq!(flush_outcome(vec![Err(1), Ok(()), Err(2), Ok(())]), Err(2));
}

#[test]
fn export_time_stops_at_its_field() {
    assert_eq!(unix_seconds(Some(1_700_000_000)), 1_700_000_000);
    assert_eq!(unix_seconds(Some(u64::from(u32::MAX))), u32::MAX);
    assert_eq!(unix_seconds(Some(u64::from(u32::MAX) + 1)), 0);
    assert_eq!(unix_seconds(None), 0);
}

#[test]
fn idle_check_interval_is_a_tenth_within_limits() {
    let s = 1_000_000_000u128;
    assert_eq!(check_interval(0), 5 * s);
    assert_eq!(check_interval(50 * s + 9), 5 * s);
    assert_eq!(check_interval(300 * s + 15), 30 * s + 1);
    assert_eq!(check_interval(600 * s), 60 * s);
    assert_eq!(check_interval(u128::MAX), 60 * s);
    assert!(!check_due(30 * s - 1, 300 * s));
    assert!(check_due(30 * s, 300 * s));
}

#[test]
fn records_on_the_wire_are_the_flows_of_the_table() {
    let own_export = FlowKey {
        addrs: FlowAddrs::V4 {
            src: Ipv4Addr::new(10, 0, 0, 1),
            dst: Ipv4Addr::new(127, 0, 0, 1),
        },
        src_port: Some(50_000),
        dst_port: Some(4739),
        protocol: 17,
    };
    let mut table = FlowTable::new();
    for a in 1..=5 {
        table.record(flow(a).0, 100, None, None, 0);
    }
    table.record(own_export, 1, None, None, 0);
    let me = [IpAddr::V4(Ipv4Addr::new(10, 0, 0, 99))];
    let flows = select_flows(table.drain(), collector(), &me);
    let (mut exp, _) = Exporter::connect(collector(), 0);
    let flush = exp.flush(&flows, 0, 0);
    assert_eq!(flush.datagrams.len(), 1);
    let dg = &flush.datagrams[0];
    assert_eq!(dg.len(), 16 + 124 + 4 + 5 * 58);
    let mut senders: Vec<u8> = Vec::new();
    for rec in dg[144..].chunks(58) {
        assert_eq!(rec[4..8], [10, 0, 0, 99]);
        // Every flow comes in.
        assert_eq!(rec[25], 0);
        senders.push(rec[3]);
    }
    senders.sort();
    assert_eq!(senders, [1, 2, 3, 4, 5]);
}
