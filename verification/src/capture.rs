//! From captured packets to recorded flows.

use vstd::prelude::*;

use crate::addr::IpAddr;
use crate::flow::{recorded, recorded_all, FlowAddrs, FlowKey, FlowTable, FlowVal, Packet};
use crate::flow_map::FlowMap;
use crate::protocol::Protocol;

verus! {

/// What the packet parser reads from the headers of one packet. The parser is
/// handed to `decode_bytes` and `CaptureState::observe_bytes` by their caller:
/// how it turns bytes into these values is not stated here.
#[derive(Debug, Clone, Copy)]
pub struct ParsedPacket {
    pub src_mac: Option<[u8; 6]>,
    pub dst_mac: Option<[u8; 6]>,
    pub vlan_id: Option<u16>,
    pub src_ip: IpAddr,
    pub dst_ip: IpAddr,
    pub src_port: Option<u16>,
    pub dst_port: Option<u16>,
    pub protocol: Protocol,
    /// The length of the packet by its own headers.
    pub bytes: u64,
}

/// What the flow table has to know of one packet.
#[derive(Debug, Clone, Copy)]
pub struct Decoded {
    pub key: FlowKey,
    pub bytes: u64,
    pub src_mac: Option<[u8; 6]>,
    pub dst_mac: Option<[u8; 6]>,
    pub vlan_id: Option<u16>,
}

/// The two addresses as a pair of one family, if they are of one.
pub open spec fn paired(src: IpAddr, dst: IpAddr) -> Option<FlowAddrs> {
    match (src, dst) {
        (IpAddr::V4(src), IpAddr::V4(dst)) => Some(FlowAddrs::V4 { src, dst }),
        (IpAddr::V6(src), IpAddr::V6(dst)) => Some(FlowAddrs::V6 { src, dst }),
        _ => None,
    }
}

/// A packet belongs to a flow if its addresses are of one family and its
/// protocol has an IANA number.
pub open spec fn decoded(p: ParsedPacket) -> Option<Decoded> {
    match (paired(p.src_ip, p.dst_ip), p.protocol.iana()) {
        (Some(addrs), Some(protocol)) => Some(
            Decoded {
                key: FlowKey { addrs, src_port: p.src_port, dst_port: p.dst_port, protocol },
                bytes: p.bytes,
                src_mac: p.src_mac,
                dst_mac: p.dst_mac,
                vlan_id: p.vlan_id,
            },
        ),
        _ => None,
    }
}

/// Find the flow that a packet belongs to; see `decoded`.
pub fn decode_packet(parsed: &ParsedPacket) -> (r: Option<Decoded>)
    ensures
        r == decoded(*parsed),
{
    let addrs: FlowAddrs = match (parsed.src_ip, parsed.dst_ip) {
        (IpAddr::V4(src), IpAddr::V4(dst)) => FlowAddrs::V4 { src, dst },
        (IpAddr::V6(src), IpAddr::V6(dst)) => FlowAddrs::V6 { src, dst },
        _ => return None,
    };
    let protocol: u8 = match parsed.protocol.number() {
        Some(n) => n,
        None => return None,
    };
    Some(
        Decoded {
            key: FlowKey {
                addrs,
                src_port: parsed.src_port,
                dst_port: parsed.dst_port,
                protocol,
            },
            bytes: parsed.bytes,
            src_mac: parsed.src_mac,
            dst_mac: parsed.dst_mac,
            vlan_id: parsed.vlan_id,
        },
    )
}

/// The flow of a packet that the parser made `parsed` of, if it made anything
/// of it.
pub open spec fn decoded_from(parsed: Option<ParsedPacket>) -> Option<Decoded> {
    match parsed {
        Some(p) => decoded(p),
        None => None,
    }
}

/// Find the flow that a packet belongs to, from the bytes of the packet and the
/// data link type of the capture: what `parse` makes of exactly these two is
/// decoded. `parse` is the packet parser.
pub fn decode_bytes<F: Fn(&[u8], i32) -> Option<ParsedPacket>>(
    data: &[u8],
    datalink: i32,
    parse: F,
) -> (r: Option<Decoded>)
    requires
        call_requires(parse, (data, datalink)),
    ensures
        exists|parsed: Option<ParsedPacket>| #[trigger]
            call_ensures(parse, (data, datalink), parsed) && r == decoded_from(parsed),
{
    match parse(data, datalink) {
        Some(p) => decode_packet(&p),
        None => None,
    }
}

/// Addresses and protocol of a packet can be read back from its flow key.
pub proof fn law_key_keeps_endpoints(p: ParsedPacket)
    requires
        decoded(p) is Some,
    ensures
        decoded(p)->0.key.addrs.source() == p.src_ip,
        decoded(p)->0.key.addrs.destination() == p.dst_ip,
        Some(decoded(p)->0.key.protocol) == p.protocol.iana(),
{
}

/// ARP packets, and only they and packets of mixed families, are skipped.
pub proof fn law_skipped_packets(p: ParsedPacket)
    ensures
        decoded(p) is None <==> p.protocol == Protocol::Arp || (p.src_ip is V4) != (p.dst_ip is V4),
{
}

/// The milliseconds of a packet time of `sec` seconds and `usec` microseconds.
/// The seconds part stops at the greatest number; the microseconds part comes
/// on top of it.
pub open spec fn time_ms(sec: u64, usec: u64) -> int {
    let whole = if sec * 1000 > u64::MAX {
        u64::MAX as int
    } else {
        sec * 1000
    };
    whole + usec / 1000
}

/// A packet time in milliseconds, or `None` when it is too great to count.
pub fn packet_time_ms(sec: u64, usec: u64) -> (r: Option<u64>)
    ensures
        match r {
            Some(ms) => ms == time_ms(sec, usec),
            None => time_ms(sec, usec) > u64::MAX,
        },
{
    let whole: u64 = match sec.checked_mul(1000) {
        Some(ms) => ms,
        None => u64::MAX,
    };
    whole.checked_add(usec / 1000)
}

/// How long flows accumulate before they are handed over, in nanoseconds.
pub const DRAIN_INTERVAL_NS: u128 = 900_000_000;

/// What one attempt to read a packet came to.
#[derive(Debug, Clone, Copy)]
pub enum CaptureEvent {
    /// A packet that came at `sec` seconds and `usec` microseconds, and what
    /// the parser made of it.
    Packet { parsed: Option<ParsedPacket>, sec: u64, usec: u64 },
    /// No packet came in time.
    Timeout,
    /// The read failed.
    Failed,
}

/// The flow that an event counts to, and the time at which it does.
pub open spec fn counted(event: CaptureEvent) -> Option<(Decoded, int)> {
    match event {
        CaptureEvent::Packet { parsed: Some(p), sec, usec } => match decoded(p) {
            Some(d) => Some((d, time_ms(sec, usec))),
            None => None,
        },
        _ => None,
    }
}

/// The packet as the flow table counts it.
pub open spec fn as_packet(d: Decoded, ts_ms: u64) -> Packet {
    Packet {
        key: d.key,
        bytes: d.bytes,
        src_mac: d.src_mac,
        dst_mac: d.dst_mac,
        ts_ms,
    }
}

/// The packet that an event adds to the table: none if it counts to no flow, or
/// at a time that no flow can hold.
pub open spec fn added_by(event: CaptureEvent) -> Option<Packet> {
    match counted(event) {
        Some((d, ms)) if ms <= u64::MAX => Some(as_packet(d, ms as u64)),
        _ => None,
    }
}

/// The flows of `m` after an event.
pub open spec fn observed(m: Map<FlowKey, FlowVal>, event: CaptureEvent) -> Map<FlowKey, FlowVal> {
    match added_by(event) {
        Some(p) => recorded(m, p),
        None => m,
    }
}

/// The flows of `m` after the events `es`, in this order.
pub open spec fn observed_all(m: Map<FlowKey, FlowVal>, es: Seq<CaptureEvent>) -> Map<
    FlowKey,
    FlowVal,
>
    decreases es.len(),
{
    if es.len() == 0 {
        m
    } else {
        observed(observed_all(m, es.drop_last()), es.last())
    }
}

/// The packets that the events `es` add, in their order.
pub open spec fn added_by_all(es: Seq<CaptureEvent>) -> Seq<Packet>
    decreases es.len(),
{
    if es.len() == 0 {
        Seq::empty()
    } else {
        let before = added_by_all(es.drop_last());
        match added_by(es.last()) {
            Some(p) => before.push(p),
            None => before,
        }
    }
}

/// Between two hand-overs the table takes in the packets that were read, in
/// their order, and nothing else: a read that timed out or failed, and a packet
/// that belongs to no flow, leaves no trace.
pub proof fn law_capture_counts_packets(m: Map<FlowKey, FlowVal>, es: Seq<CaptureEvent>)
    ensures
        observed_all(m, es) == recorded_all(m, added_by_all(es)),
    decreases es.len(),
{
    if es.len() > 0 {
        let before = added_by_all(es.drop_last());
        law_capture_counts_packets(m, es.drop_last());
        if let Some(p) = added_by(es.last()) {
            assert(before.push(p).drop_last() =~= before);
        }
    }
}

/// A packet came with a time that no flow can hold.
#[derive(Debug, Clone, Copy, PartialEq, Eq, Structural)]
pub struct TimeOverflow;

/// The capture loop between two reads.
pub struct CaptureState {
    table: FlowTable,
}

impl View for CaptureState {
    type V = Map<FlowKey, FlowVal>;

    closed spec fn view(&self) -> Map<FlowKey, FlowVal> {
        self.table@
    }
}

impl CaptureState {
    pub closed spec fn wf(&self) -> bool {
        self.table.wf()
    }

    pub fn new() -> (r: Self)
        ensures
            r.wf(),
            r@ == Map::<FlowKey, FlowVal>::empty(),
    {
        CaptureState { table: FlowTable::new() }
    }

    /// Before each read: hand over the flows if the last hand-over was
    /// `elapsed_ns` nanoseconds ago and that is long enough.
    pub fn tick(&mut self, elapsed_ns: u128) -> (r: Option<FlowMap>)
        requires
            old(self).wf(),
        ensures
            final(self).wf(),
            r is Some <==> elapsed_ns >= DRAIN_INTERVAL_NS,
            r is Some <==> elapsed_ns >= 900_000_000,
            match r {
                Some(flows) => {
                    &&& flows.wf()
                    &&& flows@ == old(self)@
                    &&& final(self)@ == Map::<FlowKey, FlowVal>::empty()
                },
                None => final(self)@ == old(self)@,
            },
    {
        if elapsed_ns >= DRAIN_INTERVAL_NS {
            Some(self.table.drain())
        } else {
            None
        }
    }

    /// After each read: count the packet, if there is one to count.
    pub fn observe(&mut self, event: &CaptureEvent) -> (r: Result<(), TimeOverflow>)
        requires
            old(self).wf(),
        ensures
            final(self).wf(),
            final(self)@ == observed(old(self)@, *event),
            r is Err <==> counted(*event) is Some && added_by(*event) is None,
    {
        match *event {
            CaptureEvent::Packet { parsed: Some(p), sec, usec } => self.count(
                decode_packet(&p),
                sec,
                usec,
            ),
            _ => Ok(()),
        }
    }

    /// `observe` for a packet that has not been parsed yet: what `parse` makes
    /// of its bytes, captured with this data link type, is observed.
    pub fn observe_bytes<F: Fn(&[u8], i32) -> Option<ParsedPacket>>(
        &mut self,
        data: &[u8],
        datalink: i32,
        sec: u64,
        usec: u64,
        parse: F,
    ) -> (r: Result<(), TimeOverflow>)
        requires
            old(self).wf(),
            call_requires(parse, (data, datalink)),
        ensures
            final(self).wf(),
            exists|parsed: Option<ParsedPacket>| #[trigger]
                call_ensures(parse, (data, datalink), parsed) && {
                    let event = CaptureEvent::Packet { parsed, sec, usec };
                    &&& final(self)@ == observed(old(self)@, event)
                    &&& r is Err <==> counted(event) is Some && added_by(event) is None
                },
    {
        self.count(decode_bytes(data, datalink, parse), sec, usec)
    }

    /// Count a packet to its flow, if it belongs to one.
    fn count(&mut self, packet: Option<Decoded>, sec: u64, usec: u64) -> (r: Result<
        (),
        TimeOverflow,
    >)
        requires
            old(self).wf(),
        ensures
            final(self).wf(),
            final(self)@ == (match packet {
                Some(d) if time_ms(sec, usec) <= u64::MAX => recorded(
                    old(self)@,
                    as_packet(d, time_ms(sec, usec) as u64),
                ),
                _ => old(self)@,
            }),
            r is Err <==> packet is Some && time_ms(sec, usec) > u64::MAX,
    {
        match packet {
            Some(d) => match packet_time_ms(sec, usec) {
                Some(ts_ms) => {
                    self.table.record(d.key, d.bytes, d.src_mac, d.dst_mac, ts_ms);
                    Ok(())
                },
                None => Err(TimeOverflow),
            },
            None => Ok(()),
        }
    }
}

/// A packet that decodes hands on what it holds, field by field: the key has
/// its source address and source port as source, its destination address and
/// destination port as destination; bytes, MACs and VLAN are the packet's.
pub proof fn law_decoding_keeps_fields(p: ParsedPacket)
    requires
        decoded(p) is Some,
    ensures
        ({
            let d = decoded(p)->0;
            &&& match d.key.addrs {
                FlowAddrs::V4 { src, dst } => p.src_ip == IpAddr::V4(src) && p.dst_ip
                    == IpAddr::V4(dst),
                FlowAddrs::V6 { src, dst } => p.src_ip == IpAddr::V6(src) && p.dst_ip
                    == IpAddr::V6(dst),
            }
            &&& d.key.src_port == p.src_port
            &&& d.key.dst_port == p.dst_port
            &&& p.protocol.iana() == Some(d.key.protocol)
            &&& d.bytes == p.bytes
            &&& d.src_mac == p.src_mac
            &&& d.dst_mac == p.dst_mac
            &&& d.vlan_id == p.vlan_id
        }),
{
}

/// Swapping the two ends of a packet swaps the two ends of its flow, and
/// changes nothing else about the key.
pub proof fn law_reply_key(p: ParsedPacket, q: ParsedPacket)
    requires
        decoded(p) is Some,
        q.src_ip == p.dst_ip,
        q.dst_ip == p.src_ip,
        q.src_port == p.dst_port,
        q.dst_port == p.src_port,
        q.protocol == p.protocol,
    ensures
        decoded(q) is Some,
        decoded(q)->0.key.src_port == decoded(p)->0.key.dst_port,
        decoded(q)->0.key.dst_port == decoded(p)->0.key.src_port,
        decoded(q)->0.key.addrs.source() == decoded(p)->0.key.addrs.destination(),
        decoded(q)->0.key.addrs.destination() == decoded(p)->0.key.addrs.source(),
        decoded(q)->0.key.protocol == decoded(p)->0.key.protocol,
{
}

/// A packet time in milliseconds is the time rounded down: a millisecond more
/// would be past it. Only where the seconds alone do not fit a counter do they
/// stop at its end.
pub proof fn law_packet_time(sec: u64, usec: u64)
    ensures
        sec * 1000 <= u64::MAX ==> 1000 * time_ms(sec, usec) <= sec * 1_000_000 + usec < 1000 * (
        time_ms(sec, usec) + 1),
        sec * 1000 > u64::MAX ==> 1000 * (time_ms(sec, usec) - u64::MAX) <= usec < 1000 * (time_ms(
            sec,
            usec,
        ) - u64::MAX + 1),
{
}

/// What an event adds to the table, field by field: a packet that was parsed
/// and decodes is counted with its own key, bytes and MACs, at its own time if
/// that fits; every other event adds nothing.
pub proof fn law_event_adds(event: CaptureEvent)
    ensures
        event is Timeout || event is Failed ==> added_by(event) is None && counted(event) is None,
        event matches CaptureEvent::Packet { parsed, sec, usec } ==> {
            &&& parsed is None || decoded(parsed->0) is None ==> added_by(event) is None
                && counted(event) is None
            &&& parsed is Some && decoded(parsed->0) is Some ==> {
                let d = decoded(parsed->0)->0;
                &&& counted(event) is Some
                &&& time_ms(sec, usec) > u64::MAX ==> added_by(event) is None
                &&& time_ms(sec, usec) <= u64::MAX ==> {
                    &&& added_by(event) is Some
                    &&& added_by(event)->0.key == d.key
                    &&& added_by(event)->0.bytes == d.bytes
                    &&& added_by(event)->0.src_mac == d.src_mac
                    &&& added_by(event)->0.dst_mac == d.dst_mac
                    &&& added_by(event)->0.ts_ms == time_ms(sec, usec)
                }
            }
        },
{
}

/// An event that adds a packet changes the table as that packet does; one that
/// adds none leaves it alone. Bytes that the parser makes nothing of belong to
/// no flow, and others to the flow of what it made of them.
pub proof fn law_event_effect(m: Map<FlowKey, FlowVal>, event: CaptureEvent, p: ParsedPacket)
    ensures
        added_by(event) is Some ==> observed(m, event) == recorded(m, added_by(event)->0),
        added_by(event) is None ==> observed(m, event) == m,
        decoded_from(None) is None,
        decoded_from(Some(p)) == decoded(p),
{
}

} // verus!
