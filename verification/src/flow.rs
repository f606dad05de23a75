//! Flows: their keys, their counters, and the table that accumulates them.

use vstd::prelude::*;

use crate::addr::{IpAddr, Ipv4Addr, Ipv6Addr, SocketAddr};
use crate::direction::{direction_of, get_direction, FlowDirection};
use crate::flow_map::FlowMap;
use crate::protocol::Protocol;

verus! {

/// Source and destination of a flow, paired by family so that a key of mixed
/// families cannot be written down.
#[derive(Debug, Clone, Copy, PartialEq, Eq, Hash, Structural)]
#[allow(inconsistent_fields)]
pub enum FlowAddrs {
    V4 { src: Ipv4Addr, dst: Ipv4Addr },
    V6 { src: Ipv6Addr, dst: Ipv6Addr },
}

impl FlowAddrs {
    pub open spec fn source(self) -> IpAddr {
        match self {
            FlowAddrs::V4 { src, .. } => IpAddr::V4(src),
            FlowAddrs::V6 { src, .. } => IpAddr::V6(src),
        }
    }

    pub open spec fn destination(self) -> IpAddr {
        match self {
            FlowAddrs::V4 { dst, .. } => IpAddr::V4(dst),
            FlowAddrs::V6 { dst, .. } => IpAddr::V6(dst),
        }
    }

    pub fn src(self) -> (r: IpAddr)
        ensures
            r == self.source(),
    {
        match self {
            FlowAddrs::V4 { src, .. } => IpAddr::V4(src),
            FlowAddrs::V6 { src, .. } => IpAddr::V6(src),
        }
    }

    pub fn dst(self) -> (r: IpAddr)
        ensures
            r == self.destination(),
    {
        match self {
            FlowAddrs::V4 { dst, .. } => IpAddr::V4(dst),
            FlowAddrs::V6 { dst, .. } => IpAddr::V6(dst),
        }
    }
}

/// What makes two packets belong to one flow.
#[derive(Debug, Clone, Copy, PartialEq, Eq, Hash, Structural)]
pub struct FlowKey {
    pub addrs: FlowAddrs,
    pub src_port: Option<u16>,
    pub dst_port: Option<u16>,
    pub protocol: u8,
}

impl FlowKey {
    /// UDP to the collector's own address and port.
    pub open spec fn exports_to(self, collector: SocketAddr) -> bool {
        &&& Protocol::Udp.iana() == Some(self.protocol)
        &&& self.addrs.destination() == collector.addr()
        &&& self.dst_port == Some(collector.port_number())
    }

    /// True for a flow that looks like the agent's own export. Such flows are
    /// left out of the exported stream.
    pub fn is_self_export(&self, collector: SocketAddr) -> (r: bool)
        ensures
            r == self.exports_to(collector),
    {
        Protocol::from_number(self.protocol) == Some(Protocol::Udp) && self.addrs.dst()
            == collector.ip() && self.dst_port == Some(collector.port())
    }
}

/// The counters of a flow. A MAC is `None` when the link type carries none or
/// none was seen yet. `direction` is `None` while the flow accumulates and is
/// filled in after the table is drained. The two times are those of the first
/// and the last packet, in milliseconds since the UNIX epoch.
#[derive(Debug, Clone, Copy)]
pub struct FlowVal {
    pub bytes: u64,
    pub packets: u64,
    pub src_mac: Option<[u8; 6]>,
    pub dst_mac: Option<[u8; 6]>,
    pub direction: Option<FlowDirection>,
    pub first_seen_ms: u64,
    pub last_seen_ms: u64,
}

/// The sum, or the greatest number that a counter holds.
pub open spec fn saturated(n: nat) -> u64 {
    if n > u64::MAX {
        u64::MAX
    } else {
        n as u64
    }
}

/// What a packet adds to its flow.
pub struct Packet {
    pub key: FlowKey,
    pub bytes: u64,
    pub src_mac: Option<[u8; 6]>,
    pub dst_mac: Option<[u8; 6]>,
    pub ts_ms: u64,
}

/// The first of two that is there.
pub open spec fn earliest<T>(a: Option<T>, b: Option<T>) -> Option<T> {
    if a is Some {
        a
    } else {
        b
    }
}

impl FlowVal {
    /// A flow of one packet.
    pub open spec fn opened_by(p: Packet) -> FlowVal {
        FlowVal {
            bytes: p.bytes,
            packets: 1,
            src_mac: p.src_mac,
            dst_mac: p.dst_mac,
            direction: None,
            first_seen_ms: p.ts_ms,
            last_seen_ms: p.ts_ms,
        }
    }

    /// The flow with one packet more.
    pub open spec fn joined_by(self, p: Packet) -> FlowVal {
        FlowVal {
            bytes: saturated((self.bytes + p.bytes) as nat),
            packets: saturated((self.packets + 1) as nat),
            src_mac: earliest(self.src_mac, p.src_mac),
            dst_mac: earliest(self.dst_mac, p.dst_mac),
            direction: self.direction,
            first_seen_ms: if p.ts_ms < self.first_seen_ms {
                p.ts_ms
            } else {
                self.first_seen_ms
            },
            last_seen_ms: if p.ts_ms > self.last_seen_ms {
                p.ts_ms
            } else {
                self.last_seen_ms
            },
        }
    }

    /// The flow with the direction that its `key` has against the addresses
    /// `own`.
    pub open spec fn directed(self, key: FlowKey, own: Seq<IpAddr>) -> FlowVal {
        FlowVal {
            direction: direction_of(
                key.addrs.source(),
                key.addrs.destination(),
                key.src_port,
                key.dst_port,
                own,
            ),
            ..self
        }
    }

    /// Attach the direction of the flow with this `key`, given the addresses
    /// that the interface has now.
    pub fn with_direction(self, key: &FlowKey, my_addresses: &[IpAddr]) -> (r: Self)
        ensures
            r == self.directed(*key, my_addresses@),
    {
        let src: IpAddr = key.addrs.src();
        let dst: IpAddr = key.addrs.dst();
        let direction: Option<FlowDirection> = get_direction(
            &src,
            &dst,
            key.src_port,
            key.dst_port,
            my_addresses,
        );
        FlowVal { direction, ..self }
    }
}

/// The flows of `m` after one packet more.
pub open spec fn recorded(m: Map<FlowKey, FlowVal>, p: Packet) -> Map<FlowKey, FlowVal> {
    m.insert(
        p.key,
        if m.contains_key(p.key) {
            m[p.key].joined_by(p)
        } else {
            FlowVal::opened_by(p)
        },
    )
}

/// The flows of `m` after the packets `ps`, in this order.
pub open spec fn recorded_all(m: Map<FlowKey, FlowVal>, ps: Seq<Packet>) -> Map<FlowKey, FlowVal>
    decreases ps.len(),
{
    if ps.len() == 0 {
        m
    } else {
        recorded(recorded_all(m, ps.drop_last()), ps.last())
    }
}

/// A flow as it stands in the table: some packet opened it, its times are in
/// order, and its direction is still open.
pub open spec fn accumulating(v: FlowVal) -> bool {
    v.packets >= 1 && v.first_seen_ms <= v.last_seen_ms && v.direction is None
}

/// The flows seen since the table was last drained.
pub struct FlowTable {
    inner: FlowMap,
}

impl View for FlowTable {
    type V = Map<FlowKey, FlowVal>;

    closed spec fn view(&self) -> Map<FlowKey, FlowVal> {
        self.inner@
    }
}

impl FlowTable {
    pub closed spec fn wf(&self) -> bool {
        &&& self.inner.wf()
        &&& forall|k: FlowKey| #[trigger]
            self.inner@.contains_key(k) ==> accumulating(self.inner@[k])
    }

    /// Every flow in the table is still accumulating.
    pub proof fn law_flows_accumulate(&self, k: FlowKey)
        requires
            self.wf(),
            self@.contains_key(k),
        ensures
            accumulating(self@[k]),
    {
    }

    pub fn new() -> (r: Self)
        ensures
            r.wf(),
            r@ == Map::<FlowKey, FlowVal>::empty(),
    {
        FlowTable { inner: FlowMap::new() }
    }

    /// How many flows the table holds.
    pub fn len(&self) -> (r: usize)
        requires
            self.wf(),
        ensures
            r == self@.len(),
    {
        self.inner.len()
    }

    /// Count a packet of `bytes` bytes that arrived at `ts_ms` to its flow.
    pub fn record(
        &mut self,
        key: FlowKey,
        bytes: u64,
        src_mac: Option<[u8; 6]>,
        dst_mac: Option<[u8; 6]>,
        ts_ms: u64,
    )
        requires
            old(self).wf(),
        ensures
            final(self).wf(),
            final(self)@ == recorded(old(self)@, Packet { key, bytes, src_mac, dst_mac, ts_ms }),
    {
        let val: FlowVal = match self.inner.get(&key) {
            Some(old_val) => {
                let mut val: FlowVal = old_val;
                val.bytes = val.bytes.saturating_add(bytes);
                val.packets = val.packets.saturating_add(1);
                if val.src_mac.is_none() {
                    val.src_mac = src_mac;
                }
                if val.dst_mac.is_none() {
                    val.dst_mac = dst_mac;
                }
                if ts_ms < val.first_seen_ms {
                    val.first_seen_ms = ts_ms;
                }
                if ts_ms > val.last_seen_ms {
                    val.last_seen_ms = ts_ms;
                }
                val
            },
            None => FlowVal {
                bytes,
                packets: 1,
                src_mac,
                dst_mac,
                direction: None,
                first_seen_ms: ts_ms,
                last_seen_ms: ts_ms,
            },
        };
        self.inner.insert(key, val);
    }

    /// Hand over the accumulated flows. The table is empty afterwards; a flow
    /// that goes on starts afresh with its next packet.
    pub fn drain(&mut self) -> (r: FlowMap)
        requires
            old(self).wf(),
        ensures
            r.wf(),
            r@ == old(self)@,
            final(self).wf(),
            final(self)@ == Map::<FlowKey, FlowVal>::empty(),
    {
        let mut taken: FlowMap = FlowMap::new();
        std::mem::swap(&mut taken, &mut self.inner);
        taken
    }
}

/// The packets of one flow among `ps`, in their order.
pub open spec fn packets_of(ps: Seq<Packet>, k: FlowKey) -> Seq<Packet> {
    ps.filter(|p: Packet| p.key == k)
}

/// The bytes of `ps` together.
pub open spec fn total_bytes(ps: Seq<Packet>) -> nat
    decreases ps.len(),
{
    if ps.len() == 0 {
        0
    } else {
        total_bytes(ps.drop_last()) + ps.last().bytes as nat
    }
}

/// `found` is the first address among `macs` that is there at all.
pub open spec fn is_first_known(found: Option<[u8; 6]>, macs: Seq<Option<[u8; 6]>>) -> bool {
    if found is Some {
        exists|i: int|
            0 <= i < macs.len() && #[trigger] macs[i] == found && (forall|j: int|
                0 <= j < i ==> #[trigger] macs[j] is None)
    } else {
        forall|j: int| 0 <= j < macs.len() ==> #[trigger] macs[j] is None
    }
}

/// `v` is what there is to say of a flow made of the packets `ps`: their number
/// and their bytes together (as far as a counter goes), the first source and
/// the first destination MAC that any of them carried, and the lowest and the
/// highest of their times.
pub open spec fn summarises(v: FlowVal, ps: Seq<Packet>) -> bool {
    &&& v.bytes == saturated(total_bytes(ps))
    &&& v.packets == saturated(ps.len())
    &&& is_first_known(v.src_mac, Seq::new(ps.len(), |i: int| ps[i].src_mac))
    &&& is_first_known(v.dst_mac, Seq::new(ps.len(), |i: int| ps[i].dst_mac))
    &&& v.direction is None
    &&& forall|i: int|
        0 <= i < ps.len() ==> v.first_seen_ms <= (#[trigger] ps[i]).ts_ms <= v.last_seen_ms
    &&& exists|i: int| 0 <= i < ps.len() && (#[trigger] ps[i]).ts_ms == v.first_seen_ms
    &&& exists|i: int| 0 <= i < ps.len() && (#[trigger] ps[i]).ts_ms == v.last_seen_ms
}

proof fn lemma_first_known_push(
    found: Option<[u8; 6]>,
    macs: Seq<Option<[u8; 6]>>,
    more: Option<[u8; 6]>,
)
    requires
        is_first_known(found, macs),
    ensures
        is_first_known(earliest(found, more), macs.push(more)),
{
    let all = macs.push(more);
    if found is Some {
        let i = choose|i: int|
            0 <= i < macs.len() && #[trigger] macs[i] == found && (forall|j: int|
                0 <= j < i ==> #[trigger] macs[j] is None);
        assert(all[i] == found);
        assert forall|j: int| 0 <= j < i implies #[trigger] all[j] is None by {
            assert(macs[j] is None);
        }
    } else {
        assert forall|j: int| 0 <= j < macs.len() implies #[trigger] all[j] is None by {
            assert(macs[j] is None);
        }
        assert(all[macs.len() as int] == more);
    }
}

proof fn lemma_joined_summarises(v: FlowVal, ps: Seq<Packet>, p: Packet)
    requires
        summarises(v, ps),
    ensures
        summarises(v.joined_by(p), ps.push(p)),
{
    let all = ps.push(p);
    let w = v.joined_by(p);
    assert(all.drop_last() =~= ps);
    assert(all[ps.len() as int] == p);
    lemma_first_known_push(v.src_mac, Seq::new(ps.len(), |i: int| ps[i].src_mac), p.src_mac);
    assert(Seq::new(ps.len(), |i: int| ps[i].src_mac).push(p.src_mac) =~= Seq::new(
        all.len(),
        |i: int| all[i].src_mac,
    ));
    lemma_first_known_push(v.dst_mac, Seq::new(ps.len(), |i: int| ps[i].dst_mac), p.dst_mac);
    assert(Seq::new(ps.len(), |i: int| ps[i].dst_mac).push(p.dst_mac) =~= Seq::new(
        all.len(),
        |i: int| all[i].dst_mac,
    ));
    assert forall|i: int| 0 <= i < all.len() implies w.first_seen_ms <= (#[trigger] all[i]).ts_ms
        <= w.last_seen_ms by {
        if i < ps.len() {
            assert(v.first_seen_ms <= ps[i].ts_ms <= v.last_seen_ms);
        }
    }
    let a = choose|i: int| 0 <= i < ps.len() && (#[trigger] ps[i]).ts_ms == v.first_seen_ms;
    let b = choose|i: int| 0 <= i < ps.len() && (#[trigger] ps[i]).ts_ms == v.last_seen_ms;
    assert(all[a] == ps[a]);
    assert(all[b] == ps[b]);
}

proof fn lemma_opened_summarises(p: Packet)
    ensures
        summarises(FlowVal::opened_by(p), seq![p]),
{
    let ps = seq![p];
    assert(ps.drop_last() =~= Seq::<Packet>::empty());
    assert(ps[0] == p);
    reveal_with_fuel(total_bytes, 2);
    let s = Seq::new(ps.len(), |i: int| ps[i].src_mac);
    let d = Seq::new(ps.len(), |i: int| ps[i].dst_mac);
    assert(s[0] == p.src_mac);
    assert(d[0] == p.dst_mac);
}

/// A table that starts empty holds, after any sequence of packets, exactly the
/// flows that some packet belongs to, and each of them is the summary of its
/// own packets: no packet is lost, none is counted twice, and none is counted
/// to another flow.
pub proof fn law_table_summarises_packets(ps: Seq<Packet>, k: FlowKey)
    ensures
        recorded_all(Map::empty(), ps).contains_key(k) <==> packets_of(ps, k).len() > 0,
        packets_of(ps, k).len() > 0 ==> summarises(
            recorded_all(Map::empty(), ps)[k],
            packets_of(ps, k),
        ),
    decreases ps.len(),
{
    reveal(Seq::filter);
    if ps.len() > 0 {
        let before = ps.drop_last();
        let p = ps.last();
        law_table_summarises_packets(before, k);
        if p.key == k {
            assert(packets_of(ps, k) == packets_of(before, k).push(p));
            if packets_of(before, k).len() > 0 {
                lemma_joined_summarises(
                    recorded_all(Map::empty(), before)[k],
                    packets_of(before, k),
                    p,
                );
            } else {
                lemma_opened_summarises(p);
                assert(packets_of(ps, k) =~= seq![p]);
            }
        } else {
            assert(packets_of(ps, k) == packets_of(before, k));
        }
    }
}

proof fn lemma_total_bytes_concat(ps: Seq<Packet>, qs: Seq<Packet>)
    ensures
        total_bytes(ps + qs) == total_bytes(ps) + total_bytes(qs),
    decreases qs.len(),
{
    if qs.len() == 0 {
        assert(ps + qs =~= ps);
    } else {
        lemma_total_bytes_concat(ps, qs.drop_last());
        assert((ps + qs).drop_last() =~= ps + qs.drop_last());
    }
}

proof fn lemma_packets_of_concat(ps: Seq<Packet>, qs: Seq<Packet>, k: FlowKey)
    ensures
        packets_of(ps + qs, k) == packets_of(ps, k) + packets_of(qs, k),
    decreases qs.len(),
{
    reveal(Seq::filter);
    if qs.len() == 0 {
        assert(ps + qs =~= ps);
        assert(packets_of(ps, k) + packets_of(qs, k) =~= packets_of(ps, k));
    } else {
        lemma_packets_of_concat(ps, qs.drop_last(), k);
        assert((ps + qs).drop_last() =~= ps + qs.drop_last());
        assert((ps + qs).last() == qs.last());
        if qs.last().key == k {
            assert(packets_of(ps, k) + packets_of(qs.drop_last(), k).push(qs.last()) =~= (
            packets_of(ps, k) + packets_of(qs.drop_last(), k)).push(qs.last()));
        }
    }
}

/// A table that is drained after the packets `ps` and filled again by `qs`
/// hands over, in its two parts, what one table would hold of `ps + qs`: the
/// same flows, and (short of a full counter) the same packets and bytes.
pub proof fn law_drain_loses_nothing(ps: Seq<Packet>, qs: Seq<Packet>, k: FlowKey)
    ensures
        ({
            let first = recorded_all(Map::empty(), ps);
            let second = recorded_all(Map::empty(), qs);
            let whole = recorded_all(Map::empty(), ps + qs);
            &&& whole.contains_key(k) <==> first.contains_key(k) || second.contains_key(k)
            &&& first.contains_key(k) && second.contains_key(k) ==> {
                &&& whole[k].bytes == saturated((first[k].bytes + second[k].bytes) as nat)
                &&& whole[k].packets == saturated((first[k].packets + second[k].packets) as nat)
            }
            &&& first.contains_key(k) && !second.contains_key(k) ==> {
                &&& whole[k].bytes == first[k].bytes
                &&& whole[k].packets == first[k].packets
            }
            &&& !first.contains_key(k) && second.contains_key(k) ==> {
                &&& whole[k].bytes == second[k].bytes
                &&& whole[k].packets == second[k].packets
            }
        }),
{
    lemma_packets_of_concat(ps, qs, k);
    lemma_total_bytes_concat(packets_of(ps, k), packets_of(qs, k));
    law_table_summarises_packets(ps, k);
    law_table_summarises_packets(qs, k);
    law_table_summarises_packets(ps + qs, k);
}

/// Two packets of one flow may come in either order: the byte and packet
/// counts and the two times come out the same.
pub proof fn law_record_order(v: FlowVal, p: Packet, q: Packet)
    ensures
        ({
            let pq = v.joined_by(p).joined_by(q);
            let qp = v.joined_by(q).joined_by(p);
            &&& pq.bytes == qp.bytes
            &&& pq.packets == qp.packets
            &&& pq.first_seen_ms == qp.first_seen_ms
            &&& pq.last_seen_ms == qp.last_seen_ms
        }),
{
}

proof fn lemma_packets_of_multiset(ps: Seq<Packet>, k: FlowKey)
    ensures
        packets_of(ps, k).to_multiset() == ps.to_multiset().filter(|p: Packet| p.key == k),
    decreases ps.len(),
{
    broadcast use vstd::multiset::group_multiset_axioms;
    broadcast use vstd::seq_lib::group_to_multiset_ensures;

    reveal(Seq::filter);
    if ps.len() == 0 {
        assert(ps =~= Seq::empty());
        assert(packets_of(ps, k) =~= Seq::empty());
        assert(packets_of(ps, k).to_multiset() =~= ps.to_multiset().filter(
            |p: Packet| p.key == k,
        ));
    } else {
        let before = ps.drop_last();
        let p = ps.last();
        lemma_packets_of_multiset(before, k);
        assert(ps =~= before.push(p));
        assert(ps.to_multiset() == before.to_multiset().insert(p));
        if p.key == k {
            assert(packets_of(ps, k) == packets_of(before, k).push(p));
        } else {
            assert(packets_of(ps, k) == packets_of(before, k));
        }
        assert(packets_of(ps, k).to_multiset() =~= ps.to_multiset().filter(
            |p: Packet| p.key == k,
        ));
    }
}

proof fn lemma_total_bytes_any_order(ps: Seq<Packet>, qs: Seq<Packet>)
    requires
        ps.to_multiset() == qs.to_multiset(),
    ensures
        total_bytes(ps) == total_bytes(qs),
    decreases ps.len(),
{
    broadcast use vstd::multiset::group_multiset_axioms;
    broadcast use vstd::seq_lib::group_to_multiset_ensures;

    assert(ps.len() == ps.to_multiset().len());
    assert(qs.len() == qs.to_multiset().len());
    if ps.len() > 0 {
        let p = ps.last();
        let n = ps.len() - 1;
        assert(ps.contains(p));
        assert(qs.to_multiset().count(p) > 0);
        assert(qs.contains(p));
        let i = choose|i: int| 0 <= i < qs.len() && qs[i] == p;
        let rest = qs.remove(i);
        assert(ps.remove(n) =~= ps.drop_last());
        assert(ps.drop_last().to_multiset() =~= rest.to_multiset());
        lemma_total_bytes_any_order(ps.drop_last(), rest);
        let head = qs.take(i);
        let tail = qs.skip(i + 1);
        assert(rest =~= head + tail);
        assert(qs =~= head + seq![p] + tail);
        lemma_total_bytes_concat(head, tail);
        lemma_total_bytes_concat(head + seq![p], tail);
        lemma_total_bytes_concat(head, seq![p]);
        reveal_with_fuel(total_bytes, 2);
        assert(seq![p].drop_last() =~= Seq::<Packet>::empty());
        assert(total_bytes(seq![p]) == p.bytes);
    }
}

proof fn lemma_times_any_order(v: FlowVal, ps: Seq<Packet>, w: FlowVal, qs: Seq<Packet>)
    requires
        ps.to_multiset() == qs.to_multiset(),
        summarises(v, ps),
        summarises(w, qs),
    ensures
        v.first_seen_ms >= w.first_seen_ms,
        v.last_seen_ms <= w.last_seen_ms,
{
    broadcast use vstd::seq_lib::group_to_multiset_ensures;

    let a = choose|i: int| 0 <= i < ps.len() && (#[trigger] ps[i]).ts_ms == v.first_seen_ms;
    let b = choose|i: int| 0 <= i < ps.len() && (#[trigger] ps[i]).ts_ms == v.last_seen_ms;
    assert(ps.contains(ps[a]) && ps.contains(ps[b]));
    assert(qs.to_multiset().count(ps[a]) > 0 && qs.to_multiset().count(ps[b]) > 0);
    assert(qs.contains(ps[a]) && qs.contains(ps[b]));
}

/// The packets of a run may come in any order: the same flows come out, with
/// the same byte and packet counts and the same two times.
pub proof fn law_any_order(ps: Seq<Packet>, qs: Seq<Packet>, k: FlowKey)
    requires
        ps.to_multiset() == qs.to_multiset(),
    ensures
        ({
            let m = recorded_all(Map::empty(), ps);
            let n = recorded_all(Map::empty(), qs);
            &&& m.contains_key(k) <==> n.contains_key(k)
            &&& m.contains_key(k) ==> {
                &&& m[k].bytes == n[k].bytes
                &&& m[k].packets == n[k].packets
                &&& m[k].first_seen_ms == n[k].first_seen_ms
                &&& m[k].last_seen_ms == n[k].last_seen_ms
            }
        }),
{
    let a = packets_of(ps, k);
    let b = packets_of(qs, k);
    law_table_summarises_packets(ps, k);
    law_table_summarises_packets(qs, k);
    lemma_packets_of_multiset(ps, k);
    lemma_packets_of_multiset(qs, k);
    lemma_total_bytes_any_order(a, b);
    assert(a.len() == b.len()) by {
        broadcast use vstd::seq_lib::group_to_multiset_ensures;

        assert(a.len() == a.to_multiset().len());
        assert(b.len() == b.to_multiset().len());
    }
    if a.len() > 0 {
        let v = recorded_all(Map::empty(), ps)[k];
        let w = recorded_all(Map::empty(), qs)[k];
        lemma_times_any_order(v, a, w, b);
        lemma_times_any_order(w, b, v, a);
    }
}

/// A packet leaves every other flow as it was.
pub proof fn law_record_leaves_other_flows(m: Map<FlowKey, FlowVal>, p: Packet, k: FlowKey)
    requires
        k != p.key,
    ensures
        recorded(m, p).contains_key(k) == m.contains_key(k),
        m.contains_key(k) ==> recorded(m, p)[k] == m[k],
{
}

/// Counters never run backwards, and a MAC once known stays.
pub proof fn law_counters_grow(v: FlowVal, p: Packet)
    ensures
        v.joined_by(p).bytes >= v.bytes,
        v.joined_by(p).packets >= v.packets,
        v.src_mac is Some ==> v.joined_by(p).src_mac == v.src_mac,
        v.dst_mac is Some ==> v.joined_by(p).dst_mac == v.dst_mac,
        v.joined_by(p).first_seen_ms <= v.first_seen_ms,
        v.joined_by(p).last_seen_ms >= v.last_seen_ms,
{
}

/// The two ends of an address pair are the two addresses it was made of.
pub proof fn law_pair_ends(src4: Ipv4Addr, dst4: Ipv4Addr, src6: Ipv6Addr, dst6: Ipv6Addr)
    ensures
        (FlowAddrs::V4 { src: src4, dst: dst4 }).source() == IpAddr::V4(src4),
        (FlowAddrs::V4 { src: src4, dst: dst4 }).destination() == IpAddr::V4(dst4),
        (FlowAddrs::V6 { src: src6, dst: dst6 }).source() == IpAddr::V6(src6),
        (FlowAddrs::V6 { src: src6, dst: dst6 }).destination() == IpAddr::V6(dst6),
{
}

/// A flow is the agent's own export exactly when its protocol number is 17, it
/// goes to the collector's address, and it goes to the collector's port.
pub proof fn law_self_export_fields(k: FlowKey, collector: SocketAddr)
    ensures
        k.exports_to(collector) <==> k.protocol == 17 && match (k.addrs, collector) {
            (FlowAddrs::V4 { dst, .. }, SocketAddr::V4 { ip, port }) => dst.bits == ip.bits
                && k.dst_port == Some(port),
            (FlowAddrs::V6 { dst, .. }, SocketAddr::V6 { ip, port, .. }) => dst.bits == ip.bits
                && k.dst_port == Some(port),
            _ => false,
        },
{
}

/// A direction is attached for the flow's own source, destination and ports,
/// each in its place, and nothing else changes.
pub proof fn law_directed(v: FlowVal, k: FlowKey, own: Seq<IpAddr>)
    ensures
        v.directed(k, own).direction == (match k.addrs {
            FlowAddrs::V4 { src, dst } => direction_of(
                IpAddr::V4(src),
                IpAddr::V4(dst),
                k.src_port,
                k.dst_port,
                own,
            ),
            FlowAddrs::V6 { src, dst } => direction_of(
                IpAddr::V6(src),
                IpAddr::V6(dst),
                k.src_port,
                k.dst_port,
                own,
            ),
        }),
        v.directed(k, own).bytes == v.bytes,
        v.directed(k, own).packets == v.packets,
        v.directed(k, own).src_mac == v.src_mac,
        v.directed(k, own).dst_mac == v.dst_mac,
        v.directed(k, own).first_seen_ms == v.first_seen_ms,
        v.directed(k, own).last_seen_ms == v.last_seen_ms,
{
}

/// What one packet does to its flow. A flow that is not there yet is opened
/// with the packet's own bytes, MACs and time. In a flow that is there, the
/// bytes and the packet count grow by the packet's, short of the end of the
/// counter; a missing MAC is taken from the packet; the first time goes back to
/// an earlier packet's and the last time forward to a later one's.
pub proof fn law_record_step(m: Map<FlowKey, FlowVal>, p: Packet)
    ensures
        ({
            let w = recorded(m, p)[p.key];
            let v = m[p.key];
            &&& recorded(m, p).dom() == m.dom().insert(p.key)
            &&& !m.contains_key(p.key) ==> {
                &&& w.bytes == p.bytes
                &&& w.packets == 1
                &&& w.src_mac == p.src_mac
                &&& w.dst_mac == p.dst_mac
                &&& w.direction is None
                &&& w.first_seen_ms == p.ts_ms
                &&& w.last_seen_ms == p.ts_ms
            }
            &&& m.contains_key(p.key) ==> {
                &&& v.bytes + p.bytes <= u64::MAX ==> w.bytes == v.bytes + p.bytes
                &&& v.bytes + p.bytes > u64::MAX ==> w.bytes == u64::MAX
                &&& v.packets < u64::MAX ==> w.packets == v.packets + 1
                &&& v.packets == u64::MAX ==> w.packets == u64::MAX
                &&& v.src_mac is Some ==> w.src_mac == v.src_mac
                &&& v.src_mac is None ==> w.src_mac == p.src_mac
                &&& v.dst_mac is Some ==> w.dst_mac == v.dst_mac
                &&& v.dst_mac is None ==> w.dst_mac == p.dst_mac
                &&& w.direction == v.direction
                &&& w.first_seen_ms <= v.first_seen_ms && w.first_seen_ms <= p.ts_ms
                &&& w.first_seen_ms == v.first_seen_ms || w.first_seen_ms == p.ts_ms
                &&& w.last_seen_ms >= v.last_seen_ms && w.last_seen_ms >= p.ts_ms
                &&& w.last_seen_ms == v.last_seen_ms || w.last_seen_ms == p.ts_ms
            }
        }),
{
    assert(recorded(m, p).dom() =~= m.dom().insert(p.key));
}

proof fn lemma_total_is_fold(ps: Seq<Packet>)
    ensures
        total_bytes(ps) == ps.fold_left(0int, |n: int, p: Packet| n + p.bytes),
    decreases ps.len(),
{
    if ps.len() > 0 {
        lemma_total_is_fold(ps.drop_last());
    }
}

/// Whatever packets a table that starts empty has taken in: a flow is there
/// exactly when one of them had its key; its byte counter is the plain sum of
/// the bytes of the packets with its key, or the greatest counter value if that
/// is less; its packet counter is the number of those packets, bounded in the
/// same way; its times are the least and the greatest of theirs; and its MACs
/// are the first that any of them carried.
pub proof fn law_counters_are_sums(ps: Seq<Packet>, k: FlowKey)
    ensures
        ({
            let own = ps.filter(|p: Packet| p.key == k);
            let sum = own.fold_left(0int, |n: int, p: Packet| n + p.bytes);
            let m = recorded_all(Map::empty(), ps);
            let v = m[k];
            &&& m.contains_key(k) <==> exists|i: int| 0 <= i < ps.len() && (#[trigger] ps[i]).key == k
            &&& m.contains_key(k) ==> {
                &&& sum <= u64::MAX ==> v.bytes == sum
                &&& sum > u64::MAX ==> v.bytes == u64::MAX
                &&& own.len() <= u64::MAX ==> v.packets == own.len()
                &&& own.len() > u64::MAX ==> v.packets == u64::MAX
                &&& forall|i: int|
                    0 <= i < own.len() ==> v.first_seen_ms <= (#[trigger] own[i]).ts_ms
                        <= v.last_seen_ms
                &&& exists|i: int| 0 <= i < own.len() && (#[trigger] own[i]).ts_ms == v.first_seen_ms
                &&& exists|i: int| 0 <= i < own.len() && (#[trigger] own[i]).ts_ms == v.last_seen_ms
                &&& v.src_mac is Some ==> exists|i: int|
                    0 <= i < own.len() && (#[trigger] own[i]).src_mac == v.src_mac && (forall|j: int|
                        0 <= j < i ==> (#[trigger] own[j]).src_mac is None)
                &&& v.src_mac is None ==> forall|i: int|
                    0 <= i < own.len() ==> (#[trigger] own[i]).src_mac is None
                &&& v.dst_mac is Some ==> exists|i: int|
                    0 <= i < own.len() && (#[trigger] own[i]).dst_mac == v.dst_mac && (forall|j: int|
                        0 <= j < i ==> (#[trigger] own[j]).dst_mac is None)
                &&& v.dst_mac is None ==> forall|i: int|
                    0 <= i < own.len() ==> (#[trigger] own[i]).dst_mac is None
            }
        }),
{
    let own = packets_of(ps, k);
    let m = recorded_all(Map::empty(), ps);
    law_table_summarises_packets(ps, k);
    lemma_total_is_fold(own);
    lemma_has_packets(ps, k);
    assert(own == ps.filter(|p: Packet| p.key == k));
    if m.contains_key(k) {
        let v = m[k];
        let s = Seq::new(own.len(), |i: int| own[i].src_mac);
        let d = Seq::new(own.len(), |i: int| own[i].dst_mac);
        if v.src_mac is Some {
            let i = choose|i: int|
                0 <= i < s.len() && #[trigger] s[i] == v.src_mac && (forall|j: int|
                    0 <= j < i ==> #[trigger] s[j] is None);
            assert(own[i].src_mac == v.src_mac);
            assert forall|j: int| 0 <= j < i implies (#[trigger] own[j]).src_mac is None by {
                assert(s[j] is None);
            }
        } else {
            assert forall|j: int| 0 <= j < own.len() implies (
            #[trigger] own[j]).src_mac is None by {
                assert(s[j] is None);
            }
        }
        if v.dst_mac is Some {
            let i = choose|i: int|
                0 <= i < d.len() && #[trigger] d[i] == v.dst_mac && (forall|j: int|
                    0 <= j < i ==> #[trigger] d[j] is None);
            assert(own[i].dst_mac == v.dst_mac);
            assert forall|j: int| 0 <= j < i implies (#[trigger] own[j]).dst_mac is None by {
                assert(d[j] is None);
            }
        } else {
            assert forall|j: int| 0 <= j < own.len() implies (
            #[trigger] own[j]).dst_mac is None by {
                assert(d[j] is None);
            }
        }
    }
}

proof fn lemma_has_packets(ps: Seq<Packet>, k: FlowKey)
    ensures
        packets_of(ps, k).len() > 0 <==> exists|i: int|
            0 <= i < ps.len() && (#[trigger] ps[i]).key == k,
    decreases ps.len(),
{
    reveal(Seq::filter);
    if ps.len() > 0 {
        let before = ps.drop_last();
        lemma_has_packets(before, k);
        if ps.last().key == k {
            assert(ps[ps.len() - 1].key == k);
        } else if packets_of(ps, k).len() > 0 {
            let i = choose|i: int| 0 <= i < before.len() && (#[trigger] before[i]).key == k;
            assert(ps[i].key == k);
        } else if exists|i: int| 0 <= i < ps.len() && (#[trigger] ps[i]).key == k {
            let i = choose|i: int| 0 <= i < ps.len() && (#[trigger] ps[i]).key == k;
            assert(before[i].key == k);
        }
    }
}

} // verus!
