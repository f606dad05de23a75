//! What holds of every stream of datagrams that the encoder produces.

use vstd::prelude::*;

use crate::bytes::{be_bytes, be_value, law_be_round_trip, lemma_be_bytes_len, lemma_radix_values};
use crate::direction::FlowDirection;
use crate::flow::FlowAddrs;
use crate::ipfix::encode::{
    advanced, base_len, batches, batches_of, capacity, contents, data_set, direction_byte,
    law_advanced_twice, mac_bytes, message_bytes, messages, next_batch, port_or_zero, record_bytes, records_bytes, set_len,
    tail_bytes, taken, v4_flows, v6_flows, Batch, Flow, MTU,
};
use crate::ipfix::template::{
    law_template_set_len, template_set, FIELD_COUNT, IE_DESTINATION_IPV4_ADDRESS,
    IE_DESTINATION_IPV6_ADDRESS, IE_DESTINATION_MAC_ADDRESS, IE_DESTINATION_TRANSPORT_PORT,
    IE_DOT1Q_VLAN_ID, IE_ETHERNET_TYPE, IE_FLOW_DIRECTION, IE_FLOW_END_MILLISECONDS,
    IE_FLOW_START_MILLISECONDS, IE_LAYER2_OCTET_DELTA_COUNT, IE_PACKET_DELTA_COUNT,
    IE_PROTOCOL_IDENTIFIER, IE_SOURCE_IPV4_ADDRESS, IE_SOURCE_IPV6_ADDRESS, IE_SOURCE_MAC_ADDRESS,
    IE_SOURCE_TRANSPORT_PORT, TEMPLATE_SET_LEN, V4_FIELDS, V6_FIELDS,
};
use crate::ipfix::{
    RECORD_SIZE_V4, RECORD_SIZE_V6, SET_HEADER_LEN, TEMPLATE_ID_V4, TEMPLATE_ID_V6,
    TEMPLATE_SET_ID, VERSION,
};

verus! {

/// The IPv4 part of the batches, one after the other.
pub open spec fn all_v4(bs: Seq<Batch>) -> Seq<Flow>
    decreases bs.len(),
{
    if bs.len() == 0 {
        Seq::empty()
    } else {
        bs.first().v4 + all_v4(bs.drop_first())
    }
}

/// The IPv6 part of the batches, one after the other.
pub open spec fn all_v6(bs: Seq<Batch>) -> Seq<Flow>
    decreases bs.len(),
{
    if bs.len() == 0 {
        Seq::empty()
    } else {
        bs.first().v6 + all_v6(bs.drop_first())
    }
}

/// How many records the batches carry together.
pub open spec fn record_count(bs: Seq<Batch>) -> nat
    decreases bs.len(),
{
    if bs.len() == 0 {
        0
    } else {
        bs.first().count() + record_count(bs.drop_first())
    }
}

proof fn lemma_rest(v4: Seq<Flow>, v6: Seq<Flow>, template: bool, seq: u32)
    ensures
        ({
            let b = next_batch(v4, v6, template, seq);
            let bs = batches(v4, v6, template, seq);
            &&& v4.len() + v6.len() > 0 ==> {
                &&& b.count() > 0
                &&& bs.len() > 0
                &&& bs[0] == b
                &&& bs.drop_first() == batches(
                    v4.skip(b.v4.len() as int),
                    v6.skip(b.v6.len() as int),
                    false,
                    advanced(seq, b.count()),
                )
                &&& b.v4 == v4.take(b.v4.len() as int)
                &&& b.v6 == v6.take(b.v6.len() as int)
                &&& b.v4.len() <= v4.len()
                &&& b.v6.len() <= v6.len()
                &&& b.template == template
                &&& b.seq == seq
            }
            &&& v4.len() + v6.len() == 0 ==> bs.len() == 0
        }),
{
    reveal(next_batch);
    let b = next_batch(v4, v6, template, seq);
    let bs = batches(v4, v6, template, seq);
    if v4.len() + v6.len() > 0 {
        let rest = batches(
            v4.skip(b.v4.len() as int),
            v6.skip(b.v6.len() as int),
            false,
            advanced(seq, b.count()),
        );
        assert(bs == seq![b] + rest);
        assert(bs.drop_first() =~= rest);
        assert(b.v4 =~= v4.take(b.v4.len() as int));
        assert(b.v6 =~= v6.take(b.v6.len() as int));
    }
}

/// Every flow is exported exactly once, and the flows of each family go out in
/// the order in which they were given.
pub proof fn law_every_flow_once(v4: Seq<Flow>, v6: Seq<Flow>, template: bool, seq: u32)
    ensures
        all_v4(batches(v4, v6, template, seq)) == v4,
        all_v6(batches(v4, v6, template, seq)) == v6,
        record_count(batches(v4, v6, template, seq)) == v4.len() + v6.len(),
    decreases v4.len() + v6.len(),
{
    lemma_rest(v4, v6, template, seq);
    let b = next_batch(v4, v6, template, seq);
    if v4.len() + v6.len() > 0 {
        let r4 = v4.skip(b.v4.len() as int);
        let r6 = v6.skip(b.v6.len() as int);
        law_every_flow_once(r4, r6, false, advanced(seq, b.count()));
        assert(v4.take(b.v4.len() as int) + r4 =~= v4);
        assert(v6.take(b.v6.len() as int) + r6 =~= v6);
    } else {
        assert(v4 =~= Seq::empty());
        assert(v6 =~= Seq::empty());
    }
}

/// The template set goes out in the first datagram or not at all.
pub proof fn law_template_only_first(
    v4: Seq<Flow>,
    v6: Seq<Flow>,
    template: bool,
    seq: u32,
    i: int,
)
    requires
        0 <= i < batches(v4, v6, template, seq).len(),
    ensures
        batches(v4, v6, template, seq)[i].template == (template && i == 0),
    decreases v4.len() + v6.len(),
{
    lemma_rest(v4, v6, template, seq);
    let b = next_batch(v4, v6, template, seq);
    let bs = batches(v4, v6, template, seq);
    if i > 0 {
        assert(bs[i] == bs.drop_first()[i - 1]);
        law_template_only_first(
            v4.skip(b.v4.len() as int),
            v6.skip(b.v6.len() as int),
            false,
            advanced(seq, b.count()),
            i - 1,
        );
    }
}

/// A datagram's sequence number is the one that the stream started from,
/// advanced by the number of records in the datagrams before it.
pub proof fn law_sequence_counts_records(
    v4: Seq<Flow>,
    v6: Seq<Flow>,
    template: bool,
    seq: u32,
    i: int,
)
    requires
        0 <= i < batches(v4, v6, template, seq).len(),
    ensures
        batches(v4, v6, template, seq)[i].seq == advanced(
            seq,
            record_count(batches(v4, v6, template, seq).take(i)),
        ),
    decreases v4.len() + v6.len(),
{
    lemma_rest(v4, v6, template, seq);
    let b = next_batch(v4, v6, template, seq);
    let bs = batches(v4, v6, template, seq);
    if i > 0 {
        assert(bs[i] == bs.drop_first()[i - 1]);
        law_sequence_counts_records(
            v4.skip(b.v4.len() as int),
            v6.skip(b.v6.len() as int),
            false,
            advanced(seq, b.count()),
            i - 1,
        );
        assert(bs.take(i).drop_first() =~= bs.drop_first().take(i - 1));
        assert(bs.take(i).first() == b);
        law_advanced_twice(
            seq,
            b.count(),
            record_count(bs.drop_first().take(i - 1)),
        );
    } else {
        assert(bs.take(0) =~= Seq::empty());
    }
}

/// No datagram is longer than the MTU, and none goes out without a record.
pub proof fn law_datagram_size(
    v4: Seq<Flow>,
    v6: Seq<Flow>,
    template: bool,
    seq: u32,
    i: int,
)
    requires
        0 <= i < batches(v4, v6, template, seq).len(),
    ensures
        batches(v4, v6, template, seq)[i].len() <= MTU,
        batches(v4, v6, template, seq)[i].count() > 0,
    decreases v4.len() + v6.len(),
{
    lemma_rest(v4, v6, template, seq);
    let b = next_batch(v4, v6, template, seq);
    let bs = batches(v4, v6, template, seq);
    if i > 0 {
        assert(bs[i] == bs.drop_first()[i - 1]);
        law_datagram_size(
            v4.skip(b.v4.len() as int),
            v6.skip(b.v6.len() as int),
            false,
            advanced(seq, b.count()),
            i - 1,
        );
    } else {
        reveal(next_batch);
    }
}

/// Records wait for a later datagram only when there is no room for one more:
/// a datagram that leaves IPv4 records behind could not take another of them,
/// and the same holds of IPv6 records in the room that is left.
pub proof fn law_datagrams_are_filled(v4: Seq<Flow>, v6: Seq<Flow>, template: bool, seq: u32)
    ensures
        ({
            let b = next_batch(v4, v6, template, seq);
            let used = base_len(template) + set_len(b.v4.len(), RECORD_SIZE_V4);
            &&& b.v4.len() < v4.len() ==> base_len(template) + set_len(
                b.v4.len() + 1,
                RECORD_SIZE_V4,
            ) > MTU
            &&& b.v6.len() < v6.len() ==> used + set_len(b.v6.len() + 1, RECORD_SIZE_V6) > MTU
        }),
{
    reveal(next_batch);
}

/// All flows are of the family of the part in which they stand.
pub open spec fn sorted_by_family(b: Batch) -> bool {
    &&& forall|i: int| 0 <= i < b.v4.len() ==> (#[trigger] b.v4[i]).0.addrs is V4
    &&& forall|i: int| 0 <= i < b.v6.len() ==> (#[trigger] b.v6[i]).0.addrs is V6
}

/// A record takes the bytes that its family has.
pub proof fn law_record_size(flow: Flow)
    ensures
        record_bytes(flow).len() == (if flow.0.addrs is V4 {
            RECORD_SIZE_V4
        } else {
            RECORD_SIZE_V6
        }),
{
    broadcast use lemma_be_bytes_len;

    assert(mac_bytes(flow.1.src_mac).len() == 6);
    assert(mac_bytes(flow.1.dst_mac).len() == 6);
}

/// Of records of one size, each stands where its number says.
pub proof fn law_record_positions(flows: Seq<Flow>, size: nat)
    requires
        forall|i: int| 0 <= i < flows.len() ==> record_bytes(#[trigger] flows[i]).len() == size,
    ensures
        records_bytes(flows).len() == flows.len() * size,
        forall|i: int|
            0 <= i < flows.len() ==> records_bytes(flows).subrange(i * size, i * size + size)
                == record_bytes(#[trigger] flows[i]),
    decreases flows.len(),
{
    if flows.len() > 0 {
        let init = flows.drop_last();
        let n = init.len();
        law_record_positions(init, size);
        assert(flows.len() * size == n * size + size) by (nonlinear_arith)
            requires
                flows.len() == n + 1,
        ;
        assert forall|i: int| 0 <= i < flows.len() implies records_bytes(flows).subrange(
            i * size,
            i * size + size,
        ) == record_bytes(#[trigger] flows[i]) by {
            if i < n {
                assert(0 <= i * size && i * size + size <= n * size) by (nonlinear_arith)
                    requires
                        0 <= i < n,
                        size >= 0,
                ;
                assert(records_bytes(init).subrange(i * size, i * size + size) == record_bytes(
                    init[i],
                ));
                assert(records_bytes(flows).subrange(i * size, i * size + size) =~= records_bytes(
                    init,
                ).subrange(i * size, i * size + size));
            } else {
                assert(0 <= n * size) by (nonlinear_arith);
                assert(records_bytes(flows).subrange(i * size, i * size + size) =~= record_bytes(
                    flows.last(),
                ));
            }
        }
    }
}

proof fn lemma_part_sizes(b: Batch)
    requires
        sorted_by_family(b),
    ensures
        records_bytes(b.v4).len() == b.v4.len() * RECORD_SIZE_V4,
        records_bytes(b.v6).len() == b.v6.len() * RECORD_SIZE_V6,
        data_set(TEMPLATE_ID_V4, b.v4, RECORD_SIZE_V4).len() == set_len(
            b.v4.len(),
            RECORD_SIZE_V4,
        ),
        data_set(TEMPLATE_ID_V6, b.v6, RECORD_SIZE_V6).len() == set_len(
            b.v6.len(),
            RECORD_SIZE_V6,
        ),
{
    broadcast use lemma_be_bytes_len;

    assert forall|i: int| 0 <= i < b.v4.len() implies record_bytes(#[trigger] b.v4[i]).len()
        == RECORD_SIZE_V4 by {
        law_record_size(b.v4[i]);
    }
    assert forall|i: int| 0 <= i < b.v6.len() implies record_bytes(#[trigger] b.v6[i]).len()
        == RECORD_SIZE_V6 by {
        law_record_size(b.v6[i]);
    }
    law_record_positions(b.v4, RECORD_SIZE_V4 as nat);
    law_record_positions(b.v6, RECORD_SIZE_V6 as nat);
}

/// A datagram is as long as its batch says.
pub proof fn law_message_len(b: Batch, now_unix: u32, odid: u32)
    requires
        sorted_by_family(b),
    ensures
        message_bytes(b, now_unix, odid).len() == b.len(),
{
    broadcast use lemma_be_bytes_len;

    reveal(message_bytes);
    law_template_set_len();
    lemma_part_sizes(b);
}

/// The header of a datagram can be read: version, the datagram's own length,
/// export time, sequence number and observation domain.
pub proof fn law_header_fields(b: Batch, now_unix: u32, odid: u32)
    requires
        b.len() <= MTU,
    ensures
        message_bytes(b, now_unix, odid).len() >= 16,
        be_value(message_bytes(b, now_unix, odid).subrange(0, 2)) == VERSION,
        be_value(message_bytes(b, now_unix, odid).subrange(2, 4)) == b.len(),
        be_value(message_bytes(b, now_unix, odid).subrange(4, 8)) == now_unix,
        be_value(message_bytes(b, now_unix, odid).subrange(8, 12)) == b.seq,
        be_value(message_bytes(b, now_unix, odid).subrange(12, 16)) == odid,
{
    broadcast use lemma_be_bytes_len;

    reveal(message_bytes);
    lemma_radix_values();
    law_be_round_trip(VERSION as nat, 2);
    law_be_round_trip(b.len(), 2);
    law_be_round_trip(now_unix as nat, 4);
    law_be_round_trip(b.seq as nat, 4);
    law_be_round_trip(odid as nat, 4);
    let m = message_bytes(b, now_unix, odid);
    assert(m.subrange(0, 2) =~= be_bytes(VERSION as nat, 2));
    assert(m.subrange(2, 4) =~= be_bytes(b.len(), 2));
    assert(m.subrange(4, 8) =~= be_bytes(now_unix as nat, 4));
    assert(m.subrange(8, 12) =~= be_bytes(b.seq as nat, 4));
    assert(m.subrange(12, 16) =~= be_bytes(odid as nat, 4));
}

/// The sets of a message body as a reader finds them: from each set header the
/// id and, by the length in it, the payload and the place of the next set.
/// `None` if the lengths do not work out.
pub open spec fn sets_of(body: Seq<u8>) -> Option<Seq<(nat, Seq<u8>)>>
    decreases body.len(),
{
    if body.len() == 0 {
        Some(Seq::empty())
    } else if body.len() < SET_HEADER_LEN {
        None
    } else {
        let len = be_value(body.subrange(2, 4)) as int;
        if len < SET_HEADER_LEN || len > body.len() {
            None
        } else {
            match sets_of(body.skip(len)) {
                Some(more) => Some(
                    seq![(be_value(body.subrange(0, 2)), body.subrange(4, len))] + more,
                ),
                None => None,
            }
        }
    }
}

proof fn lemma_set_found(id: u16, len: nat, payload: Seq<u8>, more: Seq<u8>)
    requires
        len == SET_HEADER_LEN + payload.len(),
        len <= u16::MAX,
        sets_of(more) is Some,
    ensures
        sets_of(be_bytes(id as nat, 2) + be_bytes(len, 2) + payload + more) == Some(
            seq![(id as nat, payload)] + sets_of(more)->0,
        ),
{
    broadcast use lemma_be_bytes_len;

    let body = be_bytes(id as nat, 2) + be_bytes(len, 2) + payload + more;
    lemma_radix_values();
    law_be_round_trip(id as nat, 2);
    law_be_round_trip(len, 2);
    assert(body.subrange(0, 2) =~= be_bytes(id as nat, 2));
    assert(body.subrange(2, 4) =~= be_bytes(len, 2));
    assert(body.subrange(4, len as int) =~= payload);
    assert(body.skip(len as int) =~= more);
}

/// The sets that a batch is meant to be read as: the template set if it has
/// one, then the records of each family that it has any of.
pub open spec fn intended_sets(b: Batch) -> Seq<(nat, Seq<u8>)> {
    (if b.template {
        seq![(TEMPLATE_SET_ID as nat, template_set().skip(SET_HEADER_LEN as int))]
    } else {
        Seq::empty()
    }) + (if b.v4.len() > 0 {
        seq![(TEMPLATE_ID_V4 as nat, records_bytes(b.v4))]
    } else {
        Seq::empty()
    }) + (if b.v6.len() > 0 {
        seq![(TEMPLATE_ID_V6 as nat, records_bytes(b.v6))]
    } else {
        Seq::empty()
    })
}

proof fn lemma_data_set_found(id: u16, flows: Seq<Flow>, size: u16, more: Seq<u8>)
    requires
        records_bytes(flows).len() == flows.len() * size,
        set_len(flows.len(), size) <= MTU,
        sets_of(more) is Some,
    ensures
        sets_of(data_set(id, flows, size) + more) == Some(
            (if flows.len() > 0 {
                seq![(id as nat, records_bytes(flows))]
            } else {
                Seq::empty()
            }) + sets_of(more)->0,
        ),
{
    if flows.len() > 0 {
        lemma_set_found(id, set_len(flows.len(), size), records_bytes(flows), more);
    } else {
        assert(data_set(id, flows, size) + more =~= more);
        assert(Seq::<(nat, Seq<u8>)>::empty() + sets_of(more)->0 =~= sets_of(more)->0);
    }
}

/// A reader that walks a datagram from set to set finds what was put into it:
/// the template set, the IPv4 records and the IPv6 records, each behind its id,
/// and nothing else.
pub proof fn law_sets_read_back(b: Batch, now_unix: u32, odid: u32)
    requires
        sorted_by_family(b),
        b.len() <= MTU,
    ensures
        sets_of(message_bytes(b, now_unix, odid).skip(16)) == Some(intended_sets(b)),
{
    broadcast use lemma_be_bytes_len;

    reveal(message_bytes);
    lemma_part_sizes(b);
    law_template_set_len();
    let empty = Seq::<u8>::empty();
    let none = Seq::<(nat, Seq<u8>)>::empty();
    let s4 = data_set(TEMPLATE_ID_V4, b.v4, RECORD_SIZE_V4);
    let s6 = data_set(TEMPLATE_ID_V6, b.v6, RECORD_SIZE_V6);
    assert(sets_of(empty) == Some(none));
    lemma_data_set_found(TEMPLATE_ID_V6, b.v6, RECORD_SIZE_V6, empty);
    assert(s6 + empty =~= s6);
    lemma_data_set_found(TEMPLATE_ID_V4, b.v4, RECORD_SIZE_V4, s6);
    let body = message_bytes(b, now_unix, odid).skip(16);
    if b.template {
        let t = template_set();
        let payload = t.skip(SET_HEADER_LEN as int);
        assert(t.take(4) =~= be_bytes(TEMPLATE_SET_ID as nat, 2) + be_bytes(
            TEMPLATE_SET_LEN as nat,
            2,
        ));
        assert(t =~= t.take(4) + payload);
        lemma_set_found(TEMPLATE_SET_ID, TEMPLATE_SET_LEN as nat, payload, s4 + s6);
        assert(body =~= t.take(4) + payload + (s4 + s6));
    } else {
        assert(body =~= s4 + s6);
    }
    assert(sets_of(body)->0 =~= intended_sets(b));
}

/// Where the fields of a record stand. `a` is the length of an address of the
/// record's family.
pub open spec fn record_reads(r: Seq<u8>, a: int, flow: Flow) -> bool {
    let (key, val) = flow;
    &&& be_value(r.subrange(2 * a, 2 * a + 2)) == port_or_zero(key.src_port)
    &&& be_value(r.subrange(2 * a + 2, 2 * a + 4)) == port_or_zero(key.dst_port)
    &&& r[2 * a + 4] == key.protocol
    &&& r.subrange(2 * a + 5, 2 * a + 11) == mac_bytes(val.src_mac)
    &&& r.subrange(2 * a + 11, 2 * a + 17) == mac_bytes(val.dst_mac)
    &&& r[2 * a + 17] == direction_byte(val.direction)
    &&& be_value(r.subrange(2 * a + 18, 2 * a + 26)) == val.bytes
    &&& be_value(r.subrange(2 * a + 26, 2 * a + 34)) == val.packets
    &&& be_value(r.subrange(2 * a + 34, 2 * a + 42)) == val.first_seen_ms
    &&& be_value(r.subrange(2 * a + 42, 2 * a + 50)) == val.last_seen_ms
}

proof fn lemma_tail_reads(flow: Flow, r: Seq<u8>, a: int)
    requires
        0 <= a,
        r.len() == 2 * a + 50,
        r.skip(2 * a) == tail_bytes(flow.0, flow.1),
    ensures
        record_reads(r, a, flow),
{
    broadcast use lemma_be_bytes_len;

    let (key, val) = flow;
    let t = tail_bytes(key, val);
    let s = mac_bytes(val.src_mac);
    let d = mac_bytes(val.dst_mac);
    assert(s.len() == 6 && d.len() == 6);
    lemma_radix_values();
    law_be_round_trip(port_or_zero(key.src_port) as nat, 2);
    law_be_round_trip(port_or_zero(key.dst_port) as nat, 2);
    law_be_round_trip(val.bytes as nat, 8);
    law_be_round_trip(val.packets as nat, 8);
    law_be_round_trip(val.first_seen_ms as nat, 8);
    law_be_round_trip(val.last_seen_ms as nat, 8);
    assert forall|i: int, j: int| 0 <= i <= j <= 50 implies #[trigger] r.subrange(
        2 * a + i,
        2 * a + j,
    ) == t.subrange(i, j) by {
        assert(r.subrange(2 * a + i, 2 * a + j) =~= r.skip(2 * a).subrange(i, j));
    }
    assert(r.subrange(2 * a + 0, 2 * a + 2) == t.subrange(0, 2));
    assert(t.subrange(0, 2) =~= be_bytes(port_or_zero(key.src_port) as nat, 2));
    assert(t.subrange(2, 4) =~= be_bytes(port_or_zero(key.dst_port) as nat, 2));
    assert(t[4] == key.protocol);
    assert(r[2 * a + 4] == r.skip(2 * a)[4]);
    assert(t.subrange(5, 11) =~= s);
    assert(t.subrange(11, 17) =~= d);
    assert(t[17] == direction_byte(val.direction));
    assert(r[2 * a + 17] == r.skip(2 * a)[17]);
    assert(t.subrange(18, 26) =~= be_bytes(val.bytes as nat, 8));
    assert(t.subrange(26, 34) =~= be_bytes(val.packets as nat, 8));
    assert(t.subrange(34, 42) =~= be_bytes(val.first_seen_ms as nat, 8));
    assert(t.subrange(42, 50) =~= be_bytes(val.last_seen_ms as nat, 8));
}

/// The fields of a record can be read back from their places.
pub proof fn law_record_layout(flow: Flow)
    ensures
        match flow.0.addrs {
            FlowAddrs::V4 { src, dst } => {
                &&& be_value(record_bytes(flow).subrange(0, 4)) == src.bits
                &&& be_value(record_bytes(flow).subrange(4, 8)) == dst.bits
                &&& record_reads(record_bytes(flow), 4, flow)
            },
            FlowAddrs::V6 { src, dst } => {
                &&& be_value(record_bytes(flow).subrange(0, 16)) == src.bits
                &&& be_value(record_bytes(flow).subrange(16, 32)) == dst.bits
                &&& record_reads(record_bytes(flow), 16, flow)
            },
        },
{
    broadcast use lemma_be_bytes_len;

    law_record_size(flow);
    lemma_radix_values();
    let r = record_bytes(flow);
    match flow.0.addrs {
        FlowAddrs::V4 { src, dst } => {
            law_be_round_trip(src.bits as nat, 4);
            law_be_round_trip(dst.bits as nat, 4);
            assert(r.subrange(0, 4) =~= be_bytes(src.bits as nat, 4));
            assert(r.subrange(4, 8) =~= be_bytes(dst.bits as nat, 4));
            assert(r.skip(8) =~= tail_bytes(flow.0, flow.1));
            lemma_tail_reads(flow, r, 4);
        },
        FlowAddrs::V6 { src, dst } => {
            law_be_round_trip(src.bits as nat, 16);
            law_be_round_trip(dst.bits as nat, 16);
            assert(r.subrange(0, 16) =~= be_bytes(src.bits as nat, 16));
            assert(r.subrange(16, 32) =~= be_bytes(dst.bits as nat, 16));
            assert(r.skip(32) =~= tail_bytes(flow.0, flow.1));
            lemma_tail_reads(flow, r, 16);
        },
    }
}

/// Two flows agree in all that is exported: addresses, protocol, direction,
/// counters and times, and ports and MACs up to the zeros that stand for
/// missing ones.
pub open spec fn exported_alike(f: Flow, g: Flow) -> bool {
    &&& f.0.addrs == g.0.addrs
    &&& port_or_zero(f.0.src_port) == port_or_zero(g.0.src_port)
    &&& port_or_zero(f.0.dst_port) == port_or_zero(g.0.dst_port)
    &&& f.0.protocol == g.0.protocol
    &&& mac_bytes(f.1.src_mac) == mac_bytes(g.1.src_mac)
    &&& mac_bytes(f.1.dst_mac) == mac_bytes(g.1.dst_mac)
    &&& f.1.direction == g.1.direction
    &&& f.1.bytes == g.1.bytes
    &&& f.1.packets == g.1.packets
    &&& f.1.first_seen_ms == g.1.first_seen_ms
    &&& f.1.last_seen_ms == g.1.last_seen_ms
}

/// Two flows have the same record exactly when they agree in all that is
/// exported: nothing else about a flow is lost.
pub proof fn law_record_identifies_flow(f: Flow, g: Flow)
    ensures
        record_bytes(f) == record_bytes(g) <==> exported_alike(f, g),
{
    law_record_size(f);
    law_record_size(g);
    law_record_layout(f);
    law_record_layout(g);
}

/// Whether records carry an element of the templates.
pub open spec fn carried(element: u16) -> bool {
    element != IE_DOT1Q_VLAN_ID && element != IE_ETHERNET_TYPE
}

/// The bytes of an information element for a flow.
pub open spec fn element_bytes(element: u16, flow: Flow) -> Seq<u8> {
    let (key, val) = flow;
    if element == IE_SOURCE_IPV4_ADDRESS || element == IE_SOURCE_IPV6_ADDRESS {
        match key.addrs {
            FlowAddrs::V4 { src, .. } => be_bytes(src.bits as nat, 4),
            FlowAddrs::V6 { src, .. } => be_bytes(src.bits as nat, 16),
        }
    } else if element == IE_DESTINATION_IPV4_ADDRESS || element == IE_DESTINATION_IPV6_ADDRESS {
        match key.addrs {
            FlowAddrs::V4 { dst, .. } => be_bytes(dst.bits as nat, 4),
            FlowAddrs::V6 { dst, .. } => be_bytes(dst.bits as nat, 16),
        }
    } else if element == IE_SOURCE_TRANSPORT_PORT {
        be_bytes(port_or_zero(key.src_port) as nat, 2)
    } else if element == IE_DESTINATION_TRANSPORT_PORT {
        be_bytes(port_or_zero(key.dst_port) as nat, 2)
    } else if element == IE_PROTOCOL_IDENTIFIER {
        seq![key.protocol]
    } else if element == IE_SOURCE_MAC_ADDRESS {
        mac_bytes(val.src_mac)
    } else if element == IE_DESTINATION_MAC_ADDRESS {
        mac_bytes(val.dst_mac)
    } else if element == IE_FLOW_DIRECTION {
        seq![direction_byte(val.direction)]
    } else if element == IE_LAYER2_OCTET_DELTA_COUNT {
        be_bytes(val.bytes as nat, 8)
    } else if element == IE_PACKET_DELTA_COUNT {
        be_bytes(val.packets as nat, 8)
    } else if element == IE_FLOW_START_MILLISECONDS {
        be_bytes(val.first_seen_ms as nat, 8)
    } else if element == IE_FLOW_END_MILLISECONDS {
        be_bytes(val.last_seen_ms as nat, 8)
    } else {
        Seq::empty()
    }
}

/// The carried elements of a template for a flow, in the order of the template.
pub open spec fn carried_bytes(fields: Seq<(u16, u16)>, flow: Flow) -> Seq<u8>
    decreases fields.len(),
{
    if fields.len() == 0 {
        Seq::empty()
    } else {
        let before = carried_bytes(fields.drop_last(), flow);
        if carried(fields.last().0) {
            before + element_bytes(fields.last().0, flow)
        } else {
            before
        }
    }
}

/// The template of a flow's family.
pub open spec fn fields_for(flow: Flow) -> Seq<(u16, u16)> {
    if flow.0.addrs is V4 {
        V4_FIELDS@
    } else {
        V6_FIELDS@
    }
}

/// A record holds the elements of its family's template in the order of the
/// template, each with the length that the template gives it. Only
/// `dot1qVlanId` and `ethernetType` are left out.
pub proof fn law_record_follows_template(flow: Flow)
    ensures
        record_bytes(flow) == carried_bytes(fields_for(flow), flow),
        forall|i: int|
            0 <= i < FIELD_COUNT && carried((#[trigger] fields_for(flow)[i]).0) ==> element_bytes(
                fields_for(flow)[i].0,
                flow,
            ).len() == fields_for(flow)[i].1,
{
    broadcast use lemma_be_bytes_len;

    reveal_with_fuel(carried_bytes, 15);
    assert(mac_bytes(flow.1.src_mac).len() == 6);
    assert(mac_bytes(flow.1.dst_mac).len() == 6);
    assert(record_bytes(flow) =~= carried_bytes(fields_for(flow), flow));
}

/// A datagram starts, behind its header, with the id of the template set
/// exactly when it carries the template set.
pub proof fn law_template_set_seen(b: Batch, now_unix: u32, odid: u32)
    requires
        b.count() > 0,
    ensures
        message_bytes(b, now_unix, odid).len() >= 18,
        message_bytes(b, now_unix, odid).subrange(16, 18) == seq![0u8, 2u8] <==> b.template,
{
    broadcast use lemma_be_bytes_len;

    reveal(message_bytes);
    reveal_with_fuel(be_bytes, 3);
    law_template_set_len();
    let m = message_bytes(b, now_unix, odid);
    let id = if b.template {
        TEMPLATE_SET_ID
    } else if b.v4.len() > 0 {
        TEMPLATE_ID_V4
    } else {
        TEMPLATE_ID_V6
    };
    assert(m.subrange(16, 18) =~= be_bytes(id as nat, 2));
    assert(be_bytes(id as nat, 2)[0] == id / 256);
    assert(be_bytes(TEMPLATE_SET_ID as nat, 2) =~= seq![0u8, 2u8]);
}

proof fn lemma_families(flows: Seq<Flow>)
    ensures
        v4_flows(flows).len() + v6_flows(flows).len() == flows.len(),
        forall|i: int|
            0 <= i < v4_flows(flows).len() ==> (#[trigger] v4_flows(flows)[i]).0.addrs is V4,
        forall|i: int|
            0 <= i < v6_flows(flows).len() ==> (#[trigger] v6_flows(flows)[i]).0.addrs is V6,
    decreases flows.len(),
{
    reveal(Seq::filter);
    if flows.len() > 0 {
        lemma_families(flows.drop_last());
    }
}

proof fn lemma_batches_sorted(v4: Seq<Flow>, v6: Seq<Flow>, template: bool, seq: u32, i: int)
    requires
        forall|j: int| 0 <= j < v4.len() ==> (#[trigger] v4[j]).0.addrs is V4,
        forall|j: int| 0 <= j < v6.len() ==> (#[trigger] v6[j]).0.addrs is V6,
        0 <= i < batches(v4, v6, template, seq).len(),
    ensures
        sorted_by_family(batches(v4, v6, template, seq)[i]),
    decreases v4.len() + v6.len(),
{
    lemma_rest(v4, v6, template, seq);
    let b = next_batch(v4, v6, template, seq);
    let bs = batches(v4, v6, template, seq);
    if i > 0 {
        assert(bs[i] == bs.drop_first()[i - 1]);
        lemma_batches_sorted(
            v4.skip(b.v4.len() as int),
            v6.skip(b.v6.len() as int),
            false,
            advanced(seq, b.count()),
            i - 1,
        );
    } else {
        assert(bs[0] == b);
        assert forall|j: int| 0 <= j < b.v4.len() implies (#[trigger] b.v4[j]).0.addrs is V4 by {
            assert(b.v4[j] == v4[j]);
        }
        assert forall|j: int| 0 <= j < b.v6.len() implies (#[trigger] b.v6[j]).0.addrs is V6 by {
            assert(b.v6[j] == v6[j]);
        }
    }
}

/// What the datagrams carry does not depend on the sequence number that the
/// stream starts from.
pub proof fn law_split_ignores_sequence(
    v4: Seq<Flow>,
    v6: Seq<Flow>,
    template: bool,
    seq: u32,
    other_seq: u32,
)
    ensures
        ({
            let bs = batches(v4, v6, template, seq);
            let cs = batches(v4, v6, template, other_seq);
            &&& bs.len() == cs.len()
            &&& forall|i: int|
                0 <= i < bs.len() ==> (#[trigger] bs[i]) == (Batch { seq: bs[i].seq, ..cs[i] })
        }),
    decreases v4.len() + v6.len(),
{
    lemma_rest(v4, v6, template, seq);
    lemma_rest(v4, v6, template, other_seq);
    let bs = batches(v4, v6, template, seq);
    let cs = batches(v4, v6, template, other_seq);
    if v4.len() + v6.len() > 0 {
        let b = next_batch(v4, v6, template, seq);
        let c = next_batch(v4, v6, template, other_seq);
        assert(b == (Batch { seq, ..c })) by {
            reveal(next_batch);
        }
        law_split_ignores_sequence(
            v4.skip(b.v4.len() as int),
            v6.skip(b.v6.len() as int),
            false,
            advanced(seq, b.count()),
            advanced(other_seq, b.count()),
        );
        assert forall|i: int| 0 <= i < bs.len() implies (#[trigger] bs[i]) == (Batch {
            seq: bs[i].seq,
            ..cs[i]
        }) by {
            if i > 0 {
                assert(bs[i] == bs.drop_first()[i - 1]);
                assert(cs[i] == cs.drop_first()[i - 1]);
            }
        }
    }
}

/// The sequence number, the export time and the observation domain change
/// nothing in a datagram but bytes 4 to 16.
pub proof fn law_only_header_differs(
    b: Batch,
    other_seq: u32,
    now_unix: u32,
    other_unix: u32,
    odid: u32,
    other_odid: u32,
)
    ensures
        ({
            let m = message_bytes(b, now_unix, odid);
            let n = message_bytes(Batch { seq: other_seq, ..b }, other_unix, other_odid);
            &&& m.len() == n.len()
            &&& m.take(4) == n.take(4)
            &&& m.skip(16) == n.skip(16)
        }),
{
    broadcast use lemma_be_bytes_len;

    reveal(message_bytes);
    let m = message_bytes(b, now_unix, odid);
    let n = message_bytes(Batch { seq: other_seq, ..b }, other_unix, other_odid);
    assert(m.take(4) =~= n.take(4));
    assert(m.skip(16) =~= n.skip(16));
}

/// The datagrams of `flows` carry each flow once, in its family's order, and
/// advance the sequence number by exactly the number of flows.
pub proof fn law_export_is_complete(flows: Seq<Flow>, template: bool, seq: u32)
    ensures
        all_v4(batches_of(flows, template, seq)) == v4_flows(flows),
        all_v6(batches_of(flows, template, seq)) == v6_flows(flows),
        all_v4(batches_of(flows, template, seq)) == flows.filter(|f: Flow| f.0.addrs is V4),
        all_v6(batches_of(flows, template, seq)) == flows.filter(|f: Flow| f.0.addrs is V6),
        record_count(batches_of(flows, template, seq)) == flows.len(),
{
    lemma_families(flows);
    law_every_flow_once(v4_flows(flows), v6_flows(flows), template, seq);
}

/// Without flows there are no datagrams, not even for the template set; with
/// flows there is at least one.
pub proof fn law_datagrams_iff_flows(flows: Seq<Flow>, template: bool, seq: u32)
    ensures
        batches_of(flows, template, seq).len() == 0 <==> flows.len() == 0,
{
    lemma_families(flows);
    lemma_rest(v4_flows(flows), v6_flows(flows), template, seq);
}

/// Every datagram is well formed: it is no longer than the MTU, its length
/// field tells its length, its header carries the export time, the observation
/// domain and the number of records sent before it, and its body reads back as
/// the sets that were put into it.
pub proof fn law_datagrams_well_formed(
    flows: Seq<Flow>,
    template: bool,
    seq: u32,
    now_unix: u32,
    odid: u32,
    i: int,
)
    requires
        0 <= i < batches_of(flows, template, seq).len(),
    ensures
        ({
            let bs = batches_of(flows, template, seq);
            let m = message_bytes(bs[i], now_unix, odid);
            &&& m.len() <= MTU
            &&& be_value(m.subrange(2, 4)) == m.len()
            &&& be_value(m.subrange(4, 8)) == now_unix
            &&& be_value(m.subrange(8, 12)) == advanced(seq, record_count(bs.take(i)))
            &&& be_value(m.subrange(12, 16)) == odid
            &&& sets_of(m.skip(16)) == Some(intended_sets(bs[i]))
        }),
{
    let v4 = v4_flows(flows);
    let v6 = v6_flows(flows);
    let b = batches_of(flows, template, seq)[i];
    lemma_families(flows);
    lemma_batches_sorted(v4, v6, template, seq, i);
    law_datagram_size(v4, v6, template, seq, i);
    law_message_len(b, now_unix, odid);
    law_header_fields(b, now_unix, odid);
    law_sequence_counts_records(v4, v6, template, seq, i);
    law_sets_read_back(b, now_unix, odid);
}

/// What stands where in a record, field by field, with `a` bytes of addresses
/// before: the ports, 0 for a missing one; the protocol; byte `i` of each MAC,
/// 0 if the MAC is missing; the direction; bytes, packets, first and last time.
pub proof fn law_record_fields(flow: Flow, i: int)
    requires
        0 <= i < 6,
    ensures
        ({
            let r = record_bytes(flow);
            let (key, val) = flow;
            let a: int = if key.addrs is V4 {
                8
            } else {
                32
            };
            &&& r.len() == a + 50
            &&& key.addrs matches FlowAddrs::V4 { src, dst } ==> r.subrange(0, 4) == be_bytes(
                src.bits as nat,
                4,
            ) && r.subrange(4, 8) == be_bytes(dst.bits as nat, 4)
            &&& key.addrs matches FlowAddrs::V6 { src, dst } ==> r.subrange(0, 16) == be_bytes(
                src.bits as nat,
                16,
            ) && r.subrange(16, 32) == be_bytes(dst.bits as nat, 16)
            &&& key.src_port matches Some(p) ==> r.subrange(a, a + 2) == be_bytes(p as nat, 2)
            &&& key.src_port is None ==> r[a] == 0 && r[a + 1] == 0
            &&& key.dst_port matches Some(p) ==> r.subrange(a + 2, a + 4) == be_bytes(p as nat, 2)
            &&& key.dst_port is None ==> r[a + 2] == 0 && r[a + 3] == 0
            &&& r[a + 4] == key.protocol
            &&& val.src_mac matches Some(m) ==> r[a + 5 + i] == m@[i]
            &&& val.src_mac is None ==> r[a + 5 + i] == 0
            &&& val.dst_mac matches Some(m) ==> r[a + 11 + i] == m@[i]
            &&& val.dst_mac is None ==> r[a + 11 + i] == 0
            &&& r[a + 17] == 0 <==> val.direction == Some(FlowDirection::Incoming)
            &&& r[a + 17] == 1 <==> val.direction == Some(FlowDirection::Outgoing)
            &&& r[a + 17] == 255 <==> val.direction is None
            &&& r.subrange(a + 18, a + 26) == be_bytes(val.bytes as nat, 8)
            &&& r.subrange(a + 26, a + 34) == be_bytes(val.packets as nat, 8)
            &&& r.subrange(a + 34, a + 42) == be_bytes(val.first_seen_ms as nat, 8)
            &&& r.subrange(a + 42, a + 50) == be_bytes(val.last_seen_ms as nat, 8)
        }),
{
    broadcast use lemma_be_bytes_len;

    law_record_size(flow);
    let r = record_bytes(flow);
    let (key, val) = flow;
    let s = mac_bytes(val.src_mac);
    let d = mac_bytes(val.dst_mac);
    assert(s.len() == 6 && d.len() == 6);
    reveal_with_fuel(be_bytes, 3);
    let a: int = if key.addrs is V4 {
        8
    } else {
        32
    };
    match key.addrs {
        FlowAddrs::V4 { src, dst } => {
            assert(r.subrange(0, 4) =~= be_bytes(src.bits as nat, 4));
            assert(r.subrange(4, 8) =~= be_bytes(dst.bits as nat, 4));
        },
        FlowAddrs::V6 { src, dst } => {
            assert(r.subrange(0, 16) =~= be_bytes(src.bits as nat, 16));
            assert(r.subrange(16, 32) =~= be_bytes(dst.bits as nat, 16));
        },
    }
    assert(r.subrange(a, a + 2) =~= be_bytes(port_or_zero(key.src_port) as nat, 2));
    assert(r.subrange(a + 2, a + 4) =~= be_bytes(port_or_zero(key.dst_port) as nat, 2));
    assert(r[a] == r.subrange(a, a + 2)[0] && r[a + 1] == r.subrange(a, a + 2)[1]);
    assert(r[a + 2] == r.subrange(a + 2, a + 4)[0] && r[a + 3] == r.subrange(a + 2, a + 4)[1]);
    assert(r[a + 5 + i] == s[i]);
    assert(r[a + 11 + i] == d[i]);
    assert(r.subrange(a + 18, a + 26) =~= be_bytes(val.bytes as nat, 8));
    assert(r.subrange(a + 26, a + 34) =~= be_bytes(val.packets as nat, 8));
    assert(r.subrange(a + 34, a + 42) =~= be_bytes(val.first_seen_ms as nat, 8));
    assert(r.subrange(a + 42, a + 50) =~= be_bytes(val.last_seen_ms as nat, 8));
}

/// A stream's datagrams are the messages of its batches, one for one and in
/// order, and the bytes of a list of datagrams are theirs.
pub proof fn law_datagrams_in_order(
    datagrams: Seq<Vec<u8>>,
    bs: Seq<Batch>,
    now_unix: u32,
    odid: u32,
    i: int,
)
    ensures
        contents(datagrams).len() == datagrams.len(),
        0 <= i < datagrams.len() ==> contents(datagrams)[i] == datagrams[i]@,
        messages(bs, now_unix, odid).len() == bs.len(),
        0 <= i < bs.len() ==> messages(bs, now_unix, odid)[i] == message_bytes(
            bs[i],
            now_unix,
            odid,
        ),
{
}

/// A message is laid out in one way only: header, template set if asked for,
/// then for each family that has records a set header with id and length and
/// the records. `used` counts the bytes before the set in question.
pub proof fn law_message_layout(b: Batch, now_unix: u32, odid: u32)
    requires
        sorted_by_family(b),
    ensures
        ({
            let m = message_bytes(b, now_unix, odid);
            let used4: int = if b.template {
                140
            } else {
                16
            };
            let used6: int = if b.v4.len() > 0 {
                used4 + 4 + 58 * b.v4.len()
            } else {
                used4
            };
            let end: int = if b.v6.len() > 0 {
                used6 + 4 + 82 * b.v6.len()
            } else {
                used6
            };
            &&& m.len() == end
            &&& m.subrange(0, 2) == be_bytes(10, 2)
            &&& m.subrange(2, 4) == be_bytes(end as nat, 2)
            &&& m.subrange(4, 8) == be_bytes(now_unix as nat, 4)
            &&& m.subrange(8, 12) == be_bytes(b.seq as nat, 4)
            &&& m.subrange(12, 16) == be_bytes(odid as nat, 4)
            &&& b.template ==> m.subrange(16, 140) == template_set()
            &&& b.v4.len() > 0 ==> {
                &&& m.subrange(used4, used4 + 2) == be_bytes(256, 2)
                &&& m.subrange(used4 + 2, used4 + 4) == be_bytes((4 + 58 * b.v4.len()) as nat, 2)
                &&& m.subrange(used4 + 4, used6) == records_bytes(b.v4)
            }
            &&& b.v6.len() > 0 ==> {
                &&& m.subrange(used6, used6 + 2) == be_bytes(257, 2)
                &&& m.subrange(used6 + 2, used6 + 4) == be_bytes((4 + 82 * b.v6.len()) as nat, 2)
                &&& m.subrange(used6 + 4, end) == records_bytes(b.v6)
            }
        }),
{
    broadcast use lemma_be_bytes_len;

    reveal(message_bytes);
    lemma_part_sizes(b);
    law_template_set_len();
    let m = message_bytes(b, now_unix, odid);
    let used4: int = if b.template {
        140
    } else {
        16
    };
    let used6: int = if b.v4.len() > 0 {
        used4 + 4 + 58 * b.v4.len()
    } else {
        used4
    };
    let end: int = if b.v6.len() > 0 {
        used6 + 4 + 82 * b.v6.len()
    } else {
        used6
    };
    assert(m.len() == end);
    assert(b.len() == end);
    assert(m.subrange(0, 2) =~= be_bytes(10, 2));
    assert(m.subrange(2, 4) =~= be_bytes(end as nat, 2));
    assert(m.subrange(4, 8) =~= be_bytes(now_unix as nat, 4));
    assert(m.subrange(8, 12) =~= be_bytes(b.seq as nat, 4));
    assert(m.subrange(12, 16) =~= be_bytes(odid as nat, 4));
    if b.template {
        assert(m.subrange(16, 140) =~= template_set());
    }
    if b.v4.len() > 0 {
        assert(m.subrange(used4, used4 + 2) =~= be_bytes(256, 2));
        assert(m.subrange(used4 + 2, used4 + 4) =~= be_bytes((4 + 58 * b.v4.len()) as nat, 2));
        assert(m.subrange(used4 + 4, used6) =~= records_bytes(b.v4));
    }
    if b.v6.len() > 0 {
        assert(m.subrange(used6, used6 + 2) =~= be_bytes(257, 2));
        assert(m.subrange(used6 + 2, used6 + 4) =~= be_bytes((4 + 82 * b.v6.len()) as nat, 2));
        assert(m.subrange(used6 + 4, end) =~= records_bytes(b.v6));
    }
}

/// The first datagram of what is owed takes as many records as 1200 bytes hold,
/// counted in bytes: IPv4 records first, then IPv6 records in what they leave.
pub proof fn law_first_datagram_fill(v4: Seq<Flow>, v6: Seq<Flow>, template: bool, seq: u32)
    ensures
        ({
            let b = next_batch(v4, v6, template, seq);
            let start: int = if template {
                140
            } else {
                16
            };
            let used: int = if b.v4.len() > 0 {
                start + 4 + 58 * b.v4.len()
            } else {
                start
            };
            &&& b.template == template
            &&& b.seq == seq
            &&& b.v4.len() <= v4.len() && b.v4 == v4.take(b.v4.len() as int)
            &&& b.v6.len() <= v6.len() && b.v6 == v6.take(b.v6.len() as int)
            &&& b.v4.len() > 0 ==> start + 4 + 58 * b.v4.len() <= 1200
            &&& b.v4.len() < v4.len() ==> start + 4 + 58 * (b.v4.len() + 1) > 1200
            &&& b.v6.len() > 0 ==> used + 4 + 82 * b.v6.len() <= 1200
            &&& b.v6.len() < v6.len() ==> used + 4 + 82 * (b.v6.len() + 1) > 1200
        }),
{
    reveal(next_batch);
    let b = next_batch(v4, v6, template, seq);
    assert(b.v4 =~= v4.take(b.v4.len() as int));
    assert(b.v6 =~= v6.take(b.v6.len() as int));
}

/// After the first datagram, the rest is sent as a stream of its own: without
/// templates, and with the sequence number advanced by the records sent.
pub proof fn law_rest_of_stream(v4: Seq<Flow>, v6: Seq<Flow>, template: bool, seq: u32)
    requires
        v4.len() + v6.len() > 0,
    ensures
        ({
            let bs = batches(v4, v6, template, seq);
            let b = next_batch(v4, v6, template, seq);
            &&& bs.len() > 0
            &&& bs[0] == b
            &&& bs.skip(1) == batches(
                v4.skip(b.v4.len() as int),
                v6.skip(b.v6.len() as int),
                false,
                advanced(seq, b.v4.len() + b.v6.len()),
            )
        }),
{
    lemma_rest(v4, v6, template, seq);
    let bs = batches(v4, v6, template, seq);
    assert(bs.skip(1) =~= bs.drop_first());
}

/// Sequence numbers count by one, and 0 comes after the greatest.
pub proof fn law_sequence_step(seq: u32, n: nat)
    ensures
        advanced(seq, 0) == seq,
        seq < u32::MAX ==> advanced(seq, 1) == seq + 1,
        seq == u32::MAX ==> advanced(seq, 1) == 0,
        advanced(seq, n + 1) == advanced(advanced(seq, n), 1),
        (advanced(seq, n) - seq - n) % 0x1_0000_0000 == 0,
{
    law_advanced_twice(seq, n, 1);
}

/// Of the records owed, as many go into a datagram as there is room for in 1200
/// bytes, with 4 bytes for the set header: those taken fit, and either none is
/// left or one more would not fit.
pub proof fn law_records_taken(owed: nat, used: nat, record_size: u16)
    requires
        record_size > 0,
    ensures
        ({
            let n = taken(owed, used, record_size);
            &&& n <= owed
            &&& n > 0 ==> used + 4 + n * record_size <= 1200
            &&& n < owed ==> used + 4 + (n + 1) * record_size > 1200
        }),
{
    let n = taken(owed, used, record_size);
    let c = capacity(used, record_size);
    let size = record_size as int;
    if used + SET_HEADER_LEN <= MTU {
        let room = MTU - SET_HEADER_LEN - used;
        assert(c == room / size);
        assert(c * size <= room < (c + 1) * size) by (nonlinear_arith)
            requires
                c == room / size,
                size > 0,
        ;
        assert(n * size <= c * size) by (nonlinear_arith)
            requires
                n <= c,
                size > 0,
        ;
    } else {
        assert((n + 1) * size >= 0) by (nonlinear_arith)
            requires
                size > 0,
                n >= 0,
        ;
    }
}

/// A data set is its id, its own length and its records, one after the other;
/// without records there is no set.
pub proof fn law_data_set(id: u16, flows: Seq<Flow>, size: u16, more: Flow)
    ensures
        flows.len() == 0 ==> data_set(id, flows, size).len() == 0,
        flows.len() > 0 ==> {
            &&& data_set(id, flows, size).take(2) == be_bytes(id as nat, 2)
            &&& data_set(id, flows, size).subrange(2, 4) == be_bytes(
                (4 + flows.len() * size) as nat,
                2,
            )
            &&& data_set(id, flows, size).skip(4) == records_bytes(flows)
        },
        records_bytes(Seq::empty()).len() == 0,
        records_bytes(flows.push(more)) == records_bytes(flows) + record_bytes(more),
{
    broadcast use lemma_be_bytes_len;

    assert(flows.push(more).drop_last() =~= flows);
    if flows.len() > 0 {
        let s = data_set(id, flows, size);
        assert(s.take(2) =~= be_bytes(id as nat, 2));
        assert(s.subrange(2, 4) =~= be_bytes((4 + flows.len() * size) as nat, 2));
        assert(s.skip(4) =~= records_bytes(flows));
    }
}

} // verus!
