//! The message encoder: a batch of flows becomes one or more datagrams, each
//! short enough for `MTU`. A datagram is
//!
//! ```text
//! [message header (16 bytes)]
//! [template set (124 bytes)]       in the first datagram, if asked for
//! [IPv4 data set (4 + n * 58)]     if it carries IPv4 records
//! [IPv6 data set (4 + n * 82)]     if it carries IPv6 records
//! ```
//!
//! The sequence number of a datagram is the number of data records sent before
//! it on the stream, modulo 2^32 (RFC 7011, section 3.1).

use vstd::prelude::*;

use crate::bytes::{be_bytes, lemma_be_bytes_len, put_u128, put_u16, put_u32, put_u64};
use crate::direction::FlowDirection;
use crate::flow::{FlowAddrs, FlowKey, FlowVal};
use crate::ipfix::template::{template_set, write_template_set, TEMPLATE_SET_LEN};
use crate::ipfix::{
    MSG_HEADER_LEN, RECORD_SIZE_V4, RECORD_SIZE_V6, SET_HEADER_LEN, TEMPLATE_ID_V4, TEMPLATE_ID_V6,
    VERSION,
};

verus! {

/// The greatest length of a datagram.
pub const MTU: u16 = 1200;

/// A flow to be exported.
pub type Flow = (FlowKey, FlowVal);

/// The six bytes of a MAC; all zero if it is not known.
pub open spec fn mac_bytes(mac: Option<[u8; 6]>) -> Seq<u8> {
    match mac {
        Some(m) => m@,
        None => seq![0u8, 0u8, 0u8, 0u8, 0u8, 0u8],
    }
}

/// `flowDirection`: 0 is ingress, 1 is egress, 255 is not known.
pub open spec fn direction_byte(direction: Option<FlowDirection>) -> u8 {
    match direction {
        Some(FlowDirection::Incoming) => 0x00,
        Some(FlowDirection::Outgoing) => 0x01,
        None => 0xFF,
    }
}

/// A port; 0 if there is none.
pub open spec fn port_or_zero(port: Option<u16>) -> u16 {
    match port {
        Some(p) => p,
        None => 0,
    }
}

/// Source address, then destination address.
pub open spec fn addr_bytes(addrs: FlowAddrs) -> Seq<u8> {
    match addrs {
        FlowAddrs::V4 { src, dst } => be_bytes(src.bits as nat, 4)
            + be_bytes(dst.bits as nat, 4),
        FlowAddrs::V6 { src, dst } => be_bytes(src.bits as nat, 16)
            + be_bytes(dst.bits as nat, 16),
    }
}

/// What follows the addresses in a record of either family.
pub open spec fn tail_bytes(key: FlowKey, val: FlowVal) -> Seq<u8> {
    be_bytes(port_or_zero(key.src_port) as nat, 2) + be_bytes(
        port_or_zero(key.dst_port) as nat,
        2,
    ) + seq![key.protocol] + mac_bytes(val.src_mac) + mac_bytes(val.dst_mac) + seq![
        direction_byte(val.direction),
    ] + be_bytes(val.bytes as nat, 8) + be_bytes(val.packets as nat, 8)
        + be_bytes(val.first_seen_ms as nat, 8) + be_bytes(
        val.last_seen_ms as nat,
        8,
    )
}

/// A data record.
pub open spec fn record_bytes(flow: Flow) -> Seq<u8> {
    addr_bytes(flow.0.addrs) + tail_bytes(flow.0, flow.1)
}

/// Data records one after the other.
pub open spec fn records_bytes(flows: Seq<Flow>) -> Seq<u8>
    decreases flows.len(),
{
    if flows.len() == 0 {
        Seq::empty()
    } else {
        records_bytes(flows.drop_last()) + record_bytes(flows.last())
    }
}

/// The bytes that a data set of `n` records takes; no set, no bytes.
pub open spec fn set_len(n: nat, record_size: u16) -> nat {
    if n == 0 {
        0
    } else {
        SET_HEADER_LEN as nat + n * record_size as nat
    }
}

/// A data set: its id, its length, its records. Without records there is none.
pub open spec fn data_set(set_id: u16, flows: Seq<Flow>, record_size: u16) -> Seq<u8> {
    if flows.len() == 0 {
        Seq::empty()
    } else {
        be_bytes(set_id as nat, 2) + be_bytes(
            set_len(flows.len(), record_size),
            2,
        ) + records_bytes(flows)
    }
}

/// What goes into one datagram.
pub struct Batch {
    pub template: bool,
    pub seq: u32,
    pub v4: Seq<Flow>,
    pub v6: Seq<Flow>,
}

/// The bytes before the data sets.
pub open spec fn base_len(template: bool) -> nat {
    if template {
        MSG_HEADER_LEN as nat + TEMPLATE_SET_LEN as nat
    } else {
        MSG_HEADER_LEN as nat
    }
}

impl Batch {
    /// How many data records the datagram carries.
    pub open spec fn count(self) -> nat {
        self.v4.len() + self.v6.len()
    }

    /// The length of the datagram.
    pub open spec fn len(self) -> nat {
        base_len(self.template) + set_len(self.v4.len(), RECORD_SIZE_V4) + set_len(
            self.v6.len(),
            RECORD_SIZE_V6,
        )
    }
}

/// The message header.
pub open spec fn header_bytes(len: nat, now_unix: u32, seq: u32, odid: u32) -> Seq<u8> {
    be_bytes(VERSION as nat, 2) + be_bytes(len, 2)
        + be_bytes(now_unix as nat, 4) + be_bytes(seq as nat, 4)
        + be_bytes(odid as nat, 4)
}

/// The datagram of a batch.
#[verifier::opaque]
pub open spec fn message_bytes(b: Batch, now_unix: u32, odid: u32) -> Seq<u8> {
    header_bytes(b.len(), now_unix, b.seq, odid) + (if b.template {
        template_set()
    } else {
        Seq::empty()
    }) + data_set(TEMPLATE_ID_V4, b.v4, RECORD_SIZE_V4) + data_set(
        TEMPLATE_ID_V6,
        b.v6,
        RECORD_SIZE_V6,
    )
}

/// How many records of `record_size` bytes go, behind a set header, into a
/// datagram of which `used` bytes are taken.
pub open spec fn capacity(used: nat, record_size: u16) -> nat {
    if used + SET_HEADER_LEN > MTU {
        0
    } else {
        ((MTU - SET_HEADER_LEN - used) / record_size as int) as nat
    }
}

/// All that are owed, or as many as fit.
pub open spec fn taken(owed: nat, used: nat, record_size: u16) -> nat {
    if owed <= capacity(used, record_size) {
        owed
    } else {
        capacity(used, record_size)
    }
}

/// The next datagram when `v4` and `v6` are still owed: as many IPv4 records as
/// fit, then as many IPv6 records as fit beside them.
#[verifier::opaque]
pub open spec fn next_batch(v4: Seq<Flow>, v6: Seq<Flow>, template: bool, seq: u32) -> Batch {
    let n4 = taken(v4.len(), base_len(template), RECORD_SIZE_V4);
    let n6 = taken(
        v6.len(),
        base_len(template) + set_len(n4, RECORD_SIZE_V4),
        RECORD_SIZE_V6,
    );
    Batch { template, seq, v4: v4.take(n4 as int), v6: v6.take(n6 as int) }
}

/// A sequence number `n` records later.
pub open spec fn advanced(seq: u32, n: nat) -> u32 {
    ((seq + n) % 0x1_0000_0000) as u32
}

/// The datagrams that carry `v4` and `v6`, the template set in the first one if
/// `template` is set.
pub open spec fn batches(v4: Seq<Flow>, v6: Seq<Flow>, template: bool, seq: u32) -> Seq<Batch>
    decreases v4.len() + v6.len(),
{
    proof {
        reveal(next_batch);
    }
    let b = next_batch(v4, v6, template, seq);
    if b.count() == 0 {
        Seq::empty()
    } else {
        seq![b] + batches(
            v4.skip(b.v4.len() as int),
            v6.skip(b.v6.len() as int),
            false,
            advanced(seq, b.count()),
        )
    }
}

/// The IPv4 flows among `flows`, in their order.
pub open spec fn v4_flows(flows: Seq<Flow>) -> Seq<Flow> {
    flows.filter(|f: Flow| f.0.addrs is V4)
}

/// The IPv6 flows among `flows`, in their order.
pub open spec fn v6_flows(flows: Seq<Flow>) -> Seq<Flow> {
    flows.filter(|f: Flow| f.0.addrs is V6)
}

/// The datagrams of `flows`.
pub open spec fn batches_of(flows: Seq<Flow>, template: bool, seq: u32) -> Seq<Batch> {
    batches(v4_flows(flows), v6_flows(flows), template, seq)
}

/// How many records of `record_size` bytes the next set takes, out of
/// `remaining`, when `msg_len` bytes of the datagram are taken.
pub fn take_records(remaining: usize, msg_len: u16, record_size: u16) -> (r: u16)
    requires
        record_size > 0,
    ensures
        r == taken(remaining as nat, msg_len as nat, record_size),
        r * record_size <= MTU,
{
    let budget: u16 = MTU.saturating_sub(msg_len).saturating_sub(SET_HEADER_LEN);
    let fit: u16 = budget / record_size;
    assert(fit * record_size <= budget) by (nonlinear_arith)
        requires
            record_size > 0,
            fit == budget / record_size,
    ;
    if remaining < fit as usize {
        assert(remaining * record_size <= fit * record_size) by (nonlinear_arith)
            requires
                remaining <= fit,
        ;
        remaining as u16
    } else {
        fit
    }
}

/// Append the header of a set with `payload_len` bytes of records.
pub fn write_set_header(out: &mut Vec<u8>, set_id: u16, payload_len: u16)
    requires
        SET_HEADER_LEN + payload_len <= u16::MAX,
    ensures
        final(out)@ == old(out)@ + be_bytes(set_id as nat, 2)
            + be_bytes((SET_HEADER_LEN + payload_len) as nat, 2),
{
    put_u16(out, set_id);
    put_u16(out, SET_HEADER_LEN + payload_len);
}

fn put_mac(out: &mut Vec<u8>, mac: Option<[u8; 6]>)
    ensures
        final(out)@ == old(out)@ + mac_bytes(mac),
{
    let m: [u8; 6] = mac.unwrap_or([0, 0, 0, 0, 0, 0]);
    out.push(m[0]);
    out.push(m[1]);
    out.push(m[2]);
    out.push(m[3]);
    out.push(m[4]);
    out.push(m[5]);
    assert(m@ =~= mac_bytes(mac));
    assert(out@ =~= old(out)@ + mac_bytes(mac));
}

fn write_common_tail(out: &mut Vec<u8>, key: &FlowKey, val: &FlowVal)
    ensures
        final(out)@ == old(out)@ + tail_bytes(*key, *val),
{
    put_u16(out, key.src_port.unwrap_or(0));
    put_u16(out, key.dst_port.unwrap_or(0));
    out.push(key.protocol);
    put_mac(out, val.src_mac);
    put_mac(out, val.dst_mac);
    out.push(
        match val.direction {
            Some(FlowDirection::Incoming) => 0x00,
            Some(FlowDirection::Outgoing) => 0x01,
            None => 0xFF,
        },
    );
    put_u64(out, val.bytes);
    put_u64(out, val.packets);
    put_u64(out, val.first_seen_ms);
    put_u64(out, val.last_seen_ms);
    assert(out@ =~= old(out)@ + tail_bytes(*key, *val));
}

/// Append the record of a flow.
pub fn write_record(out: &mut Vec<u8>, key: &FlowKey, val: &FlowVal)
    ensures
        final(out)@ == old(out)@ + record_bytes((*key, *val)),
{
    match key.addrs {
        FlowAddrs::V4 { src, dst } => {
            put_u32(out, src.bits);
            put_u32(out, dst.bits);
        },
        FlowAddrs::V6 { src, dst } => {
            put_u128(out, src.bits);
            put_u128(out, dst.bits);
        },
    }
    write_common_tail(out, key, val);
    assert(out@ =~= old(out)@ + record_bytes((*key, *val)));
}

/// Append a set with as many of the owed `flows` as fit; returns how many.
pub fn pack_set(
    buf: &mut Vec<u8>,
    flows: &Vec<Flow>,
    idx: &mut usize,
    template_id: u16,
    record_size: u16,
    msg_len: &mut u16,
) -> (take: u16)
    requires
        *old(idx) <= flows@.len(),
        0 < record_size,
    ensures
        take == taken((flows@.len() - *old(idx)) as nat, *old(msg_len) as nat, record_size),
        *final(idx) == *old(idx) + take,
        *final(idx) <= flows@.len(),
        *final(msg_len) == *old(msg_len) + set_len(take as nat, record_size),
        *old(msg_len) <= MTU ==> *final(msg_len) <= MTU,
        final(buf)@ == old(buf)@ + data_set(
            template_id,
            flows@.skip(*old(idx) as int).take(take as int),
            record_size,
        ),
{
    let take: u16 = take_records(flows.len() - *idx, *msg_len, record_size);
    let ghost owed = flows@.skip(*idx as int);
    if take == 0 {
        assert(buf@ =~= buf@ + data_set(template_id, owed.take(0), record_size));
        return 0;
    }
    let payload_len: u16 = take * record_size;
    proof {
        let used: int = *msg_len as int;
        let c: int = capacity(used as nat, record_size) as int;
        let room: int = MTU - SET_HEADER_LEN - used;
        let size: int = record_size as int;
        assert(used + SET_HEADER_LEN <= MTU);
        assert(c * size <= room) by (nonlinear_arith)
            requires
                c == room / size,
                size > 0,
        ;
        assert(take * size <= c * size) by (nonlinear_arith)
            requires
                take <= c,
                size > 0,
        ;
    }
    let ghost before = buf@;
    let start: usize = *idx;
    write_set_header(buf, template_id, payload_len);
    let ghost header = be_bytes(template_id as nat, 2) + be_bytes(
        set_len(take as nat, record_size),
        2,
    );
    assert(owed.take(0) =~= Seq::<Flow>::empty());
    assert(buf@ =~= before + header + records_bytes(owed.take(0)));
    let mut j: usize = 0;
    while j < take as usize
        invariant
            j <= take,
            start + take <= flows@.len(),
            flows@.len() == flows.len(),
            owed == flows@.skip(start as int),
            buf@ == before + header + records_bytes(owed.take(j as int)),
        decreases take - j,
    {
        write_record(buf, &flows[start + j].0, &flows[start + j].1);
        assert(owed.take(j + 1).drop_last() =~= owed.take(j as int));
        assert(owed.take(j + 1).last() == flows@[start + j]);
        assert(buf@ =~= before + header + records_bytes(owed.take(j + 1)));
        j = j + 1;
    }
    *idx = start + take as usize;
    *msg_len = *msg_len + SET_HEADER_LEN + payload_len;
    assert(buf@ =~= before + data_set(template_id, owed.take(take as int), record_size));
    take
}

/// With records owed, the next datagram takes at least one of them.
proof fn lemma_progress(v4: Seq<Flow>, v6: Seq<Flow>, template: bool, seq: u32)
    requires
        v4.len() + v6.len() > 0,
    ensures
        next_batch(v4, v6, template, seq).count() > 0,
{
    reveal(next_batch);
}

proof fn lemma_batches_step(v4: Seq<Flow>, v6: Seq<Flow>, template: bool, seq: u32)
    requires
        v4.len() + v6.len() > 0,
    ensures
        ({
            let b = next_batch(v4, v6, template, seq);
            batches(v4, v6, template, seq) == seq![b] + batches(
                v4.skip(b.v4.len() as int),
                v6.skip(b.v6.len() as int),
                false,
                advanced(seq, b.count()),
            )
        }),
        next_batch(v4, v6, template, seq).v4.len() <= v4.len(),
        next_batch(v4, v6, template, seq).v6.len() <= v6.len(),
        0 < next_batch(v4, v6, template, seq).count(),
{
    lemma_progress(v4, v6, template, seq);
    reveal(next_batch);
}

/// Advancing twice is advancing once by both counts.
pub proof fn law_advanced_twice(seq: u32, m: nat, n: nat)
    ensures
        advanced(advanced(seq, m), n) == advanced(seq, m + n),
{
}

/// What `build_datagrams` has sent so far and still owes make up the whole.
#[verifier::opaque]
spec fn on_the_way(
    all: Seq<Batch>,
    done: Seq<Batch>,
    v4: Seq<Flow>,
    v6: Seq<Flow>,
    template: bool,
    seq: u32,
) -> bool {
    all == done + batches(v4, v6, template, seq)
}

proof fn lemma_one_more_batch(
    all: Seq<Batch>,
    done: Seq<Batch>,
    v4: Seq<Flow>,
    v6: Seq<Flow>,
    template: bool,
    seq: u32,
)
    requires
        on_the_way(all, done, v4, v6, template, seq),
        v4.len() + v6.len() > 0,
    ensures
        ({
            let b = next_batch(v4, v6, template, seq);
            on_the_way(
                all,
                done.push(b),
                v4.skip(b.v4.len() as int),
                v6.skip(b.v6.len() as int),
                false,
                advanced(seq, b.count()),
            )
        }),
{
    reveal(on_the_way);
    lemma_batches_step(v4, v6, template, seq);
    let b = next_batch(v4, v6, template, seq);
    let rest = batches(
        v4.skip(b.v4.len() as int),
        v6.skip(b.v6.len() as int),
        false,
        advanced(seq, b.count()),
    );
    assert(done + (seq![b] + rest) =~= done.push(b) + rest);
}

proof fn lemma_messages_push(
    datagrams: Seq<Vec<u8>>,
    buf: Vec<u8>,
    done: Seq<Batch>,
    b: Batch,
    now_unix: u32,
    odid: u32,
)
    requires
        contents(datagrams) == messages(done, now_unix, odid),
        buf@ == message_bytes(b, now_unix, odid),
    ensures
        contents(datagrams.push(buf)) == messages(done.push(b), now_unix, odid),
{
    let c = contents(datagrams.push(buf));
    let m = messages(done.push(b), now_unix, odid);
    assert(contents(datagrams).len() == datagrams.len());
    assert(messages(done, now_unix, odid).len() == done.len());
    assert(c.len() == datagrams.len() + 1);
    assert(m.len() == done.len() + 1);
    assert forall|i: int| 0 <= i < c.len() implies c[i] == m[i] by {
        if i < done.len() {
            assert(contents(datagrams)[i] == messages(done, now_unix, odid)[i]);
        }
    }
    assert(c =~= m);
}

/// The bytes of the datagrams, one sequence each.
pub open spec fn contents(datagrams: Seq<Vec<u8>>) -> Seq<Seq<u8>> {
    Seq::new(datagrams.len(), |i: int| datagrams[i]@)
}

/// The bytes of the datagrams of `bs`.
pub open spec fn messages(bs: Seq<Batch>, now_unix: u32, odid: u32) -> Seq<Seq<u8>> {
    Seq::new(bs.len(), |i: int| message_bytes(bs[i], now_unix, odid))
}

/// One datagram. `v4_idx` and `v6_idx` are advanced past what it carries.
fn build_message(
    v4: &Vec<Flow>,
    v6: &Vec<Flow>,
    v4_idx: &mut usize,
    v6_idx: &mut usize,
    template: bool,
    seq: u32,
    now_unix: u32,
    odid: u32,
) -> (r: (Vec<u8>, u16))
    requires
        *old(v4_idx) <= v4@.len(),
        *old(v6_idx) <= v6@.len(),
    ensures
        ({
            let b = next_batch(
                v4@.skip(*old(v4_idx) as int),
                v6@.skip(*old(v6_idx) as int),
                template,
                seq,
            );
            &&& r.0@ == message_bytes(b, now_unix, odid)
            &&& r.1 == b.count()
            &&& *final(v4_idx) == *old(v4_idx) + b.v4.len()
            &&& *final(v6_idx) == *old(v6_idx) + b.v6.len()
        }),
        *final(v4_idx) <= v4@.len(),
        *final(v6_idx) <= v6@.len(),
{
    broadcast use lemma_be_bytes_len;

    reveal(next_batch);
    let ghost b = next_batch(v4@.skip(*v4_idx as int), v6@.skip(*v6_idx as int), template, seq);
    let mut buf: Vec<u8> = Vec::with_capacity(MTU as usize);
    let mut msg_len: u16 = MSG_HEADER_LEN;

    // The length is filled in below, when it is known.
    put_u16(&mut buf, VERSION);
    put_u16(&mut buf, 0);
    put_u32(&mut buf, now_unix);
    put_u32(&mut buf, seq);
    put_u32(&mut buf, odid);
    let ghost blank = header_bytes(0, now_unix, seq, odid);
    assert(buf@ =~= blank);

    if template {
        write_template_set(&mut buf);
        msg_len = msg_len + TEMPLATE_SET_LEN;
    }
    let ghost head = blank + (if template {
        template_set()
    } else {
        Seq::empty()
    });
    assert(buf@ =~= head);

    let n4: u16 = pack_set(&mut buf, v4, v4_idx, TEMPLATE_ID_V4, RECORD_SIZE_V4, &mut msg_len);
    let n6: u16 = pack_set(&mut buf, v6, v6_idx, TEMPLATE_ID_V6, RECORD_SIZE_V6, &mut msg_len);
    let ghost sets = data_set(TEMPLATE_ID_V4, b.v4, RECORD_SIZE_V4) + data_set(
        TEMPLATE_ID_V6,
        b.v6,
        RECORD_SIZE_V6,
    );
    assert(b.v4.len() == n4);
    assert(b.v6.len() == n6);
    assert(buf@ =~= head + sets);
    assert(msg_len == b.len());

    buf[2] = (msg_len / 256) as u8;
    buf[3] = (msg_len % 256) as u8;
    proof {
        reveal(message_bytes);
        reveal_with_fuel(be_bytes, 3);
        let header = header_bytes(b.len(), now_unix, seq, odid);
        assert(header.len() == 16);
        assert(be_bytes(msg_len as nat, 2)[0] == (msg_len / 256) as u8);
        assert(be_bytes(msg_len as nat, 2)[1] == (msg_len % 256) as u8);
        assert(header =~= blank.update(2, (msg_len / 256) as u8).update(
            3,
            (msg_len % 256) as u8,
        ));
        assert(buf@ =~= message_bytes(b, now_unix, odid));
    }
    (buf, n4 + n6)
}

/// Encode `flows` into datagrams, in the order in which they are to be sent.
/// Returns them with the sequence number that the next call starts from.
pub fn build_datagrams(
    flows: &[Flow],
    seq_start: u32,
    include_template_set: bool,
    now_unix: u32,
    odid: u32,
) -> (r: (Vec<Vec<u8>>, u32))
    ensures
        contents(r.0@) == messages(
            batches_of(flows@, include_template_set, seq_start),
            now_unix,
            odid,
        ),
        r.1 == advanced(seq_start, flows@.len()),
{
    let mut v4: Vec<Flow> = Vec::new();
    let mut v6: Vec<Flow> = Vec::new();
    let mut i: usize = 0;
    proof {
        reveal(Seq::filter);
    }
    assert(v4@ =~= v4_flows(flows@.take(0)));
    assert(v6@ =~= v6_flows(flows@.take(0)));
    while i < flows.len()
        invariant
            i <= flows@.len(),
            v4@ == v4_flows(flows@.take(i as int)),
            v6@ == v6_flows(flows@.take(i as int)),
            v4@.len() + v6@.len() == i,
        decreases flows@.len() - i,
    {
        proof {
            reveal(Seq::filter);
            assert(flows@.take(i + 1).drop_last() =~= flows@.take(i as int));
        }
        match flows[i].0.addrs {
            FlowAddrs::V4 { .. } => v4.push(flows[i]),
            FlowAddrs::V6 { .. } => v6.push(flows[i]),
        }
        i = i + 1;
    }
    assert(flows@.take(flows@.len() as int) =~= flows@);

    let mut datagrams: Vec<Vec<u8>> = Vec::new();
    let mut seq: u32 = seq_start;
    let mut template: bool = include_template_set;
    let mut v4_idx: usize = 0;
    let mut v6_idx: usize = 0;
    let ghost all = batches(v4@, v6@, include_template_set, seq_start);
    let ghost mut done: Seq<Batch> = Seq::empty();
    proof {
        assert(v4@.skip(0) =~= v4@);
        assert(v6@.skip(0) =~= v6@);
        reveal(on_the_way);
        assert(all =~= done + all);
        assert(contents(datagrams@) =~= messages(done, now_unix, odid));
    }
    while v4_idx < v4.len() || v6_idx < v6.len()
        invariant
            v4_idx <= v4@.len(),
            v6_idx <= v6@.len(),
            on_the_way(
                all,
                done,
                v4@.skip(v4_idx as int),
                v6@.skip(v6_idx as int),
                template,
                seq,
            ),
            contents(datagrams@) == messages(done, now_unix, odid),
            seq == advanced(seq_start, (v4_idx + v6_idx) as nat),
        decreases v4@.len() - v4_idx + v6@.len() - v6_idx,
    {
        let ghost owed4 = v4@.skip(v4_idx as int);
        let ghost owed6 = v6@.skip(v6_idx as int);
        let ghost b = next_batch(owed4, owed6, template, seq);
        let ghost (seq_before, sent4, sent6) = (seq, v4_idx, v6_idx);
        proof {
            lemma_batches_step(owed4, owed6, template, seq);
            lemma_one_more_batch(all, done, owed4, owed6, template, seq);
        }
        let (buf, count) = build_message(
            &v4,
            &v6,
            &mut v4_idx,
            &mut v6_idx,
            template,
            seq,
            now_unix,
            odid,
        );
        template = false;
        seq = seq.wrapping_add(count as u32);
        proof {
            assert(seq == advanced(seq_before, b.count()));
            law_advanced_twice(seq_start, (sent4 + sent6) as nat, b.count());
            assert(v4@.skip(v4_idx as int) =~= owed4.skip(b.v4.len() as int));
            assert(v6@.skip(v6_idx as int) =~= owed6.skip(b.v6.len() as int));
            lemma_messages_push(datagrams@, buf, done, b, now_unix, odid);
            done = done.push(b);
        }
        datagrams.push(buf);
    }
    proof {
        reveal(on_the_way);
        reveal(next_batch);
        let rest = batches(v4@.skip(v4_idx as int), v6@.skip(v6_idx as int), template, seq);
        assert(rest =~= Seq::<Batch>::empty());
        assert(all =~= done);
    }
    (datagrams, seq)
}

} // verus!
