//! From a drained table to the flows that are exported.

use vstd::prelude::*;

use crate::addr::{IpAddr, SocketAddr};
use crate::direction::direction_of;
use crate::flow::{law_directed, law_self_export_fields, FlowAddrs, FlowKey, FlowVal};
use crate::flow_map::{distinct_keys, lemma_map_of, map_of, FlowMap};
use crate::ipfix::encode::{batches_of, v4_flows, v6_flows, Flow};
use crate::ipfix::laws::{all_v4, all_v6, law_export_is_complete, record_count};

verus! {

/// The flows of `m` that are not the agent's own export to `collector`, each
/// with its direction against the addresses `own`.
pub open spec fn exported(
    m: Map<FlowKey, FlowVal>,
    collector: SocketAddr,
    own: Seq<IpAddr>,
) -> Map<FlowKey, FlowVal> {
    Map::new(
        |k: FlowKey| m.contains_key(k) && !k.exports_to(collector),
        |k: FlowKey| m[k].directed(k, own),
    )
}

/// The same on a list: what is not own export, in the order of the list.
pub open spec fn selected(flows: Seq<Flow>, collector: SocketAddr, own: Seq<IpAddr>) -> Seq<Flow>
    decreases flows.len(),
{
    if flows.len() == 0 {
        Seq::empty()
    } else {
        let before = selected(flows.drop_last(), collector, own);
        let (k, v) = flows.last();
        if k.exports_to(collector) {
            before
        } else {
            before.push((k, v.directed(k, own)))
        }
    }
}

proof fn lemma_selected(flows: Seq<Flow>, collector: SocketAddr, own: Seq<IpAddr>)
    requires
        distinct_keys(flows),
    ensures
        distinct_keys(selected(flows, collector, own)),
        map_of(selected(flows, collector, own)) == exported(map_of(flows), collector, own),
    decreases flows.len(),
{
    lemma_map_of(flows);
    if flows.len() == 0 {
        assert(map_of(selected(flows, collector, own)) =~= exported(
            map_of(flows),
            collector,
            own,
        ));
    } else {
        let t = flows.drop_last();
        let (k, v) = flows.last();
        let st = selected(t, collector, own);
        let s = selected(flows, collector, own);
        lemma_selected(t, collector, own);
        lemma_map_of(t);
        lemma_map_of(st);
        if map_of(t).contains_key(k) {
            let i = choose|i: int| 0 <= i < t.len() && (#[trigger] t[i]).0 == k;
            assert(flows[i].0 == flows[flows.len() - 1].0);
        }
        if !k.exports_to(collector) {
            assert(s.drop_last() =~= st);
            assert forall|a: int, b: int| 0 <= a < b < s.len() implies (#[trigger] s[a]).0 != (
            #[trigger] s[b]).0 by {
                if b < st.len() {
                    assert(st[a].0 != st[b].0);
                } else {
                    assert(map_of(st).contains_key(st[a].0));
                }
            }
        }
        assert(map_of(s) =~= exported(map_of(flows), collector, own));
    }
}

/// Leave out the agent's own export and attach the directions. The order of
/// the result is not specified.
pub fn select_flows(flow_map: FlowMap, collector: SocketAddr, addrs: &[IpAddr]) -> (r: Vec<Flow>)
    requires
        flow_map.wf(),
    ensures
        distinct_keys(r@),
        map_of(r@) == exported(flow_map@, collector, addrs@),
{
    let flows: Vec<Flow> = flow_map.into_flows();
    let mut out: Vec<Flow> = Vec::new();
    let mut i: usize = 0;
    while i < flows.len()
        invariant
            i <= flows@.len(),
            out@ == selected(flows@.take(i as int), collector, addrs@),
        decreases flows@.len() - i,
    {
        let key: FlowKey = flows[i].0;
        assert(flows@.take(i + 1).drop_last() =~= flows@.take(i as int));
        if !key.is_self_export(collector) {
            out.push((key, flows[i].1.with_direction(&key, addrs)));
        }
        i = i + 1;
    }
    proof {
        assert(flows@.take(flows@.len() as int) =~= flows@);
        lemma_selected(flows@, collector, addrs@);
    }
    out
}

/// The agent never reports its own export, and reports every other flow.
pub proof fn law_own_export_left_out(
    m: Map<FlowKey, FlowVal>,
    collector: SocketAddr,
    own: Seq<IpAddr>,
    k: FlowKey,
)
    ensures
        exported(m, collector, own).contains_key(k) <==> m.contains_key(k) && !k.exports_to(
            collector,
        ),
        exported(m, collector, own).contains_key(k) <==> m.contains_key(k) && !(k.protocol == 17
            && match (k.addrs, collector) {
            (FlowAddrs::V4 { dst, .. }, SocketAddr::V4 { ip, port }) => dst.bits == ip.bits
                && k.dst_port == Some(port),
            (FlowAddrs::V6 { dst, .. }, SocketAddr::V6 { ip, port, .. }) => dst.bits == ip.bits
                && k.dst_port == Some(port),
            _ => false,
        }),
{
    law_self_export_fields(k, collector);
}

/// A flow of the table that goes elsewhere than to the collector, by its
/// address or by its port, or that is not UDP, is always exported.
pub proof fn law_other_flows_exported(
    m: Map<FlowKey, FlowVal>,
    collector: SocketAddr,
    own: Seq<IpAddr>,
    k: FlowKey,
)
    requires
        m.contains_key(k),
        ({
            ||| k.protocol != 17
            ||| match (k.addrs, collector) {
                (FlowAddrs::V4 { dst, .. }, SocketAddr::V4 { ip, .. }) => dst != ip,
                (FlowAddrs::V6 { dst, .. }, SocketAddr::V6 { ip, .. }) => dst != ip,
                _ => true,
            }
            ||| match collector {
                SocketAddr::V4 { port, .. } => k.dst_port != Some(port),
                SocketAddr::V6 { port, .. } => k.dst_port != Some(port),
            }
        }),
    ensures
        exported(m, collector, own).contains_key(k),
        exported(m, collector, own)[k].bytes == m[k].bytes,
        exported(m, collector, own)[k].packets == m[k].packets,
{
    law_self_export_fields(k, collector);
}

/// The direction of an exported flow is that of its own two ends and ports
/// against the own addresses.
pub proof fn law_exported_direction(
    m: Map<FlowKey, FlowVal>,
    collector: SocketAddr,
    own: Seq<IpAddr>,
    k: FlowKey,
)
    requires
        exported(m, collector, own).contains_key(k),
    ensures
        exported(m, collector, own)[k].direction == (match k.addrs {
            FlowAddrs::V4 { src, dst } => direction_of(
                IpAddr::V4(src),
                IpAddr::V4(dst),
                k.src_port,
                k.dst_port,
                own,
            ),
            FlowAddrs::V6 { src, dst } => direction_of(
                IpAddr::V6(src),
                IpAddr::V6(dst),
                k.src_port,
                k.dst_port,
                own,
            ),
        }),
{
    law_directed(m[k], k, own);
}

/// Selection touches no counter, no time and no MAC.
pub proof fn law_selection_keeps_counters(
    m: Map<FlowKey, FlowVal>,
    collector: SocketAddr,
    own: Seq<IpAddr>,
    k: FlowKey,
)
    requires
        exported(m, collector, own).contains_key(k),
    ensures
        exported(m, collector, own)[k] == (FlowVal {
            direction: exported(m, collector, own)[k].direction,
            ..m[k]
        }),
{
}

proof fn lemma_family_members(flows: Seq<Flow>, f: Flow)
    ensures
        v4_flows(flows).contains(f) <==> flows.contains(f) && f.0.addrs is V4,
        v6_flows(flows).contains(f) <==> flows.contains(f) && f.0.addrs is V6,
    decreases flows.len(),
{
    reveal(Seq::filter);
    if flows.len() > 0 {
        let init = flows.drop_last();
        let last = flows.last();
        lemma_family_members(init, f);
        assert(flows =~= init.push(last));
        lemma_push_members(init, last, f);
        lemma_push_members(v4_flows(init), last, f);
        lemma_push_members(v6_flows(init), last, f);
    }
}

proof fn lemma_push_members(s: Seq<Flow>, last: Flow, f: Flow)
    ensures
        s.push(last).contains(f) <==> s.contains(f) || f == last,
{
    let all = s.push(last);
    if s.contains(f) {
        let i = choose|i: int| 0 <= i < s.len() && s[i] == f;
        assert(all[i] == f);
    }
    if f == last {
        assert(all[s.len() as int] == f);
    }
}

/// From table to wire: when the flows that were selected from the table `m`
/// are encoded, the records sent are exactly the flows of `m` other than own
/// export, each with its direction, and there are as many records as flows.
pub proof fn law_records_are_the_flows(
    m: Map<FlowKey, FlowVal>,
    collector: SocketAddr,
    own: Seq<IpAddr>,
    flows: Seq<Flow>,
    template: bool,
    seq: u32,
    f: Flow,
)
    requires
        distinct_keys(flows),
        map_of(flows) == exported(m, collector, own),
    ensures
        ({
            let bs = batches_of(flows, template, seq);
            &&& all_v4(bs).contains(f) || all_v6(bs).contains(f) <==> {
                &&& m.contains_key(f.0)
                &&& !f.0.exports_to(collector)
                &&& f.1 == m[f.0].directed(f.0, own)
            }
            &&& record_count(bs) == exported(m, collector, own).len()
        }),
{
    law_export_is_complete(flows, template, seq);
    lemma_family_members(flows, f);
    lemma_map_of(flows);
    let e = exported(m, collector, own);
    if flows.contains(f) {
        let i = choose|i: int| 0 <= i < flows.len() && flows[i] == f;
        assert(e.contains_key(flows[i].0) && e[flows[i].0] == flows[i].1);
    }
    if e.contains_key(f.0) && e[f.0] == f.1 {
        assert(map_of(flows).contains_key(f.0));
        let i = choose|i: int| 0 <= i < flows.len() && (#[trigger] flows[i]).0 == f.0;
        assert(flows[i] == f);
    }
}

} // verus!
