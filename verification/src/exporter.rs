//! When to send templates, and how sequence numbers run from flush to flush.

use vstd::prelude::*;

use crate::addr::{IpAddr, Ipv4Addr, Ipv6Addr, SocketAddr};
use crate::ipfix::encode::{
    advanced, batches_of, build_datagrams, contents, law_advanced_twice, messages, v4_flows,
    v6_flows, Flow,
};
use crate::ipfix::laws::{
    law_datagrams_iff_flows, law_sequence_counts_records, law_sequence_step, record_count,
};

verus! {

/// The templates are sent again after this many nanoseconds.
pub const TEMPLATE_REFRESH_NS: u64 = 30_000_000_000;

/// The state of an export stream. Times are nanoseconds on a clock that never
/// goes back.
#[derive(Debug, Clone, Copy)]
pub struct Exporter {
    pub seq: u32,
    pub odid: u32,
    pub last_template_send: Option<u64>,
}

/// What a flush sends.
pub struct Flush {
    /// The datagrams, in the order in which they are to be sent.
    pub datagrams: Vec<Vec<u8>>,
    /// Whether the first of them carries the templates.
    pub with_templates: bool,
}

/// The unspecified address of the collector's family, any port: what a socket
/// binds to that is to reach the collector.
pub open spec fn bind_address(collector: SocketAddr) -> SocketAddr {
    match collector {
        SocketAddr::V4 { .. } => SocketAddr::V4 { ip: Ipv4Addr { bits: 0 }, port: 0 },
        SocketAddr::V6 { .. } => SocketAddr::V6 {
            ip: Ipv6Addr { bits: 0 },
            port: 0,
            flowinfo: 0,
            scope_id: 0,
        },
    }
}

impl Exporter {
    /// The templates were never sent, or at least `TEMPLATE_REFRESH_NS` ago.
    pub open spec fn templates_due(self, now_ns: u64) -> bool {
        match self.last_template_send {
            None => true,
            Some(t) => now_ns - t >= TEMPLATE_REFRESH_NS,
        }
    }

    /// A stream on which nothing was sent yet.
    pub open spec fn opened(odid: u32) -> Exporter {
        Exporter { seq: 0, odid, last_template_send: None }
    }

    /// Whether a flush of `flows` at `now_ns` carries the templates.
    pub open spec fn carries_templates(self, flows: Seq<Flow>, now_ns: u64) -> bool {
        flows.len() > 0 && self.templates_due(now_ns)
    }

    /// The stream after a flush of `flows` at `now_ns`: the sequence number has
    /// advanced by the number of flows, and the refresh interval starts again
    /// if the templates were carried.
    pub open spec fn after_flush(self, flows: Seq<Flow>, now_ns: u64) -> Exporter {
        Exporter {
            seq: advanced(self.seq, flows.len()),
            odid: self.odid,
            last_template_send: if self.carries_templates(flows, now_ns) {
                Some(now_ns)
            } else {
                self.last_template_send
            },
        }
    }

    /// The stream after a run of flushes, each given by its flows and its time.
    pub open spec fn after_flushes(self, run: Seq<(Seq<Flow>, u64)>) -> Exporter
        decreases run.len(),
    {
        if run.len() == 0 {
            self
        } else {
            self.after_flushes(run.drop_last()).after_flush(run.last().0, run.last().1)
        }
    }

    /// A new stream to `addr`, with the address to bind its socket to.
    pub fn connect(addr: SocketAddr, odid: u32) -> (r: (Self, SocketAddr))
        ensures
            r.0 == (Exporter { seq: 0, odid, last_template_send: None }),
            r.1 == bind_address(addr),
            r.0 == Exporter::opened(odid),
    {
        let unspecified: IpAddr = match addr {
            SocketAddr::V4 { .. } => IpAddr::V4(Ipv4Addr::unspecified()),
            SocketAddr::V6 { .. } => IpAddr::V6(Ipv6Addr::unspecified()),
        };
        (Exporter { seq: 0, odid, last_template_send: None }, SocketAddr::new(unspecified, 0))
    }

    /// Encode `flows`, with the templates if they are due at `now_ns`. The
    /// sequence number advances, and the refresh interval starts again, whether
    /// or not the datagrams will arrive: a collector detects a loss by the gap.
    pub fn flush(&mut self, flows: &[Flow], now_ns: u64, now_unix: u32) -> (r: Flush)
        ensures
            r.with_templates == old(self).carries_templates(flows@, now_ns),
            contents(r.datagrams@) == messages(
                batches_of(flows@, r.with_templates, old(self).seq),
                now_unix,
                old(self).odid,
            ),
            *final(self) == old(self).after_flush(flows@, now_ns),
            final(self).last_template_send == (if r.with_templates {
                Some(now_ns)
            } else {
                old(self).last_template_send
            }),
    {
        if flows.len() == 0 {
            proof {
                law_datagrams_iff_flows(flows@, false, self.seq);
            }
            let none: Vec<Vec<u8>> = Vec::new();
            assert(contents(none@) =~= messages(
                batches_of(flows@, false, self.seq),
                now_unix,
                self.odid,
            ));
            return Flush { datagrams: none, with_templates: false };
        }
        let with_templates: bool = match self.last_template_send {
            None => true,
            Some(t) => now_ns >= t && now_ns - t >= TEMPLATE_REFRESH_NS,
        };
        let (datagrams, new_seq) = build_datagrams(
            flows,
            self.seq,
            with_templates,
            now_unix,
            self.odid,
        );
        if with_templates {
            self.last_template_send = Some(now_ns);
        }
        self.seq = new_seq;
        Flush { datagrams, with_templates }
    }
}

/// The first flush of a stream that has flows to send carries the templates.
pub proof fn law_first_flush_has_templates(e: Exporter, flows: Seq<Flow>, now_ns: u64)
    requires
        e.last_template_send is None,
        flows.len() > 0,
    ensures
        e.carries_templates(flows, now_ns),
{
}

/// Of two flushes, the first with the templates, the second carries them again
/// exactly when the refresh interval has passed in between.
pub proof fn law_templates_refresh(
    e: Exporter,
    first: Seq<Flow>,
    first_ns: u64,
    second: Seq<Flow>,
    second_ns: u64,
)
    requires
        e.carries_templates(first, first_ns),
        second.len() > 0,
    ensures
        e.after_flush(first, first_ns).carries_templates(second, second_ns) <==> second_ns
            - first_ns >= TEMPLATE_REFRESH_NS,
{
}

/// A flush without the templates leaves the refresh interval running.
pub proof fn law_refresh_keeps_running(e: Exporter, flows: Seq<Flow>, now_ns: u64)
    requires
        !e.carries_templates(flows, now_ns),
    ensures
        e.after_flush(flows, now_ns).last_template_send == e.last_template_send,
{
}

/// However many flushes come within the refresh interval after one with the
/// templates, none of them puts off the refresh: the next flush after them
/// carries the templates exactly when the interval has passed since that one.
pub proof fn law_templates_rest(
    e: Exporter,
    first: Seq<Flow>,
    first_ns: u64,
    run: Seq<(Seq<Flow>, u64)>,
    next: Seq<Flow>,
    next_ns: u64,
)
    requires
        e.carries_templates(first, first_ns),
        forall|i: int|
            0 <= i < run.len() ==> (#[trigger] run[i]).1 - first_ns < TEMPLATE_REFRESH_NS,
        next.len() > 0,
    ensures
        e.after_flush(first, first_ns).after_flushes(run).last_template_send == Some(first_ns),
        e.after_flush(first, first_ns).after_flushes(run).carries_templates(next, next_ns)
            <==> next_ns - first_ns >= TEMPLATE_REFRESH_NS,
    decreases run.len(),
{
    if run.len() > 0 {
        let init = run.drop_last();
        assert forall|i: int| 0 <= i < init.len() implies (#[trigger] init[i]).1 - first_ns
            < TEMPLATE_REFRESH_NS by {
            assert(init[i] == run[i]);
        }
        law_templates_rest(e, first, first_ns, init, next, next_ns);
        assert(run[run.len() - 1].1 - first_ns < TEMPLATE_REFRESH_NS);
    }
}

/// The sequence numbers of one flush go on where those of the flush before it
/// ended: they count the records of both.
pub proof fn law_sequence_spans_flushes(
    first: Seq<Flow>,
    second: Seq<Flow>,
    template: bool,
    seq: u32,
    i: int,
)
    requires
        0 <= i < batches_of(second, template, advanced(seq, first.len())).len(),
    ensures
        ({
            let bs = batches_of(second, template, advanced(seq, first.len()));
            bs[i].seq == advanced(seq, first.len() + record_count(bs.take(i)))
        }),
{
    let from = advanced(seq, first.len());
    let bs = batches_of(second, template, from);
    law_sequence_counts_records(
        v4_flows(second),
        v6_flows(second),
        template,
        from,
        i,
    );
    law_advanced_twice(seq, first.len(), record_count(bs.take(i)));
}

/// The error that came last.
pub open spec fn last_error<E>(sends: Seq<Result<(), E>>) -> Option<E>
    decreases sends.len(),
{
    if sends.len() == 0 {
        None
    } else {
        match sends.last() {
            Err(e) => Some(e),
            Ok(_) => last_error(sends.drop_last()),
        }
    }
}

/// What a flush reports when its datagrams were sent with the outcomes
/// `sends`: the error that came last, if any came.
pub fn flush_outcome<E>(sends: Vec<Result<(), E>>) -> (r: Result<(), E>)
    ensures
        match last_error(sends@) {
            Some(e) => r == Err::<(), E>(e),
            None => r is Ok,
        },
{
    let mut rest: Vec<Result<(), E>> = sends;
    while rest.len() > 0
        invariant
            last_error(rest@) == last_error(sends@),
        decreases rest.len(),
    {
        let ghost before = rest@;
        match rest.pop() {
            Some(Err(e)) => return Err(e),
            _ => {
                assert(rest@ =~= before.drop_last());
            },
        }
    }
    Ok(())
}

/// A flush succeeds exactly when every datagram was sent.
pub proof fn law_flush_ok_iff_all_sent<E>(sends: Seq<Result<(), E>>)
    ensures
        last_error(sends) is None <==> forall|i: int|
            0 <= i < sends.len() ==> #[trigger] sends[i] is Ok,
    decreases sends.len(),
{
    if sends.len() > 0 {
        let init = sends.drop_last();
        law_flush_ok_iff_all_sent(init);
        assert(sends[sends.len() - 1] == sends.last());
        if last_error(sends) is None {
            assert forall|i: int| 0 <= i < sends.len() implies #[trigger] sends[i] is Ok by {
                if i < init.len() {
                    assert(init[i] is Ok);
                }
            }
        } else if sends.last() is Ok {
            let i = choose|i: int| 0 <= i < init.len() && !(#[trigger] init[i] is Ok);
            assert(sends[i] is Err);
        }
    }
}

/// The export time: whole seconds since the UNIX epoch, or 0 when the clock
/// stands before the epoch or past the last second that the field can hold.
pub fn unix_seconds(since_epoch: Option<u64>) -> (r: u32)
    ensures
        r == (match since_epoch {
            Some(s) => if s <= u32::MAX {
                s as u32
            } else {
                0
            },
            None => 0,
        }),
        r == export_time(since_epoch),
{
    match since_epoch {
        Some(s) => if s <= u32::MAX as u64 {
            s as u32
        } else {
            0
        },
        None => 0,
    }
}

/// A socket is bound in the family of the collector, to the all-zero address
/// and to port 0, whatever the collector's address and port are.
pub proof fn law_bind_address(collector: SocketAddr)
    ensures
        collector is V4 ==> bind_address(collector) == (SocketAddr::V4 {
            ip: Ipv4Addr { bits: 0 },
            port: 0,
        }),
        collector is V6 ==> bind_address(collector) == (SocketAddr::V6 {
            ip: Ipv6Addr { bits: 0 },
            port: 0,
            flowinfo: 0,
            scope_id: 0,
        }),
{
}

/// A flush carries the templates exactly when it has flows and either none did
/// before or 30 seconds have passed since the last that did. It advances the
/// sequence number by one for each flow and keeps the observation domain.
pub proof fn law_flush_effect(e: Exporter, flows: Seq<Flow>, now_ns: u64)
    ensures
        flows.len() == 0 ==> !e.carries_templates(flows, now_ns) && e.after_flush(flows, now_ns)
            == e,
        flows.len() > 0 && e.last_template_send is None ==> e.carries_templates(flows, now_ns),
        flows.len() > 0 && e.last_template_send is Some ==> (e.carries_templates(flows, now_ns)
            <==> now_ns >= e.last_template_send->0 + 30_000_000_000),
        e.carries_templates(flows, now_ns) ==> e.after_flush(flows, now_ns).last_template_send
            == Some(now_ns),
        !e.carries_templates(flows, now_ns) ==> e.after_flush(flows, now_ns).last_template_send
            == e.last_template_send,
        e.after_flush(flows, now_ns).odid == e.odid,
        (e.after_flush(flows, now_ns).seq - e.seq - flows.len()) % 0x1_0000_0000 == 0,
{
    law_sequence_step(e.seq, flows.len());
}

/// The error reported is that of a send after which all others went well.
pub proof fn law_last_error<E>(sends: Seq<Result<(), E>>, e: E)
    ensures
        last_error(sends) == Some(e) <==> exists|i: int|
            0 <= i < sends.len() && sends[i] == Err::<(), E>(e) && (forall|j: int|
                i < j < sends.len() ==> #[trigger] sends[j] is Ok),
    decreases sends.len(),
{
    if sends.len() > 0 {
        let init = sends.drop_last();
        let n = sends.len() - 1;
        law_last_error(init, e);
        assert(sends[n] == sends.last());
        if last_error(sends) == Some(e) {
            if sends.last() is Err {
                assert(sends[n] == Err::<(), E>(e));
            } else {
                let i = choose|i: int|
                    0 <= i < init.len() && init[i] == Err::<(), E>(e) && (forall|j: int|
                        i < j < init.len() ==> #[trigger] init[j] is Ok);
                assert(sends[i] == Err::<(), E>(e));
                assert forall|j: int| i < j < sends.len() implies #[trigger] sends[j] is Ok by {
                    if j < n {
                        assert(init[j] is Ok);
                    }
                }
            }
        }
        if exists|i: int|
            0 <= i < sends.len() && sends[i] == Err::<(), E>(e) && (forall|j: int|
                i < j < sends.len() ==> #[trigger] sends[j] is Ok) {
            let i = choose|i: int|
                0 <= i < sends.len() && sends[i] == Err::<(), E>(e) && (forall|j: int|
                    i < j < sends.len() ==> #[trigger] sends[j] is Ok);
            if i < n {
                assert(sends[n] is Ok);
                assert(init[i] == Err::<(), E>(e));
                assert forall|j: int| i < j < init.len() implies #[trigger] init[j] is Ok by {
                    assert(sends[j] is Ok);
                }
            }
        }
    }
}

/// The export time that a number of seconds since the epoch gives.
pub open spec fn export_time(since_epoch: Option<u64>) -> u32 {
    match since_epoch {
        Some(s) if s <= u32::MAX => s as u32,
        _ => 0,
    }
}

/// An export time is the number of seconds, as long as 32 bits hold it.
pub proof fn law_export_time(s: u64)
    ensures
        s < 0x1_0000_0000 ==> export_time(Some(s)) as int == s,
        s >= 0x1_0000_0000 ==> export_time(Some(s)) == 0,
        export_time(None) == 0,
{
}

/// A new stream counts its records from 0, names its observation domain in
/// every datagram, and starts with the templates.
pub proof fn law_new_stream(odid: u32, flows: Seq<Flow>, now_ns: u64)
    ensures
        Exporter::opened(odid).seq == 0,
        Exporter::opened(odid).odid == odid,
        flows.len() > 0 ==> Exporter::opened(odid).carries_templates(flows, now_ns),
        flows.len() <= u32::MAX ==> Exporter::opened(odid).after_flush(flows, now_ns).seq
            == flows.len(),
{
}

} // verus!
