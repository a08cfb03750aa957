//! What holds of observed buses over any sequence of operations.
use crate::bus::{Bus, BusCall, BusError, BusEvent};
use crate::frame;
use crate::frame::{Scan, MAX_TRACE_FRAME, OVERHEAD};
use crate::tracing_bus;
use crate::tracing_bus::{
    LinkTx, ReportClock, ReportNumbers, ReportOnlyBus, TracingBus, MAX_REPORT_FRAME,
};
use crate::transport;
use crate::wire;
use crate::wire::{ArgView, ReportMeta, TraceView, MAX_REPORT_ARGS};
use crate::wire_laws;
use vstd::prelude::*;

verus! {

/// Whether an operation is one that a report is sent for, the observed bus having answered.
pub open spec fn is_sent_report(event: BusEvent) -> bool {
    event.0 matches BusCall::Report { args, .. } && event.1 is Ok && args.len()
        <= MAX_REPORT_ARGS
}

/// Whether a trace is sent for an operation, the observed bus having answered: for one that
/// succeeded, but for a report with too many arguments.
pub open spec fn is_sent(event: BusEvent) -> bool {
    event.1 is Ok && (event.0 is Report ==> is_sent_report(event))
}

/// Whether a trace is that of an operation.
pub open spec fn tells(call: BusCall, t: TraceView) -> bool {
    match call {
        BusCall::Report { kind, args } => t matches TraceView::Report { meta, kind: k, args: a }
            && meta is Some && k == kind && a == args,
        _ => tracing_bus::trace_of_call(call) == Some(t),
    }
}

/// Whether traces are those of operations, in order: one for each that is sent.
pub open spec fn tells_all(events: Seq<BusEvent>, reports_only: bool, ts: Seq<TraceView>) -> bool
    decreases events.len(),
{
    if events.len() == 0 {
        ts.len() == 0
    } else {
        let sent = if reports_only {
            is_sent_report(events.last())
        } else {
            is_sent(events.last())
        };
        if sent {
            &&& ts.len() > 0
            &&& tells(events.last().0, ts.last())
            &&& tells_all(events.drop_last(), reports_only, ts.drop_last())
        } else {
            tells_all(events.drop_last(), reports_only, ts)
        }
    }
}

/// The writes of traces, one each.
pub open spec fn writes_of(ts: Seq<TraceView>) -> Seq<Seq<u8>> {
    ts.map_values(|t: TraceView| wire::trace_frame(t))
}

/// Operations with the answers of the observed bus.
pub open spec fn answered(calls: Seq<BusCall>, answers: Seq<Result<(), BusError>>) -> Seq<BusEvent> {
    Seq::new(calls.len(), |i: int| (calls[i], answers[i]))
}

/// What an operation returns, the observed bus having answered: its answer, but for a report with
/// too many arguments that it took.
pub open spec fn returned(call: BusCall, answer: Result<(), BusError>) -> Result<(), BusError> {
    match call {
        BusCall::Report { args, .. } if answer is Ok && args.len() > MAX_REPORT_ARGS => Err(
            BusError::AccessSizeMismatch,
        ),
        _ => answer,
    }
}

/// Over any sequence of operations, the observed bus gets each of them once, in order and as it
/// was asked for. The link gets one write for each that this bus answered with success, in order:
/// the frame of its trace. What that bus answers with an error sends nothing and is returned.
/// `states` are the states of the bus before, between and after the operations.
pub proof fn law_traced_calls<
    B: Bus,
    L: LinkTx,
    C: ReportClock,
    N: ReportNumbers,
    const BUF: usize,
>(
    states: Seq<TracingBus<B, L, C, N, BUF>>,
    calls: Seq<BusCall>,
    results: Seq<Result<(), BusError>>,
) -> (r: (Seq<Result<(), BusError>>, Seq<TraceView>))
    requires
        states.len() == calls.len() + 1,
        results.len() == calls.len(),
        forall|i: int|
            0 <= i < calls.len() ==> (#[trigger] states[i + 1]).observed(
                states[i],
                calls[i],
                results[i],
            ),
    ensures
        r.0.len() == calls.len(),
        states.last().inner().history() == states[0].inner().history() + answered(calls, r.0),
        states.last().tx().sent() == states[0].tx().sent() + writes_of(r.1),
        tells_all(answered(calls, r.0), false, r.1),
        forall|i: int|
            0 <= i < calls.len() ==> #[trigger] results[i] is Ok == returned(calls[i], r.0[i]) is Ok,
        forall|i: int|
            0 <= i < calls.len() && (#[trigger] results[i]) is Err ==> results[i] == returned(
                calls[i],
                r.0[i],
            ),
    decreases calls.len(),
{
    if calls.len() == 0 {
        let none: Seq<TraceView> = Seq::empty();
        let answers: Seq<Result<(), BusError>> = Seq::empty();
        assert(answered(calls, answers) =~= Seq::<BusEvent>::empty());
        assert(writes_of(none) =~= Seq::<Seq<u8>>::empty());
        assert(states.last().tx().sent() =~= states[0].tx().sent() + writes_of(none));
        assert(states.last().inner().history() =~= states[0].inner().history() + answered(
            calls,
            answers,
        ));
        (answers, none)
    } else {
        let n = calls.len() - 1;
        let less = states.drop_last();
        assert forall|i: int| 0 <= i < n implies (#[trigger] less[i + 1]).observed(
            less[i],
            calls.drop_last()[i],
            results.drop_last()[i],
        ) by {
            assert(states[i + 1].observed(states[i], calls[i], results[i]));
        }
        let (answers, ts) = law_traced_calls(less, calls.drop_last(), results.drop_last());
        let before = states[n];
        let after = states[n + 1];
        assert(less.last() == before && states.last() == after && less[0] == states[0]);
        assert(after.observed(before, calls[n], results[n]));
        let answer = after.inner().history().last().1;
        let all = answers.push(answer);
        let events = answered(calls, all);
        assert(events.drop_last() =~= answered(calls.drop_last(), answers));
        assert(events.last() == (calls[n], answer));
        assert(after.inner().history() =~= states[0].inner().history() + events);
        let more = if is_sent((calls[n], answer)) {
            let t = match calls[n] {
                BusCall::Report { kind, args } => {
                    let meta = choose|meta: wire::ReportMeta|
                        {
                            &&& tracing_bus::timed_by(meta, before.clock())
                            &&& before.numbers().follows(meta.frame_id)
                            &&& after.numbers().given() == before.numbers().given().push(
                                meta.frame_id,
                            )
                            &&& after.tx().sent() == before.tx().sent().push(
                                #[trigger] tracing_bus::frame_of_report(meta, kind, args),
                            )
                        };
                    TraceView::Report { meta: Some(meta), kind, args }
                },
                _ => tracing_bus::trace_of_call(calls[n])->Some_0,
            };
            assert(after.tx().sent() =~= before.tx().sent().push(wire::trace_frame(t)));
            assert(ts.push(t).drop_last() =~= ts);
            ts.push(t)
        } else {
            assert(after.tx().sent() =~= before.tx().sent());
            ts
        };
        assert(after.tx().sent() =~= states[0].tx().sent() + writes_of(more));
        assert forall|i: int| 0 <= i < calls.len() implies {
            &&& #[trigger] results[i] is Ok == returned(calls[i], all[i]) is Ok
            &&& results[i] is Err ==> results[i] == returned(calls[i], all[i])
        } by {
            if i < n {
                assert(results.drop_last()[i] == results[i]);
                assert(calls.drop_last()[i] == calls[i]);
                assert(all[i] == answers[i]);
            }
        }
        (all, more)
    }
}

/// Over any sequence of operations, a bus that sends reports only sends one write for each report
/// that the observed bus took, in order, and nothing else. The observed bus gets each operation
/// once, in order and as it was asked for, and what it answers with an error is returned.
pub proof fn law_only_reports_are_sent<
    B: Bus,
    L: LinkTx,
    C: ReportClock,
    N: ReportNumbers,
    const BUF: usize,
>(
    states: Seq<ReportOnlyBus<B, L, C, N, BUF>>,
    calls: Seq<BusCall>,
    results: Seq<Result<(), BusError>>,
) -> (r: (Seq<Result<(), BusError>>, Seq<TraceView>))
    requires
        states.len() == calls.len() + 1,
        results.len() == calls.len(),
        forall|i: int|
            0 <= i < calls.len() ==> (#[trigger] states[i + 1]).observed(
                states[i],
                calls[i],
                results[i],
            ),
    ensures
        r.0.len() == calls.len(),
        states.last().inner().history() == states[0].inner().history() + answered(calls, r.0),
        states.last().tx().sent() == states[0].tx().sent() + writes_of(r.1),
        tells_all(answered(calls, r.0), true, r.1),
        forall|i: int|
            0 <= i < calls.len() ==> #[trigger] results[i] is Ok == returned(calls[i], r.0[i]) is Ok,
        forall|i: int|
            0 <= i < calls.len() && (#[trigger] results[i]) is Err ==> results[i] == returned(
                calls[i],
                r.0[i],
            ),
    decreases calls.len(),
{
    if calls.len() == 0 {
        let none: Seq<TraceView> = Seq::empty();
        let answers: Seq<Result<(), BusError>> = Seq::empty();
        assert(answered(calls, answers) =~= Seq::<BusEvent>::empty());
        assert(writes_of(none) =~= Seq::<Seq<u8>>::empty());
        assert(states.last().tx().sent() =~= states[0].tx().sent() + writes_of(none));
        assert(states.last().inner().history() =~= states[0].inner().history() + answered(
            calls,
            answers,
        ));
        (answers, none)
    } else {
        let n = calls.len() - 1;
        let less = states.drop_last();
        assert forall|i: int| 0 <= i < n implies (#[trigger] less[i + 1]).observed(
            less[i],
            calls.drop_last()[i],
            results.drop_last()[i],
        ) by {
            assert(states[i + 1].observed(states[i], calls[i], results[i]));
        }
        let (answers, ts) = law_only_reports_are_sent(
            less,
            calls.drop_last(),
            results.drop_last(),
        );
        let before = states[n];
        let after = states[n + 1];
        assert(less.last() == before && states.last() == after && less[0] == states[0]);
        assert(after.observed(before, calls[n], results[n]));
        let answer = after.inner().history().last().1;
        let all = answers.push(answer);
        let events = answered(calls, all);
        assert(events.drop_last() =~= answered(calls.drop_last(), answers));
        assert(events.last() == (calls[n], answer));
        assert(after.inner().history() =~= states[0].inner().history() + events);
        let more = if is_sent_report((calls[n], answer)) {
            let kind = calls[n]->Report_kind;
            let args = calls[n]->Report_args;
            let meta = choose|meta: wire::ReportMeta|
                {
                    &&& tracing_bus::timed_by(meta, before.clock())
                    &&& before.numbers().follows(meta.frame_id)
                    &&& after.numbers().given() == before.numbers().given().push(meta.frame_id)
                    &&& after.tx().sent() == before.tx().sent().push(
                        #[trigger] tracing_bus::frame_of_report(meta, kind, args),
                    )
                };
            let t = TraceView::Report { meta: Some(meta), kind, args };
            assert(after.tx().sent() =~= before.tx().sent().push(wire::trace_frame(t)));
            assert(ts.push(t).drop_last() =~= ts);
            ts.push(t)
        } else {
            assert(after.tx().sent() =~= before.tx().sent());
            ts
        };
        assert(after.tx().sent() =~= states[0].tx().sent() + writes_of(more));
        assert forall|i: int| 0 <= i < calls.len() implies {
            &&& #[trigger] results[i] is Ok == returned(calls[i], all[i]) is Ok
            &&& results[i] is Err ==> results[i] == returned(calls[i], all[i])
        } by {
            if i < n {
                assert(results.drop_last()[i] == results[i]);
                assert(calls.drop_last()[i] == calls[i]);
                assert(all[i] == answers[i]);
            }
        }
        (all, more)
    }
}

proof fn lemma_joined_writes(ts: Seq<TraceView>)
    ensures
        transport::joined(writes_of(ts)) == wire_laws::traced_bytes(ts),
    decreases ts.len(),
{
    if ts.len() > 0 {
        lemma_joined_writes(ts.drop_last());
        assert(writes_of(ts).drop_last() =~= writes_of(ts.drop_last()));
        assert(writes_of(ts).last() == wire::trace_frame(ts.last()));
    }
}

/// Whether an operation leaves a trace that the default frame buffer holds, or is a report that a
/// bus takes.
pub open spec fn fits_a_frame(call: BusCall) -> bool {
    match call {
        BusCall::Report { args, .. } => tracing_bus::report_takes(args),
        _ => wire::trace_payload(tracing_bus::trace_of_call(call)->Some_0).len() + OVERHEAD
            <= MAX_TRACE_FRAME,
    }
}

proof fn lemma_traces_fit(events: Seq<BusEvent>, reports_only: bool, ts: Seq<TraceView>)
    requires
        tells_all(events, reports_only, ts),
        forall|i: int| 0 <= i < events.len() ==> fits_a_frame((#[trigger] events[i]).0),
    ensures
        forall|i: int|
            0 <= i < ts.len() ==> {
                &&& wire_laws::trace_ok(#[trigger] ts[i])
                &&& wire::trace_payload(ts[i]).len() + OVERHEAD <= MAX_REPORT_FRAME
            },
    decreases events.len(),
{
    if events.len() > 0 {
        let less = events.drop_last();
        let n = events.len() - 1;
        assert forall|i: int| 0 <= i < less.len() implies fits_a_frame((#[trigger] less[i]).0) by {
            assert(less[i] == events[i]);
        }
        assert(fits_a_frame(events[n].0));
        let sent = if reports_only {
            is_sent_report(events.last())
        } else {
            is_sent(events.last())
        };
        if sent {
            let fewer = ts.drop_last();
            lemma_traces_fit(less, reports_only, fewer);
            if let BusCall::Report { kind, args } = events[n].0 {
                let meta = ts.last()->Report_meta;
                wire_laws::law_report_payload_bound(meta, kind, args);
            }
            assert forall|i: int| 0 <= i < ts.len() implies {
                &&& wire_laws::trace_ok(#[trigger] ts[i])
                &&& wire::trace_payload(ts[i]).len() + OVERHEAD <= MAX_REPORT_FRAME
            } by {
                if i < fewer.len() {
                    assert(fewer[i] == ts[i]);
                }
            }
        } else {
            lemma_traces_fit(less, reports_only, ts);
        }
    }
}

/// What a link got of operations decodes at the other end to the traces of these operations, in
/// order and unchanged.
pub proof fn law_sent_traces_decode(
    n: nat,
    events: Seq<BusEvent>,
    reports_only: bool,
    ts: Seq<TraceView>,
)
    requires
        n >= MAX_REPORT_FRAME,
        tells_all(events, reports_only, ts),
        forall|i: int| 0 <= i < events.len() ==> fits_a_frame((#[trigger] events[i]).0),
    ensures
        frame::run(n, Scan::Sync0, transport::joined(writes_of(ts))) == (
            Scan::Sync0,
            wire_laws::trace_frames(ts),
        ),
        forall|i: int|
            0 <= i < ts.len() ==> wire::trace_of(#[trigger] wire_laws::trace_frames(ts)[i].1)
                == Some(ts[i]),
{
    lemma_joined_writes(ts);
    lemma_traces_fit(events, reports_only, ts);
    assert forall|i: int| 0 <= i < ts.len() implies {
        &&& wire_laws::trace_ok(#[trigger] ts[i])
        &&& wire::trace_payload(ts[i]).len() <= 65535
        &&& wire::trace_payload(ts[i]).len() + OVERHEAD <= n
    } by {
        assert(wire_laws::trace_ok(ts[i]));
    }
    wire_laws::law_traces_over_the_line(n, ts);
}

/// The trace of an operation tells what it did: the bytes that it read or wrote and where, how long
/// it waited, what it said, the pin, or the bus. A report is told by its own trace.
pub proof fn law_trace_of_a_call(call: BusCall)
    ensures
        call matches BusCall::Read { addr, data } ==> tracing_bus::trace_of_call(call) == Some(
            TraceView::Read { addr, data },
        ),
        call matches BusCall::Write { addr, data } ==> tracing_bus::trace_of_call(call) == Some(
            TraceView::Write { addr, data },
        ),
        call matches BusCall::Delay { us } ==> tracing_bus::trace_of_call(call) == Some(
            TraceView::Delay { us },
        ),
        call matches BusCall::Select { kind, arg } ==> tracing_bus::trace_of_call(call) == Some(
            TraceView::BusSelect { kind, arg },
        ),
        call matches BusCall::WaitIrq { pin, .. } ==> tracing_bus::trace_of_call(call) == Some(
            TraceView::Irq { pin },
        ),
        call matches BusCall::Log { msg } ==> tracing_bus::trace_of_call(call) == Some(
            TraceView::Log { msg: vstd::utf8::encode_utf8(msg) },
        ),
        call is Report ==> tracing_bus::trace_of_call(call) is None,
{
}

/// An operation that failed is not traced, and one that succeeded is traced once, as a frame.
pub proof fn law_traced_once(call: BusCall, e: BusError)
    requires
        !(call is Report),
    ensures
        tracing_bus::sent_for(call, Err(e)).len() == 0,
        tracing_bus::sent_for(call, Ok(())) == seq![
            frame::frame_bytes(
                frame::FrameType::Trace,
                wire::trace_payload(tracing_bus::trace_of_call(call)->Some_0),
            ),
        ],
{
}

/// A report tells the time of a clock that runs, as a valid one, and no time otherwise.
pub proof fn law_report_time(id: u32, us: u64)
    ensures
        ({
            let timed = tracing_bus::report_meta_of(id, Some(us));
            let untimed = tracing_bus::report_meta_of(id, None);
            &&& timed.frame_id == id && timed.timestamp_us == us && timed.flags % 2 == 1
            &&& untimed.frame_id == id && untimed.timestamp_us == 0 && untimed.flags % 2 == 0
        }),
{
}

/// A report with more than eight arguments is refused, sends nothing and takes no number. Any other
/// is sent as one frame, with the next number and a time only where the clock runs.
pub proof fn law_sent_report<C: ReportClock, N: ReportNumbers>(
    before: Seq<Seq<u8>>,
    after: Seq<Seq<u8>>,
    numbers: N,
    given: Seq<u32>,
    clock: C,
    kind: u32,
    args: Seq<ArgView>,
    r: Result<(), BusError>,
)
    requires
        tracing_bus::report_sent(before, after, numbers, given, clock, kind, args, r),
    ensures
        args.len() > 8 ==> r == Err::<(), BusError>(BusError::AccessSizeMismatch) && after == before
            && given == numbers.given(),
        args.len() <= 8 ==> {
            &&& r is Ok
            &&& after.len() == before.len() + 1 && after.drop_last() == before
            &&& given.len() == numbers.given().len() + 1 && given.drop_last() == numbers.given()
            &&& numbers.follows(given.last())
            &&& exists|m: ReportMeta|
                m.frame_id == given.last() && (m.flags % 2 == 1 <==> clock.runs()) && (
                clock.runs() ==> clock.shows(m.timestamp_us)) && (!clock.runs() ==> m.timestamp_us
                    == 0) && after.last() == #[trigger] wire::trace_frame(
                    TraceView::Report { meta: Some(m), kind, args },
                )
        },
{
    if args.len() <= 8 {
        let m = choose|m: ReportMeta|
            {
                &&& tracing_bus::timed_by(m, clock)
                &&& numbers.follows(m.frame_id)
                &&& given == numbers.given().push(m.frame_id)
                &&& after == before.push(#[trigger] tracing_bus::frame_of_report(m, kind, args))
            };
        assert(after.drop_last() =~= before);
        assert(given.drop_last() =~= numbers.given());
        assert(after.last() == wire::trace_frame(
            TraceView::Report { meta: Some(m), kind, args },
        ));
    }
}

} // verus!
