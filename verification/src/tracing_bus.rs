//! Buses that report to the host what they do.
//!
//! Observation is best effort: where sending fails, the bus operation still
//! succeeds.
use crate::bus;
use crate::bus::{Bus, BusCall, BusError, BusEvent, BusKind, ReportArg};
use crate::error::LinkError;
use crate::frame::{MAX_TRACE_FRAME, OVERHEAD};
use crate::transport::Transport;
use crate::wire;
use crate::wire::{
    encode_trace_bus_select, encode_trace_delay, encode_trace_irq, encode_trace_log,
    encode_trace_report_v2, encode_trace_rw, ArgView, ReportMeta, TraceView, MAX_REPORT_ARGS,
    REPORT_FLAG_TIMESTAMP_VALID, TRACE_OP_READ, TRACE_OP_WRITE,
};
use crate::wire_laws;
use vstd::prelude::*;
use vstd::slice::slice_subrange;

verus! {

/// The longest frame of a report.
pub const MAX_REPORT_FRAME: usize = 4162;

/// The sending end of a link.
pub trait LinkTx: Sized {
    /// What was handed over for sending so far, write by write.
    open spec fn sent(&self) -> Seq<Seq<u8>> {
        bus::going_with(*self)
    }

    /// Sends `data`.
    fn write(&mut self, data: &[u8]) -> (r: Result<(), LinkError>)
        ensures
            (*final(self)).sent() == (*old(self)).sent().push(data@),
    ;
}

impl<T: Transport> LinkTx for T {
    open spec fn sent(&self) -> Seq<Seq<u8>> {
        self.handed()
    }

    fn write(&mut self, data: &[u8]) -> (r: Result<(), LinkError>) {
        Transport::write(self, data)
    }
}

/// Where reports get their timestamps from.
pub trait ReportClock: Sized {
    /// Whether there is a clock at all.
    open spec fn runs(&self) -> bool {
        bus::going_with(*self)
    }

    /// Whether the clock may show a time.
    open spec fn shows(&self, us: u64) -> bool {
        true
    }

    /// The time in microseconds, if there is a clock.
    fn now_us(&self) -> (t: Option<u64>)
        ensures
            t is Some == self.runs(),
            t matches Some(us) ==> self.shows(us),
    ;
}

/// The clock of a device without one.
pub struct NoClock;

impl ReportClock for NoClock {
    open spec fn runs(&self) -> bool {
        false
    }

    open spec fn shows(&self, us: u64) -> bool {
        false
    }

    fn now_us(&self) -> (t: Option<u64>) {
        None
    }
}

/// Where reports get their numbers from. The buses of a process share one run of numbers, so that
/// what comes next need not follow from what was given out here.
pub trait ReportNumbers: Sized {
    /// The numbers that were given out here so far.
    open spec fn given(&self) -> Seq<u32> {
        bus::going_with(*self)
    }

    /// Whether a number may be the next one that is given out here.
    open spec fn follows(&self, id: u32) -> bool {
        true
    }

    /// Gives out the next number.
    fn next_id(&mut self) -> (id: u32)
        ensures
            (*old(self)).follows(id),
            (*final(self)).given() == (*old(self)).given().push(id),
    ;
}

/// Numbers that are lent are numbers.
impl<N: ReportNumbers> ReportNumbers for &mut N {
    open spec fn given(&self) -> Seq<u32> {
        (**self).given()
    }

    open spec fn follows(&self, id: u32) -> bool {
        (**self).follows(id)
    }

    fn next_id(&mut self) -> (id: u32) {
        (**self).next_id()
    }
}

/// The number of a report, `before` being how many were numbered before it. After the largest
/// number comes zero.
pub open spec fn number_after(before: nat) -> u32 {
    ((before + 1) % 0x1_0000_0000) as u32
}

/// Numbers in a run, from one on, for all the buses that it is lent to.
pub struct ReportCounter {
    next: u32,
    given: Ghost<Seq<u32>>,
}

impl ReportCounter {
    #[verifier::type_invariant]
    spec fn in_run(&self) -> bool {
        self.next == number_after(self.given@.len())
    }

    /// Numbers of which none was given out.
    pub fn new() -> (c: Self)
        ensures
            c.given() == Seq::<u32>::empty(),
    {
        ReportCounter { next: 1, given: Ghost(Seq::empty()) }
    }
}

impl Default for ReportCounter {
    fn default() -> (c: Self)
        ensures
            c.given() == Seq::<u32>::empty(),
    {
        Self::new()
    }
}

impl ReportNumbers for ReportCounter {
    closed spec fn given(&self) -> Seq<u32> {
        self.given@
    }

    open spec fn follows(&self, id: u32) -> bool {
        id == number_after(self.given().len())
    }

    fn next_id(&mut self) -> (id: u32) {
        proof {
            use_type_invariant(&*self);
        }
        let id: u32 = self.next;
        let ghost given = self.given@.push(id);
        *self = ReportCounter { next: id.wrapping_add(1), given: Ghost(given) };
        id
    }
}

/// The numbers of a run differ by one, except that zero follows the largest.
pub proof fn law_numbers_in_a_run(before: nat)
    ensures
        number_after(before + 1) == (number_after(before) + 1) % 0x1_0000_0000,
        number_after(0) == 1,
{
}

/// The metadata of a report with number `frame_id` at the given reading of the clock.
pub open spec fn report_meta_of(frame_id: u32, reading: Option<u64>) -> ReportMeta {
    match reading {
        Some(t) => ReportMeta { flags: REPORT_FLAG_TIMESTAMP_VALID, frame_id, timestamp_us: t },
        None => ReportMeta { flags: 0, frame_id, timestamp_us: 0 },
    }
}

/// The metadata of a report with number `frame_id` at the given reading of the clock.
pub fn report_meta(frame_id: u32, reading: Option<u64>) -> (meta: ReportMeta)
    ensures
        meta == report_meta_of(frame_id, reading),
{
    match reading {
        Some(t) => ReportMeta { flags: REPORT_FLAG_TIMESTAMP_VALID, frame_id, timestamp_us: t },
        None => ReportMeta { flags: 0, frame_id, timestamp_us: 0 },
    }
}

/// Whether the metadata of a report has a time that the clock may show, or none where there is no
/// clock.
pub open spec fn timed_by<C: ReportClock>(meta: ReportMeta, clock: C) -> bool {
    if clock.runs() {
        clock.shows(meta.timestamp_us) && meta.flags == REPORT_FLAG_TIMESTAMP_VALID
    } else {
        meta.timestamp_us == 0 && meta.flags == 0
    }
}

/// The metadata of the next report: the time from the clock, and the next number.
pub fn next_report_meta<C: ReportClock, N: ReportNumbers>(clock: &C, numbers: &mut N) -> (meta:
    ReportMeta)
    ensures
        (*old(numbers)).follows(meta.frame_id),
        (*final(numbers)).given() == (*old(numbers)).given().push(meta.frame_id),
        timed_by(meta, *clock),
{
    let reading: Option<u64> = clock.now_us();
    let id: u32 = numbers.next_id();
    report_meta(id, reading)
}

/// Whether a report can be sent, or is refused for its number of arguments before it is encoded.
pub open spec fn report_takes(args: Seq<ArgView>) -> bool {
    args.len() > MAX_REPORT_ARGS || wire::args_ok(args)
}

/// What every observing bus holds: the bus itself, the link, a frame buffer, a clock, the numbers
/// of the reports, and the operations so far.
struct TraceCommon<B, L, C, N> {
    inner: B,
    tx: L,
    buf: Vec<u8>,
    clock: C,
    numbers: N,
    calls: Ghost<Seq<BusEvent>>,
}

impl<B, L: LinkTx, C: ReportClock, N: ReportNumbers> TraceCommon<B, L, C, N> {
    fn create(inner: B, tx: L, clock: C, numbers: N, size: usize) -> (c: Self)
        ensures
            c.inner == inner,
            c.tx == tx,
            c.clock == clock,
            c.numbers == numbers,
            c.calls@ == Seq::<BusEvent>::empty(),
            c.buf@.len() >= size,
            c.buf@.len() >= MAX_REPORT_FRAME,
    {
        let room: usize = if size >= MAX_REPORT_FRAME {
            size
        } else {
            MAX_REPORT_FRAME
        };
        let buf: Vec<u8> = vec![0u8; room];
        TraceCommon { inner, tx, buf, clock, numbers, calls: Ghost(Seq::empty()) }
    }

    /// Hands the front of the frame buffer to the link, in one write. Whether the link takes it
    /// does not matter.
    fn send(&mut self, frame_len: usize)
        requires
            frame_len <= old(self).buf@.len(),
        ensures
            final(self).inner == old(self).inner,
            final(self).buf == old(self).buf,
            final(self).clock == old(self).clock,
            final(self).numbers == old(self).numbers,
            final(self).calls == old(self).calls,
            final(self).tx.sent() == old(self).tx.sent().push(
                old(self).buf@.take(frame_len as int),
            ),
    {
        let _ = self.tx.write(slice_subrange(&self.buf, 0, frame_len));
        assert(self.buf@.subrange(0, frame_len as int) =~= self.buf@.take(frame_len as int));
    }

    fn send_report(&mut self, kind: u32, args: &[ReportArg<'_>]) -> (r: Result<(), BusError>)
        requires
            report_takes(wire::args_view(args@)),
            old(self).buf@.len() >= MAX_REPORT_FRAME,
        ensures
            final(self).inner == old(self).inner,
            final(self).buf@.len() == old(self).buf@.len(),
            final(self).clock == old(self).clock,
            final(self).calls == old(self).calls,
            report_sent(
                old(self).tx.sent(),
                final(self).tx.sent(),
                old(self).numbers,
                final(self).numbers.given(),
                old(self).clock,
                kind,
                wire::args_view(args@),
                r,
            ),
    {
        if args.len() > MAX_REPORT_ARGS {
            return Err(BusError::AccessSizeMismatch);
        }
        let meta = next_report_meta(&self.clock, &mut self.numbers);
        let ghost view = wire::args_view(args@);
        proof {
            wire_laws::law_report_payload_bound(Some(meta), kind, view);
        }
        let ghost t = TraceView::Report { meta: Some(meta), kind, args: view };
        let n: usize = encode_trace_report_v2(self.buf.as_mut_slice(), meta, kind, args);
        assert(self.buf@.take(n as int) =~= wire::trace_frame(t));
        self.send(n);
        assert(frame_of_report(meta, kind, view) == wire::trace_frame(t));
        Ok(())
    }

    /// What a report comes to once the observed bus gave its answer: an error of that bus is
    /// passed on and nothing is sent, else the report is sent.
    fn answer_report(
        &mut self,
        answer: Result<(), BusError>,
        kind: u32,
        args: &[ReportArg<'_>],
    ) -> (r: Result<(), BusError>)
        requires
            report_takes(wire::args_view(args@)),
            old(self).buf@.len() >= MAX_REPORT_FRAME,
        ensures
            final(self).inner == old(self).inner,
            final(self).buf@.len() == old(self).buf@.len(),
            final(self).clock == old(self).clock,
            final(self).calls@ == old(self).calls@.push(
                (BusCall::Report { kind, args: wire::args_view(args@) }, r),
            ),
            report_answered(
                answer,
                old(self).tx.sent(),
                final(self).tx.sent(),
                old(self).numbers,
                final(self).numbers.given(),
                old(self).clock,
                kind,
                wire::args_view(args@),
                r,
            ),
    {
        let r = match answer {
            Ok(()) => self.send_report(kind, args),
            Err(e) => Err(e),
        };
        self.calls = Ghost(
            self.calls@.push((BusCall::Report { kind, args: wire::args_view(args@) }, r)),
        );
        r
    }
}

/// The frame of a report.
pub open spec fn frame_of_report(meta: ReportMeta, kind: u32, args: Seq<ArgView>) -> Seq<u8> {
    wire::trace_frame(TraceView::Report { meta: Some(meta), kind, args })
}

/// What sending a report does to the link and to the numbers of reports: one write with the frame
/// of the report, under the number that was given out for it. One with too many arguments is
/// refused, and takes no number.
pub open spec fn report_sent<C: ReportClock, N: ReportNumbers>(
    sent_before: Seq<Seq<u8>>,
    sent_after: Seq<Seq<u8>>,
    numbers: N,
    given_after: Seq<u32>,
    clock: C,
    kind: u32,
    args: Seq<ArgView>,
    r: Result<(), BusError>,
) -> bool {
    if args.len() > MAX_REPORT_ARGS {
        &&& r == Err::<(), BusError>(BusError::AccessSizeMismatch)
        &&& sent_after == sent_before
        &&& given_after == numbers.given()
    } else {
        &&& r is Ok
        &&& exists|meta: ReportMeta|
            {
                &&& timed_by(meta, clock)
                &&& numbers.follows(meta.frame_id)
                &&& given_after == numbers.given().push(meta.frame_id)
                &&& sent_after == sent_before.push(#[trigger] frame_of_report(meta, kind, args))
            }
    }
}

/// What a report comes to on an observing bus, `answer` being what the observed bus answered.
pub open spec fn report_answered<C: ReportClock, N: ReportNumbers>(
    answer: Result<(), BusError>,
    sent_before: Seq<Seq<u8>>,
    sent_after: Seq<Seq<u8>>,
    numbers: N,
    given_after: Seq<u32>,
    clock: C,
    kind: u32,
    args: Seq<ArgView>,
    r: Result<(), BusError>,
) -> bool {
    if answer is Err {
        &&& r == answer
        &&& sent_after == sent_before
        &&& given_after == numbers.given()
    } else {
        report_sent(
            sent_before,
            sent_after,
            numbers,
            given_after,
            clock,
            kind,
            args,
            r,
        )
    }
}

/// A bus that sends the host a trace of every operation that succeeded.
/// `BUF` is how long a trace may be, but for reports, which have room of their own.
pub struct TracingBus<B, L, C, N, const BUF: usize> {
    common: TraceCommon<B, L, C, N>,
}

/// A bus that sends the host its reports and nothing else.
/// `BUF` is the size that its frame buffer has at least.
pub struct ReportOnlyBus<B, L, C, N, const BUF: usize> {
    common: TraceCommon<B, L, C, N>,
}

impl<B, L: LinkTx, N: ReportNumbers> TracingBus<B, L, NoClock, N, MAX_TRACE_FRAME> {
    /// Observes `inner` over the link `tx`, without a clock.
    pub fn new(inner: B, tx: L, numbers: N) -> (bus: Self)
        ensures
            bus.starts(inner, tx, NoClock, numbers),
    {
        TracingBus {
            common: TraceCommon::create(inner, tx, NoClock, numbers, MAX_TRACE_FRAME),
        }
    }
}

impl<B, L: LinkTx, C: ReportClock, N: ReportNumbers> TracingBus<B, L, C, N, MAX_TRACE_FRAME> {
    /// Observes `inner` over the link `tx`, with timestamps from `clock`.
    pub fn new_with_clock(inner: B, tx: L, clock: C, numbers: N) -> (bus: Self)
        ensures
            bus.starts(inner, tx, clock, numbers),
    {
        TracingBus {
            common: TraceCommon::create(inner, tx, clock, numbers, MAX_TRACE_FRAME),
        }
    }
}

impl<B, L: LinkTx, N: ReportNumbers, const BUF: usize> TracingBus<B, L, NoClock, N, BUF> {
    /// Observes `inner` with a frame buffer of `BUF` bytes, without a clock.
    pub fn with_buf(inner: B, tx: L, numbers: N) -> (bus: Self)
        requires
            BUF >= MAX_TRACE_FRAME,
        ensures
            bus.starts(inner, tx, NoClock, numbers),
    {
        TracingBus { common: TraceCommon::create(inner, tx, NoClock, numbers, BUF) }
    }
}

impl<B, L: LinkTx, C: ReportClock, N: ReportNumbers, const BUF: usize> TracingBus<B, L, C, N, BUF> {
    /// The observed bus.
    pub closed spec fn inner(&self) -> B {
        self.common.inner
    }

    /// The link.
    pub closed spec fn tx(&self) -> L {
        self.common.tx
    }

    /// The clock.
    pub closed spec fn clock(&self) -> C {
        self.common.clock
    }

    /// The numbers of reports.
    pub closed spec fn numbers(&self) -> N {
        self.common.numbers
    }

    /// The operations that this bus was asked for, with their outcomes.
    pub closed spec fn calls(&self) -> Seq<BusEvent> {
        self.common.calls@
    }

    /// The frame buffer has its size.
    pub closed spec fn wf(&self) -> bool {
        &&& self.common.buf@.len() >= BUF
        &&& self.common.buf@.len() >= MAX_REPORT_FRAME
    }

    /// What a new bus is like.
    pub open spec fn starts(&self, inner: B, tx: L, clock: C, numbers: N) -> bool {
        &&& self.wf()
        &&& self.inner() == inner
        &&& self.tx() == tx
        &&& self.clock() == clock
        &&& self.numbers() == numbers
        &&& self.calls() == Seq::<BusEvent>::empty()
    }

    /// Observes `inner` with a frame buffer of `BUF` bytes, with timestamps from `clock`.
    pub fn with_buf_and_clock(inner: B, tx: L, clock: C, numbers: N) -> (bus: Self)
        requires
            BUF >= MAX_TRACE_FRAME,
        ensures
            bus.starts(inner, tx, clock, numbers),
    {
        TracingBus { common: TraceCommon::create(inner, tx, clock, numbers, BUF) }
    }

    /// The observed bus, to act on it unobserved.
    pub fn inner_mut(&mut self) -> (b: &mut B)
        ensures
            *b == old(self).inner(),
            final(self).inner() == *final(b),
            final(self).tx() == old(self).tx(),
            final(self).clock() == old(self).clock(),
            final(self).numbers() == old(self).numbers(),
            final(self).calls() == old(self).calls(),
            final(self).wf() == old(self).wf(),
    {
        &mut self.common.inner
    }

    /// Gives back the observed bus and the link.
    pub fn into_inner(self) -> (r: (B, L))
        ensures
            r == (self.inner(), self.tx()),
    {
        (self.common.inner, self.common.tx)
    }
}

impl<B, L: LinkTx, N: ReportNumbers> ReportOnlyBus<B, L, NoClock, N, MAX_TRACE_FRAME> {
    /// Observes the reports of `inner` over the link `tx`, without a clock.
    pub fn new(inner: B, tx: L, numbers: N) -> (bus: Self)
        ensures
            bus.starts(inner, tx, NoClock, numbers),
    {
        ReportOnlyBus {
            common: TraceCommon::create(inner, tx, NoClock, numbers, MAX_TRACE_FRAME),
        }
    }
}

impl<B, L: LinkTx, C: ReportClock, N: ReportNumbers> ReportOnlyBus<B, L, C, N, MAX_TRACE_FRAME> {
    /// Observes the reports of `inner` over the link `tx`, with timestamps from `clock`.
    pub fn new_with_clock(inner: B, tx: L, clock: C, numbers: N) -> (bus: Self)
        ensures
            bus.starts(inner, tx, clock, numbers),
    {
        ReportOnlyBus {
            common: TraceCommon::create(inner, tx, clock, numbers, MAX_TRACE_FRAME),
        }
    }
}

impl<B, L: LinkTx, N: ReportNumbers, const BUF: usize> ReportOnlyBus<B, L, NoClock, N, BUF> {
    /// Observes the reports of `inner` with a frame buffer of `BUF` bytes, without a clock.
    pub fn with_buf(inner: B, tx: L, numbers: N) -> (bus: Self)
        requires
            BUF >= MAX_TRACE_FRAME,
        ensures
            bus.starts(inner, tx, NoClock, numbers),
    {
        ReportOnlyBus { common: TraceCommon::create(inner, tx, NoClock, numbers, BUF) }
    }
}

impl<B, L: LinkTx, C: ReportClock, N: ReportNumbers, const BUF: usize> ReportOnlyBus<B, L, C, N, BUF> {
    /// The observed bus.
    pub closed spec fn inner(&self) -> B {
        self.common.inner
    }

    /// The link.
    pub closed spec fn tx(&self) -> L {
        self.common.tx
    }

    /// The clock.
    pub closed spec fn clock(&self) -> C {
        self.common.clock
    }

    /// The numbers of reports.
    pub closed spec fn numbers(&self) -> N {
        self.common.numbers
    }

    /// The operations that this bus was asked for, with their outcomes.
    pub closed spec fn calls(&self) -> Seq<BusEvent> {
        self.common.calls@
    }

    /// The frame buffer has its size.
    pub closed spec fn wf(&self) -> bool {
        &&& self.common.buf@.len() >= BUF
        &&& self.common.buf@.len() >= MAX_REPORT_FRAME
    }

    /// What a new bus is like.
    pub open spec fn starts(&self, inner: B, tx: L, clock: C, numbers: N) -> bool {
        &&& self.wf()
        &&& self.inner() == inner
        &&& self.tx() == tx
        &&& self.clock() == clock
        &&& self.numbers() == numbers
        &&& self.calls() == Seq::<BusEvent>::empty()
    }

    /// Observes the reports of `inner` with a frame buffer of `BUF` bytes, with timestamps from `clock`.
    pub fn with_buf_and_clock(inner: B, tx: L, clock: C, numbers: N) -> (bus: Self)
        requires
            BUF >= MAX_TRACE_FRAME,
        ensures
            bus.starts(inner, tx, clock, numbers),
    {
        ReportOnlyBus { common: TraceCommon::create(inner, tx, clock, numbers, BUF) }
    }

    /// The observed bus, to act on it unobserved.
    pub fn inner_mut(&mut self) -> (b: &mut B)
        ensures
            *b == old(self).inner(),
            final(self).inner() == *final(b),
            final(self).tx() == old(self).tx(),
            final(self).clock() == old(self).clock(),
            final(self).numbers() == old(self).numbers(),
            final(self).calls() == old(self).calls(),
            final(self).wf() == old(self).wf(),
    {
        &mut self.common.inner
    }

    /// Gives back the observed bus and the link.
    pub fn into_inner(self) -> (r: (B, L))
        ensures
            r == (self.inner(), self.tx()),
    {
        (self.common.inner, self.common.tx)
    }
}

/// The trace that a bus operation leaves, if it leaves one other than a report.
pub open spec fn trace_of_call(call: BusCall) -> Option<TraceView> {
    match call {
        BusCall::Select { kind, arg } => Some(TraceView::BusSelect { kind, arg }),
        BusCall::Read { addr, data } => Some(TraceView::Read { addr, data }),
        BusCall::Write { addr, data } => Some(TraceView::Write { addr, data }),
        BusCall::Delay { us } => Some(TraceView::Delay { us }),
        BusCall::Log { msg } => Some(TraceView::Log { msg: vstd::utf8::encode_utf8(msg) }),
        BusCall::WaitIrq { pin, .. } => Some(TraceView::Irq { pin }),
        BusCall::Report { .. } => None,
    }
}

/// What is sent after an operation with the given outcome: its trace in one write where it
/// succeeded, nothing where it failed.
pub open spec fn sent_for(call: BusCall, r: Result<(), BusError>) -> Seq<Seq<u8>> {
    match (r, trace_of_call(call)) {
        (Ok(_), Some(t)) => seq![wire::trace_frame(t)],
        _ => Seq::empty(),
    }
}

impl<B: Bus, L: LinkTx, C: ReportClock, N: ReportNumbers, const BUF: usize> TracingBus<
    B,
    L,
    C,
    N,
    BUF,
> {
    /// An operation was carried out once by the observed bus, and its trace sent where that bus
    /// answered that it succeeded. Only a report can be refused beyond that.
    pub open spec fn observed(&self, before: Self, call: BusCall, r: Result<(), BusError>) -> bool {
        let answer = self.inner().history().last().1;
        &&& self.wf()
        &&& self.clock() == before.clock()
        &&& self.inner().history() == before.inner().history().push((call, answer))
        &&& match call {
            BusCall::Report { kind, args } => report_answered(
                answer,
                before.tx().sent(),
                self.tx().sent(),
                before.numbers(),
                self.numbers().given(),
                before.clock(),
                kind,
                args,
                r,
            ),
            _ => {
                &&& r == answer
                &&& self.numbers() == before.numbers()
                &&& self.tx().sent() == before.tx().sent() + sent_for(call, r)
            },
        }
    }

    /// Sends the front of the frame buffer after an operation that succeeded, and notes the
    /// operation and its outcome.
    fn finish(&mut self, Ghost(call): Ghost<BusCall>, r: Result<(), BusError>, frame_len: usize)
        requires
            old(self).wf(),
            frame_len <= BUF,
            r is Ok ==> (trace_of_call(call) matches Some(t) && old(self).common.buf@.take(
                frame_len as int,
            ) == wire::trace_frame(t)),
        ensures
            final(self).wf(),
            final(self).inner() == old(self).inner(),
            final(self).clock() == old(self).clock(),
            final(self).numbers() == old(self).numbers(),
            final(self).tx().sent() == old(self).tx().sent() + sent_for(call, r),
            final(self).calls() == old(self).calls().push((call, r)),
    {
        if r.is_ok() {
            self.common.send(frame_len);
        }
        self.common.calls = Ghost(self.common.calls@.push((call, r)));
        assert(self.tx().sent() =~= old(self).tx().sent() + sent_for(call, r));
    }
}

impl<B: Bus, L: LinkTx, C: ReportClock, N: ReportNumbers, const BUF: usize> Bus for TracingBus<
    B,
    L,
    C,
    N,
    BUF,
> {
    open spec fn history(&self) -> Seq<BusEvent> {
        self.calls()
    }

    open spec fn takes(&self, call: BusCall) -> bool {
        &&& self.wf()
        &&& self.inner().takes(call)
        &&& match call {
            BusCall::Report { args, .. } => report_takes(args),
            _ => wire::trace_payload(trace_of_call(call)->Some_0).len() + OVERHEAD <= BUF,
        }
    }

    fn set_bus_kind(&mut self, kind: BusKind, arg: u32) -> (r: Result<(), BusError>)
        ensures
            final(self).observed(*old(self), BusCall::Select { kind, arg }, r),
    {
        let r = self.common.inner.set_bus_kind(kind, arg);
        let ghost call = BusCall::Select { kind, arg };
        assert(self.common.inner.history().last() == (call, r));
        let mut n: usize = 0;
        if r.is_ok() {
            n = encode_trace_bus_select(self.common.buf.as_mut_slice(), kind, arg);
            assert(self.common.buf@.take(n as int) =~= wire::trace_frame(TraceView::BusSelect { kind, arg }));
        }
        self.finish(Ghost(call), r, n);
        r
    }

    fn read(&mut self, addr: u32, data: &mut [u8]) -> (r: Result<(), BusError>)
        ensures
            final(self).observed(*old(self), BusCall::Read { addr, data: final(data)@ }, r),
    {
        let r = self.common.inner.read(addr, data);
        let ghost call = BusCall::Read { addr, data: data@ };
        assert(self.common.inner.history().last() == (call, r));
        let mut n: usize = 0;
        if r.is_ok() {
            n = encode_trace_rw(self.common.buf.as_mut_slice(), TRACE_OP_READ, addr, data);
            assert(self.common.buf@.take(n as int) =~= wire::trace_frame(TraceView::Read { addr, data: data@ }));
        }
        self.finish(Ghost(call), r, n);
        r
    }

    fn write(&mut self, addr: u32, data: &[u8]) -> (r: Result<(), BusError>)
        ensures
            final(self).observed(*old(self), BusCall::Write { addr, data: data@ }, r),
    {
        let r = self.common.inner.write(addr, data);
        let ghost call = BusCall::Write { addr, data: data@ };
        assert(self.common.inner.history().last() == (call, r));
        let mut n: usize = 0;
        if r.is_ok() {
            n = encode_trace_rw(self.common.buf.as_mut_slice(), TRACE_OP_WRITE, addr, data);
            assert(self.common.buf@.take(n as int) =~= wire::trace_frame(TraceView::Write { addr, data: data@ }));
        }
        self.finish(Ghost(call), r, n);
        r
    }

    fn delay_us(&mut self, us: u32) -> (r: Result<(), BusError>)
        ensures
            final(self).observed(*old(self), BusCall::Delay { us }, r),
    {
        let r = self.common.inner.delay_us(us);
        let ghost call = BusCall::Delay { us };
        assert(self.common.inner.history().last() == (call, r));
        let mut n: usize = 0;
        if r.is_ok() {
            n = encode_trace_delay(self.common.buf.as_mut_slice(), us);
            assert(self.common.buf@.take(n as int) =~= wire::trace_frame(TraceView::Delay { us }));
        }
        self.finish(Ghost(call), r, n);
        r
    }

    fn log(&mut self, msg: &str) -> (r: Result<(), BusError>)
        ensures
            final(self).observed(*old(self), BusCall::Log { msg: msg@ }, r),
    {
        let r = self.common.inner.log(msg);
        let ghost call = BusCall::Log { msg: msg@ };
        assert(self.common.inner.history().last() == (call, r));
        let mut n: usize = 0;
        if r.is_ok() {
            n = encode_trace_log(self.common.buf.as_mut_slice(), msg);
            assert(self.common.buf@.take(n as int) =~= wire::trace_frame(TraceView::Log { msg: vstd::utf8::encode_utf8(msg@) }));
        }
        self.finish(Ghost(call), r, n);
        r
    }

    fn wait_irq(&mut self, pin: u8, timeout_ms: u32) -> (r: Result<(), BusError>)
        ensures
            final(self).observed(*old(self), BusCall::WaitIrq { pin, timeout_ms }, r),
    {
        let r = self.common.inner.wait_irq(pin, timeout_ms);
        let ghost call = BusCall::WaitIrq { pin, timeout_ms };
        assert(self.common.inner.history().last() == (call, r));
        let mut n: usize = 0;
        if r.is_ok() {
            n = encode_trace_irq(self.common.buf.as_mut_slice(), pin);
            assert(self.common.buf@.take(n as int) =~= wire::trace_frame(TraceView::Irq { pin }));
        }
        self.finish(Ghost(call), r, n);
        r
    }

    fn report(&mut self, kind: u32, args: &[ReportArg<'_>]) -> (r: Result<(), BusError>)
        ensures
            final(self).observed(
                *old(self),
                BusCall::Report { kind, args: wire::args_view(args@) },
                r,
            ),
    {
        let answer = self.common.inner.report(kind, args);
        assert(self.common.inner.history().last().1 == answer);
        self.common.answer_report(answer, kind, args)
    }
}

impl<B: Bus, L: LinkTx, C: ReportClock, N: ReportNumbers, const BUF: usize> ReportOnlyBus<
    B,
    L,
    C,
    N,
    BUF,
> {
    /// An operation was carried out once by the observed bus. A report that this bus took is sent,
    /// and nothing else is.
    pub open spec fn observed(&self, before: Self, call: BusCall, r: Result<(), BusError>) -> bool {
        let answer = self.inner().history().last().1;
        &&& self.wf()
        &&& self.clock() == before.clock()
        &&& self.inner().history() == before.inner().history().push((call, answer))
        &&& match call {
            BusCall::Report { kind, args } => report_answered(
                answer,
                before.tx().sent(),
                self.tx().sent(),
                before.numbers(),
                self.numbers().given(),
                before.clock(),
                kind,
                args,
                r,
            ),
            _ => {
                &&& r == answer
                &&& self.numbers() == before.numbers()
                &&& self.tx() == before.tx()
            },
        }
    }

    fn note(&mut self, Ghost(event): Ghost<BusEvent>)
        ensures
            final(self).wf() == old(self).wf(),
            final(self).inner() == old(self).inner(),
            final(self).tx() == old(self).tx(),
            final(self).clock() == old(self).clock(),
            final(self).numbers() == old(self).numbers(),
            final(self).calls() == old(self).calls().push(event),
    {
        self.common.calls = Ghost(self.common.calls@.push(event));
    }
}

impl<B: Bus, L: LinkTx, C: ReportClock, N: ReportNumbers, const BUF: usize> Bus for ReportOnlyBus<
    B,
    L,
    C,
    N,
    BUF,
> {
    open spec fn history(&self) -> Seq<BusEvent> {
        self.calls()
    }

    open spec fn takes(&self, call: BusCall) -> bool {
        &&& self.wf()
        &&& self.inner().takes(call)
        &&& call matches BusCall::Report { args, .. } ==> report_takes(args)
    }

    fn set_bus_kind(&mut self, kind: BusKind, arg: u32) -> (r: Result<(), BusError>)
        ensures
            final(self).observed(*old(self), BusCall::Select { kind, arg }, r),
    {
        let r = self.common.inner.set_bus_kind(kind, arg);
        assert(self.common.inner.history().last().1 == r);
        self.note(Ghost((BusCall::Select { kind, arg }, r)));
        r
    }

    fn read(&mut self, addr: u32, data: &mut [u8]) -> (r: Result<(), BusError>)
        ensures
            final(self).observed(*old(self), BusCall::Read { addr, data: final(data)@ }, r),
    {
        let r = self.common.inner.read(addr, data);
        assert(self.common.inner.history().last().1 == r);
        self.note(Ghost((BusCall::Read { addr, data: data@ }, r)));
        r
    }

    fn write(&mut self, addr: u32, data: &[u8]) -> (r: Result<(), BusError>)
        ensures
            final(self).observed(*old(self), BusCall::Write { addr, data: data@ }, r),
    {
        let r = self.common.inner.write(addr, data);
        assert(self.common.inner.history().last().1 == r);
        self.note(Ghost((BusCall::Write { addr, data: data@ }, r)));
        r
    }

    fn delay_us(&mut self, us: u32) -> (r: Result<(), BusError>)
        ensures
            final(self).observed(*old(self), BusCall::Delay { us }, r),
    {
        let r = self.common.inner.delay_us(us);
        assert(self.common.inner.history().last().1 == r);
        self.note(Ghost((BusCall::Delay { us }, r)));
        r
    }

    fn log(&mut self, msg: &str) -> (r: Result<(), BusError>)
        ensures
            final(self).observed(*old(self), BusCall::Log { msg: msg@ }, r),
    {
        let r = self.common.inner.log(msg);
        assert(self.common.inner.history().last().1 == r);
        self.note(Ghost((BusCall::Log { msg: msg@ }, r)));
        r
    }

    fn wait_irq(&mut self, pin: u8, timeout_ms: u32) -> (r: Result<(), BusError>)
        ensures
            final(self).observed(*old(self), BusCall::WaitIrq { pin, timeout_ms }, r),
    {
        let r = self.common.inner.wait_irq(pin, timeout_ms);
        assert(self.common.inner.history().last().1 == r);
        self.note(Ghost((BusCall::WaitIrq { pin, timeout_ms }, r)));
        r
    }

    fn report(&mut self, kind: u32, args: &[ReportArg<'_>]) -> (r: Result<(), BusError>)
        ensures
            final(self).observed(
                *old(self),
                BusCall::Report { kind, args: wire::args_view(args@) },
                r,
            ),
    {
        let answer = self.common.inner.report(kind, args);
        assert(self.common.inner.history().last().1 == answer);
        self.common.answer_report(answer, kind, args)
    }
}

} // verus!
