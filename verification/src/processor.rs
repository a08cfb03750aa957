//! What becomes of the operations and reports of a device.
use crate::catalog::AccessKind;
use crate::decoder::ReportDecoder;
use crate::decoder::DecoderView;
use crate::health;
use crate::health::{ReportHealth, ReportHealthTracker};
use crate::report;
use crate::report::{
    copy_args, first_report_bytes, first_report_u32, format_report_args, format_report_meta,
    hex_preview, report_kind_label, BusOp, ReportArg, ReportKinds,
};
use crate::samples;
use crate::samples::{
    decode_i16_le_fifo_samples, I16LeFieldValue, I16LeFifoSample, MotionSample,
    ReportDecoderRegistry,
};
use crate::samples::MotionView;
use crate::text;
use crate::text::{dec_text, push_dec, push_hex};
use crate::wire::{ArgView, ReportMeta};
use vstd::prelude::*;

verus! {

/// What is known of a report.
#[derive(Debug, Clone, PartialEq, Eq)]
pub struct ReportSummary {
    pub meta: Option<ReportMeta>,
    pub kind: u32,
    pub args: Vec<ReportArg>,
    pub label: String,
    pub line: String,
    pub fifo_len: Option<u32>,
    pub data_len: Option<usize>,
    pub sample_count: usize,
    pub trailing_bytes: usize,
    pub health: ReportHealth,
}

/// What is known of a report, as a mathematical value.
pub struct SummaryView {
    pub meta: Option<ReportMeta>,
    pub kind: u32,
    pub args: Seq<ArgView>,
    pub label: Seq<char>,
    pub line: Seq<char>,
    pub fifo_len: Option<u32>,
    pub data_len: Option<nat>,
    pub sample_count: nat,
    pub trailing_bytes: nat,
    pub health: ReportHealth,
}

impl ReportSummary {
    pub open spec fn view(self) -> SummaryView {
        SummaryView {
            meta: self.meta,
            kind: self.kind,
            args: report::arg_views(self.args@),
            label: self.label@,
            line: self.line@,
            fifo_len: self.fifo_len,
            data_len: match self.data_len {
                Some(n) => Some(n as nat),
                None => None,
            },
            sample_count: self.sample_count as nat,
            trailing_bytes: self.trailing_bytes as nat,
            health: self.health,
        }
    }
}

/// What happens in a session.
#[allow(inconsistent_fields)]
#[derive(Debug, Clone, PartialEq, Eq)]
pub enum SessionEvent {
    Connected { label: String },
    Disconnected,
    Log(String),
    Error(String),
    ExecStatus(String),
    Register { addr: u32, access: AccessKind, data: Vec<u8> },
    Sample(MotionSample),
    Report(ReportSummary),
    Health(ReportHealth),
}

/// What happens in a session, as a mathematical value.
pub enum EventView {
    Connected(Seq<char>),
    Disconnected,
    Log(Seq<char>),
    Error(Seq<char>),
    ExecStatus(Seq<char>),
    Register(u32, AccessKind, Seq<u8>),
    Sample(MotionView),
    Report(SummaryView),
    Health(ReportHealth),
}

impl SessionEvent {
    pub open spec fn view(self) -> EventView {
        match self {
            Self::Connected { label } => EventView::Connected(label@),
            Self::Disconnected => EventView::Disconnected,
            Self::Log(s) => EventView::Log(s@),
            Self::Error(s) => EventView::Error(s@),
            Self::ExecStatus(s) => EventView::ExecStatus(s@),
            Self::Register { addr, access, data } => EventView::Register(addr, access, data@),
            Self::Sample(m) => EventView::Sample(m.view()),
            Self::Report(s) => EventView::Report(s.view()),
            Self::Health(h) => EventView::Health(h),
        }
    }
}

/// What a list of events stands for.
pub open spec fn event_views(events: Seq<SessionEvent>) -> Seq<EventView> {
    events.map_values(|e: SessionEvent| e.view())
}

/// A number, or a question mark where there is none.
pub open spec fn dec_or_unknown(n: Option<u32>) -> Seq<char> {
    match n {
        Some(n) => text::dec(n as nat),
        None => "?"@,
    }
}

fn text_or_unknown(n: Option<u32>) -> (s: String)
    ensures
        s@ == dec_or_unknown(n),
{
    match n {
        Some(n) => dec_text(n as u128),
        None => "?".to_owned(),
    }
}

/// How many whole samples the bytes hold.
pub open spec fn sample_count(bytes: Seq<u8>, d: DecoderView) -> nat {
    samples::samples_from(bytes, 0, d.fields.len()).len()
}

/// What is shown of decoded samples.
pub open spec fn decoded_text(d: DecoderView, fifo_len: Option<u32>, bytes: Seq<u8>) -> Seq<char> {
    let head = " decoder="@ + d.label + " output="@ + d.output.name() + " fifo_len="@
        + dec_or_unknown(fifo_len) + " data_len="@ + text::dec(bytes.len()) + " samples="@
        + text::dec(sample_count(bytes, d));
    let left = samples::left_over(bytes.len(), d.fields.len());
    if left != 0 {
        head + " partial_bytes="@ + text::dec(left)
    } else {
        head
    }
}

/// What is shown of a report behind its kind and its metadata.
pub open spec fn body_text(fifo: bool, decoder: Option<DecoderView>, args: Seq<ArgView>) -> Seq<
    char,
> {
    let bytes = report::first_bytes(args);
    let all = report::args_text(args);
    if fifo && bytes is Some && decoder is Some {
        decoded_text(decoder->Some_0, report::first_u32(args), bytes->Some_0)
    } else if fifo && bytes is Some {
        " data_len="@ + text::dec(bytes->Some_0.len()) + " raw=["@ + report::preview_text(
            bytes->Some_0,
            24,
        ) + "]"@
    } else if fifo || all.len() > 0 {
        " args=["@ + all + "]"@
    } else {
        Seq::empty()
    }
}

/// The decoder of a kind, if it has one.
pub open spec fn decoder_of(decoders: Map<u32, ReportDecoder>, kind: u32) -> Option<DecoderView> {
    if decoders.dom().contains(kind) {
        Some(decoders[kind].view())
    } else {
        None
    }
}

/// What is known of a report, the counts being `health` after it.
pub open spec fn summary_of(
    kinds: ReportKinds,
    decoders: Map<u32, ReportDecoder>,
    health: ReportHealth,
    meta: Option<ReportMeta>,
    kind: u32,
    args: Seq<ArgView>,
) -> SummaryView {
    let fifo = kind == kinds.fifo_raw;
    let decoder = decoder_of(decoders, kind);
    let bytes = report::first_bytes(args);
    let label = report::kind_label(kinds.names@, kind);
    let decoded = fifo && bytes is Some && decoder is Some;
    SummaryView {
        meta,
        kind,
        args,
        label,
        line: label + report::meta_text(meta) + body_text(fifo, decoder, args),
        fifo_len: if fifo {
            report::first_u32(args)
        } else {
            None
        },
        data_len: if fifo && bytes is Some {
            Some(bytes->Some_0.len())
        } else {
            None
        },
        sample_count: if decoded {
            sample_count(bytes->Some_0, decoder->Some_0)
        } else {
            0
        },
        trailing_bytes: if decoded {
            samples::left_over(bytes->Some_0.len(), decoder->Some_0.fields.len())
        } else {
            0
        },
        health,
    }
}

/// The motion in samples, one event each where a sample shows it.
pub open spec fn motion_events(
    all: Seq<Seq<I16LeFieldValue>>,
    d: DecoderView,
    meta: Option<ReportMeta>,
) -> Seq<EventView>
    decreases all.len(),
{
    if all.len() == 0 {
        Seq::empty()
    } else {
        match samples::motion_of(all.last(), d, meta) {
            Some(m) => motion_events(all.drop_last(), d, meta).push(EventView::Sample(m)),
            None => motion_events(all.drop_last(), d, meta),
        }
    }
}

/// What happens on a report, the counts being `health` after it: the motion in its samples,
/// what is known of it, and the counts.
pub open spec fn report_events(
    kinds: ReportKinds,
    decoders: Map<u32, ReportDecoder>,
    health: ReportHealth,
    meta: Option<ReportMeta>,
    kind: u32,
    args: Seq<ArgView>,
) -> Seq<EventView> {
    let decoder = decoder_of(decoders, kind);
    let bytes = report::first_bytes(args);
    let motion = if kind == kinds.fifo_raw && bytes is Some && decoder is Some {
        motion_events(
            samples::samples_from(bytes->Some_0, 0, decoder->Some_0.fields.len()),
            decoder->Some_0,
            meta,
        )
    } else {
        Seq::empty()
    };
    motion.push(EventView::Report(summary_of(kinds, decoders, health, meta, kind, args))).push(
        EventView::Health(health),
    )
}

/// What happens on an operation other than a report.
pub open spec fn op_event(op: BusOp) -> EventView {
    match op {
        BusOp::Read { addr, data } => EventView::Register(addr, AccessKind::Read, data@),
        BusOp::Write { addr, data } => EventView::Register(addr, AccessKind::Write, data@),
        BusOp::Delay { us } => EventView::Log("delay "@ + text::dec(us as nat) + "us"@),
        BusOp::Log { msg } => EventView::Log(msg@),
        BusOp::Irq { pin } => EventView::Log("irq pin "@ + text::dec(pin as nat)),
        BusOp::BusSelect { bus, arg } => EventView::Log(
            "bus select "@ + bus@ + " arg=0x"@ + text::hex(arg as nat, 1),
        ),
        BusOp::Report { .. } => arbitrary(),
    }
}

/// Turns operations and reports into events, keeping count of the reports.
#[derive(Debug, Clone)]
pub struct ReportProcessor {
    decoders: ReportDecoderRegistry,
    kinds: ReportKinds,
    health: ReportHealthTracker,
}

fn push_decoded(line: &mut String, decoder: &crate::decoder::I16LeReportDecoder, fifo_len: Option<
    u32,
>, data_len: usize, count: usize, left: usize)
    ensures
        final(line)@ == old(line)@ + (" decoder="@ + decoder.view().label + " output="@
            + decoder.view().output.name() + " fifo_len="@ + dec_or_unknown(fifo_len)
            + " data_len="@ + text::dec(data_len as nat) + " samples="@ + text::dec(count as nat)
            + (if left != 0 {
            " partial_bytes="@ + text::dec(left as nat)
        } else {
            Seq::empty()
        })),
{
    let ghost before = line@;
    line.push_str(" decoder=");
    line.push_str(decoder.label.as_str());
    line.push_str(" output=");
    line.push_str(decoder.output.as_str());
    line.push_str(" fifo_len=");
    line.push_str(text_or_unknown(fifo_len).as_str());
    line.push_str(" data_len=");
    push_dec(line, data_len as u128);
    line.push_str(" samples=");
    push_dec(line, count as u128);
    let ghost head = " decoder="@ + decoder.view().label + " output="@
        + decoder.view().output.name() + " fifo_len="@ + dec_or_unknown(fifo_len) + " data_len="@
        + text::dec(data_len as nat) + " samples="@ + text::dec(count as nat);
    assert(line@ =~= before + head);
    if left != 0 {
        line.push_str(" partial_bytes=");
        push_dec(line, left as u128);
        assert(line@ =~= before + (head + (" partial_bytes="@ + text::dec(left as nat))));
    } else {
        assert(head + Seq::<char>::empty() =~= head);
    }
}

fn push_motion(
    events: &mut Vec<SessionEvent>,
    list: &[I16LeFifoSample],
    decoder: &crate::decoder::I16LeReportDecoder,
    meta: Option<ReportMeta>,
)
    requires
        forall|i: int|
            0 <= i < list.len() ==> samples::indexed(
                (#[trigger] list@[i]).values@,
                decoder.view().fields.len(),
            ),
        old(events)@.len() == 0,
    ensures
        event_views(final(events)@) == motion_events(
            samples::sample_views(list@),
            decoder.view(),
            meta,
        ),
{
    let ghost all = samples::sample_views(list@);
    let mut i: usize = 0;
    assert(event_views(events@) =~= Seq::<EventView>::empty());
    while i < list.len()
        invariant
            i <= list.len(),
            all == samples::sample_views(list@),
            forall|k: int|
                0 <= k < list.len() ==> samples::indexed(
                    (#[trigger] list@[k]).values@,
                    decoder.view().fields.len(),
                ),
            event_views(events@) == motion_events(all.take(i as int), decoder.view(), meta),
        decreases list.len() - i,
    {
        assert(all.take(i + 1).drop_last() =~= all.take(i as int));
        assert(all[i as int] == list@[i as int].values@);
        let ghost before = events@;
        match list[i].to_motion(decoder, meta) {
            Some(m) => {
                events.push(SessionEvent::Sample(m));
                assert(event_views(events@) =~= event_views(before).push(
                    EventView::Sample(m.view()),
                ));
            },
            None => {},
        }
        i += 1;
    }
    assert(all.take(all.len() as int) =~= all);
}

impl ReportProcessor {
    pub closed spec fn decoder_map(self) -> Map<u32, ReportDecoder> {
        self.decoders@
    }

    pub closed spec fn kind_table(self) -> ReportKinds {
        self.kinds
    }

    pub closed spec fn counts(self) -> ReportHealth {
        self.health@
    }

    /// A processor with the given decoders that has seen no report.
    pub fn new(decoders: ReportDecoderRegistry, kinds: ReportKinds) -> (p: Self)
        ensures
            p.decoder_map() == decoders@,
            p.kind_table() == kinds,
            p.counts() == health::no_reports(),
    {
        ReportProcessor { decoders, kinds, health: ReportHealthTracker::default() }
    }

    /// The decoders.
    pub fn decoders(&self) -> (d: &ReportDecoderRegistry)
        ensures
            d@ == self.decoder_map(),
    {
        &self.decoders
    }

    /// The counts of the reports so far.
    pub fn health(&self) -> (h: ReportHealth)
        ensures
            h == self.counts(),
    {
        self.health.health()
    }

    /// What happens on an operation.
    pub fn handle_bus_op(&mut self, op: BusOp) -> (events: Vec<SessionEvent>)
        requires
            op matches BusOp::Report { meta, .. } ==> health::health_room(
                old(self).counts(),
                meta,
            ),
        ensures
            final(self).decoder_map() == old(self).decoder_map(),
            final(self).kind_table() == old(self).kind_table(),
            match op {
                BusOp::Report { meta, kind, args } => {
                    &&& final(self).counts() == health::health_after(old(self).counts(), meta)
                    &&& event_views(events@) == report_events(
                        old(self).kind_table(),
                        old(self).decoder_map(),
                        final(self).counts(),
                        meta,
                        kind,
                        report::arg_views(args@),
                    )
                },
                _ => {
                    &&& final(self).counts() == old(self).counts()
                    &&& event_views(events@) == seq![op_event(op)]
                },
            },
    {
        let event = match op {
            BusOp::Read { addr, data } => SessionEvent::Register {
                addr,
                access: AccessKind::Read,
                data,
            },
            BusOp::Write { addr, data } => SessionEvent::Register {
                addr,
                access: AccessKind::Write,
                data,
            },
            BusOp::Delay { us } => {
                let mut s: String = "delay ".to_owned();
                push_dec(&mut s, us as u128);
                s.push_str("us");
                SessionEvent::Log(s)
            },
            BusOp::Log { msg } => SessionEvent::Log(msg),
            BusOp::Irq { pin } => {
                let mut s: String = "irq pin ".to_owned();
                push_dec(&mut s, pin as u128);
                SessionEvent::Log(s)
            },
            BusOp::BusSelect { bus, arg } => {
                let mut s: String = "bus select ".to_owned();
                s.push_str(bus.as_str());
                s.push_str(" arg=0x");
                push_hex(&mut s, arg as u128, 1);
                SessionEvent::Log(s)
            },
            BusOp::Report { meta, kind, args } => {
                return self.handle_report(meta, kind, &args);
            },
        };
        let mut events: Vec<SessionEvent> = Vec::new();
        events.push(event);
        assert(event_views(events@) =~= seq![op_event(op)]);
        events
    }

    /// What happens on a report.
    pub fn handle_report(&mut self, meta: Option<ReportMeta>, kind: u32, args: &[ReportArg]) -> (events:
        Vec<SessionEvent>)
        requires
            health::health_room(old(self).counts(), meta),
        ensures
            final(self).decoder_map() == old(self).decoder_map(),
            final(self).kind_table() == old(self).kind_table(),
            final(self).counts() == health::health_after(old(self).counts(), meta),
            event_views(events@) == report_events(
                old(self).kind_table(),
                old(self).decoder_map(),
                final(self).counts(),
                meta,
                kind,
                report::arg_views(args@),
            ),
    {
        let health = self.health.observe(meta);
        let label = report_kind_label(&self.kinds, kind);
        let mut line: String = label.clone();
        line.push_str(format_report_meta(meta).as_str());
        let ghost head = line@;
        let mut events: Vec<SessionEvent> = Vec::new();
        let mut fifo_len: Option<u32> = None;
        let mut data_len: Option<usize> = None;
        let mut sample_count: usize = 0;
        let mut trailing_bytes: usize = 0;
        let ghost view = report::arg_views(args@);
        let ghost decoder = decoder_of(self.decoder_map(), kind);
        assert(event_views(events@) =~= Seq::<EventView>::empty());
        if kind == self.kinds.fifo_raw {
            fifo_len = first_report_u32(args);
            match first_report_bytes(args) {
                Some(bytes) => {
                    data_len = Some(bytes.len());
                    match self.decoders.get(kind) {
                        Some(ReportDecoder::I16Le(decoder)) => {
                            let decoded = decode_i16_le_fifo_samples(bytes, decoder);
                            sample_count = decoded.samples.len();
                            trailing_bytes = decoded.trailing_bytes;
                            assert(samples::sample_views(decoded.samples@).len() == sample_count);
                            push_decoded(
                                &mut line,
                                decoder,
                                fifo_len,
                                bytes.len(),
                                sample_count,
                                trailing_bytes,
                            );
                            push_motion(&mut events, &decoded.samples, decoder, meta);
                            proof {
                                let d = decoder.view();
                                let h = " decoder="@ + d.label + " output="@ + d.output.name()
                                    + " fifo_len="@ + dec_or_unknown(fifo_len) + " data_len="@
                                    + text::dec(bytes@.len()) + " samples="@ + text::dec(
                                    sample_count as nat,
                                );
                                assert(h + Seq::<char>::empty() =~= h);
                                assert(h + (" partial_bytes="@ + text::dec(trailing_bytes as nat))
                                    =~= h + " partial_bytes="@ + text::dec(trailing_bytes as nat));
                            }
                        },
                        None => {
                            line.push_str(" data_len=");
                            push_dec(&mut line, bytes.len() as u128);
                            line.push_str(" raw=[");
                            line.push_str(hex_preview(bytes, 24).as_str());
                            line.push_str("]");
                            assert(line@ =~= head + (" data_len="@ + text::dec(bytes@.len())
                                + " raw=["@ + report::preview_text(bytes@, 24) + "]"@));
                        },
                    }
                },
                None => {
                    line.push_str(" args=[");
                    line.push_str(format_report_args(args).as_str());
                    line.push_str("]");
                    assert(line@ =~= head + (" args=["@ + report::args_text(view) + "]"@));
                },
            }
        } else {
            let all = format_report_args(args);
            if text::chars_of(all.as_str()).len() > 0 {
                line.push_str(" args=[");
                line.push_str(all.as_str());
                line.push_str("]");
                assert(line@ =~= head + (" args=["@ + report::args_text(view) + "]"@));
            } else {
                assert(line@ =~= head + Seq::<char>::empty());
            }
        }
        assert(line@ == head + body_text(kind == self.kinds.fifo_raw, decoder, view));
        let summary = ReportSummary {
            meta,
            kind,
            args: copy_args(args),
            label,
            line,
            fifo_len,
            data_len,
            sample_count,
            trailing_bytes,
            health,
        };
        let ghost motion = event_views(events@);
        let ghost before = events@;
        events.push(SessionEvent::Report(summary));
        events.push(SessionEvent::Health(health));
        assert(event_views(events@) =~= motion.push(EventView::Report(summary.view())).push(
            EventView::Health(health),
        ));
        events
    }
}

} // verus!
