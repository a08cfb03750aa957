//! The workbench: what it has seen of a session.
use crate::bounded;
use crate::bounded::{push_bounded, push_vec_capped};
use crate::capture;
use crate::capture::ReportCaptureRecord;
use crate::capture::RecordView;
use crate::catalog;
use crate::catalog::AccessKind;
use crate::connection::LinkOptions;
use crate::health;
use crate::health::ReportHealth;
use crate::history;
use crate::history::History;
use crate::history::HistoryView;
use crate::le::copy_range;
use crate::modes::LinkMode;
use crate::numbers;
use crate::numbers::parse_nonnegative_usize;
use crate::panel;
use crate::panel::RegisterPanel;
use crate::processor;
use crate::processor::{ReportProcessor, SessionEvent};
use crate::processor::EventView;
use crate::report;
use crate::report::copy_args;
use crate::samples::{MotionSample, ReportDecoderRegistry};
use crate::samples::MotionView;
use crate::session;
use crate::session::{CompiledProgram, SessionConfig, MAX_TEXT_LINES};
use crate::text;
use crate::text::push_dec;
use std::collections::VecDeque;
use vstd::prelude::*;

verus! {

/// How many samples are kept.
pub const MAX_SAMPLES: usize = 600;

/// How many reports are kept to be saved.
pub const MAX_CAPTURE_RECORDS: usize = 200_000;

/// How many events are taken at once at most, but for one.
pub const EVENT_BATCH: usize = 4096;

/// Whether another event is taken, once some were.
pub fn takes_another(taken: usize) -> (r: bool)
    ensures
        r == (taken <= EVENT_BATCH),
{
    taken <= EVENT_BATCH
}

/// What the workbench has seen, but for registers, as a mathematical value.
#[verifier::ext_equal]
pub struct StreamView {
    pub connected: bool,
    pub label: Seq<char>,
    pub mode: Seq<char>,
    pub logs: Seq<Seq<char>>,
    pub reports: Seq<Seq<char>>,
    pub capture: Seq<RecordView>,
    pub samples: Seq<MotionView>,
    pub skip_count: nat,
    pub skip_remaining: nat,
    pub history: HistoryView,
    pub health: ReportHealth,
}

/// What was seen, and one more line in the log.
pub open spec fn logged(v: StreamView, line: Seq<char>) -> StreamView {
    StreamView { logs: bounded::bounded(v.logs, line, MAX_TEXT_LINES as nat), ..v }
}

/// What was seen, and one more sample. The first ones are skipped as was asked for.
pub open spec fn sampled(v: StreamView, m: MotionView, now: u64) -> StreamView {
    if v.skip_remaining > 0 {
        StreamView { skip_remaining: (v.skip_remaining - 1) as nat, ..v }
    } else {
        StreamView {
            samples: bounded::bounded(v.samples, m, MAX_SAMPLES as nat),
            history: history::history_with(v.history, m.acc, m.gyro, m.timestamp_us, now),
            ..v
        }
    }
}

/// What was seen after an event.
pub open spec fn after_event(v: StreamView, e: EventView, now: u64) -> StreamView {
    match e {
        EventView::Connected(label) => StreamView { connected: true, label, ..v },
        EventView::Disconnected => StreamView {
            connected: false,
            ..logged(v, "session disconnected"@)
        },
        EventView::Log(line) => logged(v, line),
        EventView::Error(line) => logged(v, "error: "@ + line),
        EventView::ExecStatus(status) => logged(v, "exec status: "@ + status),
        EventView::Register(_, _, _) => v,
        EventView::Sample(m) => sampled(v, m, now),
        EventView::Report(s) => StreamView {
            capture: bounded::capped(
                v.capture,
                RecordView { meta: s.meta, kind: s.kind, args: s.args },
                MAX_CAPTURE_RECORDS as nat,
            ),
            reports: bounded::bounded(v.reports, s.line, MAX_TEXT_LINES as nat),
            ..v
        },
        EventView::Health(health) => StreamView { health, ..v },
    }
}

/// What was seen after events.
pub open spec fn after_events(v: StreamView, events: Seq<EventView>, now: u64) -> StreamView
    decreases events.len(),
{
    if events.len() == 0 {
        v
    } else {
        after_event(after_events(v, events.drop_last(), now), events.last(), now)
    }
}

/// What was seen after events, each at its time.
pub open spec fn after_timed_events(v: StreamView, events: Seq<EventView>, times: Seq<u64>) -> StreamView
    decreases events.len(),
{
    if events.len() == 0 {
        v
    } else {
        after_event(
            after_timed_events(v, events.drop_last(), times),
            events.last(),
            times[events.len() - 1],
        )
    }
}

/// What is known of registers after an event, `hidden` being the addresses that may not be dumped.
pub open spec fn known_after(
    values: Map<u32, (AccessKind, Seq<u8>)>,
    hidden: spec_fn(u32) -> bool,
    e: EventView,
) -> Map<u32, (AccessKind, Seq<u8>)> {
    match e {
        EventView::Register(addr, access, data) => panel::recorded(
            values,
            addr,
            access,
            data,
            hidden,
        ),
        _ => values,
    }
}

/// What is known of registers after events.
pub open spec fn known_after_all(
    values: Map<u32, (AccessKind, Seq<u8>)>,
    hidden: spec_fn(u32) -> bool,
    events: Seq<EventView>,
) -> Map<u32, (AccessKind, Seq<u8>)>
    decreases events.len(),
{
    if events.len() == 0 {
        values
    } else {
        known_after(known_after_all(values, hidden, events.drop_last()), hidden, events.last())
    }
}

/// Whether the addresses of what an event tells of registers are addresses.
pub open spec fn event_fits(p: RegisterPanel, e: EventView) -> bool {
    match e {
        EventView::Register(addr, _, data) => {
            &&& addr + data.len() <= 0x1_0000_0000
            &&& p.reaches(addr)
            &&& forall|a: u32| addr <= a < addr + data.len() ==> #[trigger] p.reaches(a)
        },
        _ => true,
    }
}

/// Before anything of a stream was seen.
pub open spec fn cleared(v: StreamView, clear_capture: bool) -> StreamView {
    StreamView {
        samples: Seq::empty(),
        history: HistoryView { bars: Seq::empty(), bucket: None },
        health: health::no_reports(),
        skip_remaining: v.skip_count,
        capture: if clear_capture {
            Seq::empty()
        } else {
            v.capture
        },
        ..v
    }
}

/// What samples stand for.
pub open spec fn motion_views(samples: Seq<MotionSample>) -> Seq<MotionView> {
    samples.map_values(|m: MotionSample| m.view())
}

/// The workbench.
#[derive(Debug, Clone)]
pub struct Workbench {
    pub panel: RegisterPanel,
    pub connected: bool,
    pub connection_label: String,
    pub session_mode: String,
    pub logs: VecDeque<String>,
    pub reports: VecDeque<String>,
    pub capture_records: Vec<ReportCaptureRecord>,
    pub samples: VecDeque<MotionSample>,
    pub sample_skip_count: usize,
    pub sample_skip_remaining: usize,
    pub history: History,
    pub health: ReportHealth,
}

impl Workbench {
    /// What was seen, but for registers.
    pub open spec fn stream(self) -> StreamView {
        StreamView {
            connected: self.connected,
            label: self.connection_label@,
            mode: self.session_mode@,
            logs: text::texts(self.logs@),
            reports: text::texts(self.reports@),
            capture: capture::records_view(self.capture_records@),
            samples: motion_views(self.samples@),
            skip_count: self.sample_skip_count as nat,
            skip_remaining: self.sample_skip_remaining as nat,
            history: self.history.view(),
            health: self.health,
        }
    }

    /// A workbench that has seen nothing.
    pub fn new(panel: RegisterPanel) -> (w: Self)
        ensures
            w.panel == panel,
            w.stream() == (StreamView {
                connected: false,
                label: "disconnected"@,
                mode: "idle"@,
                logs: Seq::empty(),
                reports: Seq::empty(),
                capture: Seq::empty(),
                samples: Seq::empty(),
                skip_count: 0,
                skip_remaining: 0,
                history: HistoryView { bars: Seq::empty(), bucket: None },
                health: health::no_reports(),
            }),
    {
        let w = Workbench {
            panel,
            connected: false,
            connection_label: "disconnected".to_owned(),
            session_mode: "idle".to_owned(),
            logs: VecDeque::new(),
            reports: VecDeque::new(),
            capture_records: Vec::new(),
            samples: VecDeque::new(),
            sample_skip_count: 0,
            sample_skip_remaining: 0,
            history: History::new(),
            health: ReportHealth::default(),
        };
        assert(w.stream().logs =~= Seq::<Seq<char>>::empty());
        assert(w.stream().reports =~= Seq::<Seq<char>>::empty());
        assert(w.stream().capture =~= Seq::<RecordView>::empty());
        assert(w.stream().samples =~= Seq::<MotionView>::empty());
        w
    }

    /// Adds a line to the log.
    pub fn log(&mut self, line: String)
        ensures
            final(self).stream() == logged(old(self).stream(), line@),
            final(self).panel == old(self).panel,
    {
        push_bounded(&mut self.logs, line, MAX_TEXT_LINES);
        assert(self.stream().logs =~= bounded::bounded(
            old(self).stream().logs,
            line@,
            MAX_TEXT_LINES as nat,
        ));
    }

    fn keep_report(&mut self, record: ReportCaptureRecord, line: String)
        ensures
            final(self).stream() == (StreamView {
                capture: bounded::capped(
                    old(self).stream().capture,
                    record.view(),
                    MAX_CAPTURE_RECORDS as nat,
                ),
                reports: bounded::bounded(
                    old(self).stream().reports,
                    line@,
                    MAX_TEXT_LINES as nat,
                ),
                ..old(self).stream()
            }),
            final(self).panel == old(self).panel,
    {
        let ghost before = self.stream();
        push_vec_capped(&mut self.capture_records, record, MAX_CAPTURE_RECORDS);
        push_bounded(&mut self.reports, line, MAX_TEXT_LINES);
        assert(self.stream().capture =~= bounded::capped(
            before.capture,
            record.view(),
            MAX_CAPTURE_RECORDS as nat,
        ));
        assert(self.stream().reports =~= bounded::bounded(
            before.reports,
            line@,
            MAX_TEXT_LINES as nat,
        ));
    }

    /// Takes a sample, or skips it. `now_us` is the clock here.
    pub fn ingest_motion_sample(&mut self, sample: MotionSample, now_us: u64)
        ensures
            final(self).stream() == sampled(old(self).stream(), sample.view(), now_us),
            final(self).panel == old(self).panel,
    {
        let ghost before = self.stream();
        if self.sample_skip_remaining > 0 {
            self.sample_skip_remaining -= 1;
            return;
        }
        push_bounded(&mut self.samples, sample, MAX_SAMPLES);
        self.history.push_history_sample(sample.acc, sample.gyro, sample.timestamp_us, now_us);
        assert(self.stream().samples =~= bounded::bounded(
            before.samples,
            sample.view(),
            MAX_SAMPLES as nat,
        ));
    }

    /// Takes an event of the session. `now_us` is the clock here.
    pub fn apply_event(&mut self, event: &SessionEvent, now_us: u64)
        requires
            event_fits(old(self).panel, event.view()),
        ensures
            final(self).stream() == after_event(old(self).stream(), event.view(), now_us),
            final(self).panel.values() == known_after(
                old(self).panel.values(),
                old(self).panel.hidden(),
                event.view(),
            ),
            final(self).panel.catalog == old(self).panel.catalog,
            final(self).panel.page == old(self).panel.page,
            final(self).panel.selected == old(self).panel.selected,
            final(self).panel.inline_write == old(self).panel.inline_write,
    {
        match event {
            SessionEvent::Register { addr, access, data } => {
                let copy: Vec<u8> = copy_range(data, 0, data.len());
                assert(copy@ =~= data@);
                self.panel.record(*addr, *access, copy);
            },
            _ => {
                self.apply_plain(event, now_us);
            },
        }
    }

    /// Takes the events that came, in order and each at its time.
    pub fn drain_session_events(&mut self, events: &[SessionEvent], times: &[u64])
        requires
            events@.len() <= times@.len(),
            forall|i: int|
                0 <= i < events@.len() ==> event_fits(
                    old(self).panel,
                    (#[trigger] events@[i]).view(),
                ),
        ensures
            final(self).stream() == after_timed_events(
                old(self).stream(),
                processor::event_views(events@),
                times@,
            ),
            final(self).panel.values() == known_after_all(
                old(self).panel.values(),
                old(self).panel.hidden(),
                processor::event_views(events@),
            ),
            final(self).panel.catalog == old(self).panel.catalog,
            final(self).panel.page == old(self).panel.page,
            final(self).panel.selected == old(self).panel.selected,
            final(self).panel.inline_write == old(self).panel.inline_write,
    {
        let ghost all = processor::event_views(events@);
        let ghost first = *self;
        let mut i: usize = 0;
        assert(all.take(0) =~= Seq::<EventView>::empty());
        while i < events.len()
            invariant
                i <= events@.len() <= times@.len(),
                all == processor::event_views(events@),
                first == *old(self),
                forall|k: int|
                    0 <= k < events@.len() ==> event_fits(
                        first.panel,
                        (#[trigger] events@[k]).view(),
                    ),
                self.stream() == after_timed_events(first.stream(), all.take(i as int), times@),
                self.panel.values() == known_after_all(
                    first.panel.values(),
                    first.panel.hidden(),
                    all.take(i as int),
                ),
                self.panel.catalog == first.panel.catalog,
                self.panel.page == first.panel.page,
                self.panel.selected == first.panel.selected,
                self.panel.inline_write == first.panel.inline_write,
            decreases events.len() - i,
        {
            proof {
                assert(all.take(i + 1).drop_last() =~= all.take(i as int));
                assert(all.take(i + 1).last() == events@[i as int].view());
                assert(self.panel.hidden() =~= first.panel.hidden());
                assert(event_fits(first.panel, events@[i as int].view()));
                assert forall|a: u32| #[trigger] self.panel.reaches(a) == first.panel.reaches(
                    a,
                ) by {}
            }
            self.apply_event(&events[i], times[i]);
            i += 1;
        }
        assert(all.take(all.len() as int) =~= all);
    }

    /// Takes a recorded report as if it came now.
    pub fn replay_record(
        &mut self,
        processor: &mut ReportProcessor,
        record: &ReportCaptureRecord,
        now_us: u64,
    )
        requires
            health::health_room(old(processor).counts(), record.meta),
        ensures
            final(processor).decoder_map() == old(processor).decoder_map(),
            final(processor).kind_table() == old(processor).kind_table(),
            final(processor).counts() == health::health_after(
                old(processor).counts(),
                record.meta,
            ),
            final(self).panel == old(self).panel,
            final(self).stream() == after_events(
                old(self).stream(),
                processor::report_events(
                    old(processor).kind_table(),
                    old(processor).decoder_map(),
                    final(processor).counts(),
                    record.meta,
                    record.kind,
                    record.view().args,
                ),
                now_us,
            ),
    {
        let events = processor.handle_report(record.meta, record.kind, &record.args);
        let ghost all = processor::event_views(events@);
        proof {
            lemma_no_registers(
                processor.kind_table(),
                processor.decoder_map(),
                processor.counts(),
                record.meta,
                record.kind,
                record.view().args,
            );
        }
        let ghost before = *self;
        let mut i: usize = 0;
        assert(all.take(0) =~= Seq::<EventView>::empty());
        while i < events.len()
            invariant
                i <= events.len(),
                all == processor::event_views(events@),
                forall|k: int| 0 <= k < all.len() ==> !(#[trigger] all[k] is Register),
                self.panel == before.panel,
                self.stream() == after_events(before.stream(), all.take(i as int), now_us),
            decreases events.len() - i,
        {
            assert(all.take(i + 1).drop_last() =~= all.take(i as int));
            assert(all[i as int] == events@[i as int].view());
            self.apply_plain(&events[i], now_us);
            i += 1;
        }
        assert(all.take(all.len() as int) =~= all);
    }

    fn apply_plain(&mut self, event: &SessionEvent, now_us: u64)
        requires
            !(event.view() is Register),
        ensures
            final(self).stream() == after_event(old(self).stream(), event.view(), now_us),
            final(self).panel == old(self).panel,
    {
        match event {
            SessionEvent::Sample(sample) => {
                self.ingest_motion_sample(*sample, now_us);
            },
            SessionEvent::Report(summary) => {
                let record = ReportCaptureRecord {
                    meta: summary.meta,
                    kind: summary.kind,
                    args: copy_args(&summary.args),
                };
                self.keep_report(record, summary.line.clone());
            },
            SessionEvent::Health(health) => {
                self.health = *health;
            },
            SessionEvent::Connected { label } => {
                self.connected = true;
                self.connection_label = label.clone();
            },
            SessionEvent::Disconnected => {
                self.connected = false;
                self.log("session disconnected".to_owned());
            },
            SessionEvent::Log(line) => {
                self.log(line.clone());
            },
            SessionEvent::Error(line) => {
                self.log(session::two("error: ", line.as_str()));
            },
            SessionEvent::ExecStatus(status) => {
                self.log(session::two("exec status: ", status.as_str()));
            },
            SessionEvent::Register { .. } => {},
        }
    }

    /// Forgets what was seen of a stream.
    pub fn reset_stream_state(&mut self, clear_capture: bool)
        ensures
            final(self).stream() == cleared(old(self).stream(), clear_capture),
            final(self).panel == old(self).panel,
    {
        let ghost before = self.stream();
        self.samples = VecDeque::new();
        self.history = History::new();
        self.health = ReportHealth::default();
        self.sample_skip_remaining = self.sample_skip_count;
        assert(self.stream().samples =~= Seq::<MotionView>::empty());
        if clear_capture {
            self.capture_records = Vec::new();
            assert(self.stream().capture =~= Seq::<RecordView>::empty());
        }
    }

    /// Forgets the samples, and tells so.
    pub fn clear_motion_samples(&mut self)
        ensures
            final(self).stream() == logged(
                StreamView {
                    samples: Seq::empty(),
                    history: HistoryView { bars: Seq::empty(), bucket: None },
                    skip_remaining: old(self).stream().skip_count,
                    ..old(self).stream()
                },
                "motion chart cleared"@,
            ),
            final(self).panel == old(self).panel,
    {
        self.samples = VecDeque::new();
        self.history = History::new();
        self.sample_skip_remaining = self.sample_skip_count;
        assert(self.stream().samples =~= Seq::<MotionView>::empty());
        self.log("motion chart cleared".to_owned());
    }

    /// Takes over how many samples are to be skipped.
    pub fn apply_sample_skip_setting(&mut self, value: &str)
        ensures
            final(self).panel == old(self).panel,
            final(self).stream() == skip_set(old(self).stream(), value@),
    {
        match parse_nonnegative_usize(value, "skip samples") {
            Ok(count) => {
                self.sample_skip_count = count;
                self.sample_skip_remaining = count;
                let mut s: String = "sample skip set to ".to_owned();
                push_dec(&mut s, count as u128);
                s.push_str("; next ");
                push_dec(&mut s, count as u128);
                s.push_str(" sample(s) will be hidden");
                self.log(s);
            },
            Err(e) => {
                self.log(e);
            },
        }
    }

    /// Ends the session.
    pub fn stop_session(&mut self)
        ensures
            final(self).stream() == stopped(old(self).stream()),
            final(self).panel == old(self).panel,
    {
        self.connected = false;
        self.connection_label = "disconnected".to_owned();
        self.session_mode = "idle".to_owned();
    }

    /// Starts a session that watches, or that loads a program and runs it, over the link that is
    /// chosen. A pretended device needs no port. What the session is to do is returned.
    pub fn start_session(
        &mut self,
        watch: bool,
        mode: LinkMode,
        options: &LinkOptions,
        program: Option<CompiledProgram>,
        decoders: ReportDecoderRegistry,
    ) -> (c: SessionConfig)
        ensures
            ({
                let demo = mode is Demo || options.demo;
                let serial = if demo {
                    None
                } else {
                    catalog::opt_text(options.serial)
                };
                &&& final(self).stream() == started(
                    old(self).stream(),
                    watch,
                    demo,
                    serial,
                    options.baud,
                )
                &&& c.demo == demo
                &&& catalog::opt_text(c.serial) == serial
            }),
            final(self).panel == old(self).panel,
            c.baud == options.baud,
            c.watch == watch,
            c.startup_program == (if watch {
                None
            } else {
                program
            }),
            c.report_decoders == decoders,
    {
        self.reset_stream_state(true);
        let demo: bool = options.demo || match mode {
            LinkMode::Demo => true,
            _ => false,
        };
        let serial: Option<String> = if demo {
            None
        } else {
            match &options.serial {
                Some(port) => Some(port.clone()),
                None => None,
            }
        };
        self.connected = false;
        self.session_mode = if watch {
            "watch".to_owned()
        } else {
            "load/run".to_owned()
        };
        self.connection_label = if demo {
            "demo".to_owned()
        } else {
            let mut s: String = match &serial {
                Some(port) => port.clone(),
                None => "<none>".to_owned(),
            };
            s.push_str(" @ ");
            push_dec(&mut s, options.baud as u128);
            s
        };
        if watch {
            self.log("starting watch session".to_owned());
        } else {
            self.log("starting load+run session".to_owned());
        }
        SessionConfig {
            serial,
            baud: options.baud,
            watch,
            demo,
            startup_program: if watch {
                None
            } else {
                program
            },
            report_decoders: decoders,
        }
    }

    /// Starts to replay recorded reports.
    pub fn start_replay(&mut self, name: &str)
        ensures
            final(self).stream() == (StreamView {
                mode: "replay"@,
                label: "replay "@ + name@,
                ..cleared(old(self).stream(), true)
            }),
            final(self).panel == old(self).panel,
    {
        self.reset_stream_state(true);
        self.session_mode = "replay".to_owned();
        self.connection_label = session::two("replay ", name);
    }

    /// Tells that recorded reports were replayed.
    pub fn finish_replay(&mut self, count: usize, path: &str)
        ensures
            final(self).stream() == logged(
                old(self).stream(),
                "replayed "@ + text::dec(count as nat) + " report(s) from "@ + path@,
            ),
            final(self).panel == old(self).panel,
    {
        let mut s: String = "replayed ".to_owned();
        push_dec(&mut s, count as u128);
        s.push_str(" report(s) from ");
        s.push_str(path);
        self.log(s);
    }

    /// The newest temperature, in counts.
    pub fn latest_temperature(&self) -> (t: Option<i16>)
        ensures
            t == newest_temperature(self.stream().samples),
    {
        let ghost all = self.stream().samples;
        let mut i: usize = self.samples.len();
        assert(all.take(all.len() as int) =~= all);
        while i > 0
            invariant
                i <= self.samples.len(),
                all == self.stream().samples,
                newest_temperature(all) == newest_temperature(all.take(i as int)),
            decreases i,
        {
            i -= 1;
            assert(all.take(i + 1).drop_last() =~= all.take(i as int));
            assert(all[i as int] == self.samples@[i as int].view());
            let t: Option<i16> = self.samples[i].temp;
            if t.is_some() {
                return t;
            }
        }
        None
    }
}

/// The newest temperature of samples.
pub open spec fn newest_temperature(samples: Seq<MotionView>) -> Option<i16>
    decreases samples.len(),
{
    if samples.len() == 0 {
        None
    } else if samples.last().temp is Some {
        samples.last().temp
    } else {
        newest_temperature(samples.drop_last())
    }
}

/// What was seen once it was typed how many samples are to be skipped.
pub open spec fn skip_set(v: StreamView, value: Seq<char>) -> StreamView {
    match numbers::nonnegative(value, "skip samples"@) {
        Ok(n) => logged(
            StreamView { skip_count: n, skip_remaining: n, ..v },
            "sample skip set to "@ + text::dec(n) + "; next "@ + text::dec(n)
                + " sample(s) will be hidden"@,
        ),
        Err(e) => logged(v, e),
    }
}

/// What was seen once the session ended.
pub open spec fn stopped(v: StreamView) -> StreamView {
    StreamView { connected: false, label: "disconnected"@, mode: "idle"@, ..v }
}

/// What was seen once a session starts.
pub open spec fn started(
    v: StreamView,
    watch: bool,
    demo: bool,
    serial: Option<Seq<char>>,
    baud: u32,
) -> StreamView {
    logged(
        StreamView {
            connected: false,
            mode: if watch {
                "watch"@
            } else {
                "load/run"@
            },
            label: if demo {
                "demo"@
            } else {
                (match serial {
                    Some(s) => s,
                    None => "<none>"@,
                }) + " @ "@ + text::dec(baud as nat)
            },
            ..cleared(v, true)
        },
        if watch {
            "starting watch session"@
        } else {
            "starting load+run session"@
        },
    )
}

proof fn lemma_motion_is_plain(
    all: Seq<Seq<crate::samples::I16LeFieldValue>>,
    d: crate::decoder::DecoderView,
    meta: Option<crate::wire::ReportMeta>,
)
    ensures
        forall|k: int|
            0 <= k < processor::motion_events(all, d, meta).len() ==> !(
            #[trigger] processor::motion_events(all, d, meta)[k] is Register),
    decreases all.len(),
{
    if all.len() > 0 {
        lemma_motion_is_plain(all.drop_last(), d, meta);
    }
}

proof fn lemma_no_registers(
    kinds: report::ReportKinds,
    decoders: Map<u32, crate::decoder::ReportDecoder>,
    health: ReportHealth,
    meta: Option<crate::wire::ReportMeta>,
    kind: u32,
    args: Seq<crate::wire::ArgView>,
)
    ensures
        forall|k: int|
            0 <= k < processor::report_events(kinds, decoders, health, meta, kind, args).len() ==> !(
            #[trigger] processor::report_events(
                kinds,
                decoders,
                health,
                meta,
                kind,
                args,
            )[k] is Register),
{
    let decoder = processor::decoder_of(decoders, kind);
    let bytes = report::first_bytes(args);
    if kind == kinds.fifo_raw && bytes is Some && decoder is Some {
        lemma_motion_is_plain(
            crate::samples::samples_from(bytes->Some_0, 0, decoder->Some_0.fields.len()),
            decoder->Some_0,
            meta,
        );
    }
}

/// Whether what is kept is no more than may be.
pub open spec fn fits(v: StreamView) -> bool {
    &&& v.logs.len() <= MAX_TEXT_LINES
    &&& v.reports.len() <= MAX_TEXT_LINES
    &&& v.capture.len() <= MAX_CAPTURE_RECORDS
    &&& v.samples.len() <= MAX_SAMPLES
    &&& v.history.bars.len() <= bounded::MAX_HISTORY_BARS
}

/// Whatever happens in a session, no more is kept than may be.
pub proof fn law_event_fits(v: StreamView, e: EventView, now: u64)
    requires
        fits(v),
    ensures
        fits(after_event(v, e, now)),
{
}

/// As many samples are skipped as was asked for, and then none.
pub proof fn law_skipped_samples(v: StreamView, all: Seq<MotionView>, now: u64)
    requires
        v.skip_remaining <= v.skip_count,
        fits(v),
    ensures
        ({
            let after = after_events(v, all.map_values(|m: MotionView| EventView::Sample(m)), now);
            &&& after.skip_remaining == (if all.len() < v.skip_remaining {
                (v.skip_remaining - all.len()) as nat
            } else {
                0
            })
            &&& all.len() <= v.skip_remaining ==> after.samples == v.samples
            &&& all.len() > v.skip_remaining ==> after.samples.last() == all.last()
        }),
    decreases all.len(),
{
    let events = all.map_values(|m: MotionView| EventView::Sample(m));
    if all.len() > 0 {
        let rest = all.drop_last();
        assert(events.drop_last() =~= rest.map_values(|m: MotionView| EventView::Sample(m)));
        law_skipped_samples(v, rest, now);
    }
}

} // verus!
