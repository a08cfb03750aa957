//! Sessions with a device: what is asked of it, and what the answers amount to.
use crate::catalog::AccessKind;
use crate::health;
use crate::health::ReportHealth;
use crate::le::copy_range;
use crate::processor;
use crate::processor::{ReportSummary, SessionEvent};
use crate::processor::{EventView, SummaryView};
use crate::report;
use crate::report::{hex_bytes, ReportArg};
use crate::samples::ReportDecoderRegistry;
use crate::text;
use crate::text::{push_dec, push_hex, same_text};
use crate::wire::{ArgView, ExecStatus, ReportMeta, SEG_KIND_IRQ_INT1, SEG_KIND_MAIN};
use crate::wire::REPORT_FLAG_TIMESTAMP_VALID;
use vstd::prelude::*;

verus! {

/// The speed of a serial line where none is given.
pub const DEFAULT_BAUD: u32 = 115_200;

/// How many lines of text are kept for display.
pub const MAX_TEXT_LINES: usize = 512;

/// What can be asked of a session.
#[allow(inconsistent_fields)]
#[derive(Debug, Clone, PartialEq, Eq)]
pub enum SessionCommand {
    Ping,
    StopReports,
    ResetMcu,
    ReadRegister { addr: u32, len: u16, label: String },
    WriteRegister { addr: u32, data: Vec<u8>, label: String },
    Shutdown,
}

/// A sequence in the form that a device runs, and its interrupt handlers by pin.
#[derive(Debug, Clone, PartialEq, Eq)]
pub struct CompiledProgram {
    pub main: Vec<u8>,
    pub irq_bytecodes: Vec<(String, Vec<u8>)>,
}

impl CompiledProgram {
    /// Whether no pin has two handlers.
    pub open spec fn wf(self) -> bool {
        forall|i: int, j: int|
            0 <= i < j < self.irq_bytecodes@.len() ==> (#[trigger] self.irq_bytecodes@[i]).0@ != (
            #[trigger] self.irq_bytecodes@[j]).0@
    }

    /// Whether no pin has two handlers.
    pub fn has_one_handler_per_pin(&self) -> (r: bool)
        ensures
            r == self.wf(),
    {
        let irqs = &self.irq_bytecodes;
        let mut j: usize = 0;
        while j < irqs.len()
            invariant
                j <= irqs.len(),
                irqs == &self.irq_bytecodes,
                forall|a: int, b: int|
                    0 <= a < b < j ==> (#[trigger] irqs@[a]).0@ != (#[trigger] irqs@[b]).0@,
            decreases irqs.len() - j,
        {
            let mut i: usize = 0;
            while i < j
                invariant
                    i <= j < irqs.len(),
                    irqs == &self.irq_bytecodes,
                    forall|a: int| 0 <= a < i ==> (#[trigger] irqs@[a]).0@ != irqs@[j as int].0@,
                decreases j - i,
            {
                if same_text(irqs[i].0.as_str(), irqs[j].0.as_str()) {
                    assert(self.irq_bytecodes@[i as int].0@ == self.irq_bytecodes@[j as int].0@);
                    return false;
                }
                i += 1;
            }
            j += 1;
        }
        true
    }
}

/// What a session is to do.
#[derive(Debug, Clone)]
pub struct SessionConfig {
    pub serial: Option<String>,
    pub baud: u32,
    pub watch: bool,
    pub demo: bool,
    pub startup_program: Option<CompiledProgram>,
    pub report_decoders: ReportDecoderRegistry,
}

impl Default for SessionConfig {
    fn default() -> (c: Self)
        ensures
            c.serial is None,
            c.baud == DEFAULT_BAUD,
            !c.watch,
            c.demo,
            c.startup_program is None,
            c.report_decoders@ == Map::<u32, crate::decoder::ReportDecoder>::empty(),
    {
        SessionConfig {
            serial: None,
            baud: DEFAULT_BAUD,
            watch: false,
            demo: true,
            startup_program: None,
            report_decoders: ReportDecoderRegistry::default(),
        }
    }
}

impl SessionConfig {
    /// Whether the session runs without a device.
    pub fn runs_demo(&self) -> (r: bool)
        ensures
            r == (self.demo || self.serial is None),
    {
        self.demo || self.serial.is_none()
    }

    /// Whether the session loads and runs a sequence first.
    pub fn runs_program(&self) -> (r: bool)
        ensures
            r == (!self.watch && self.startup_program is Some),
    {
        !self.watch && self.startup_program.is_some()
    }
}

/// How a session over a serial line is called.
pub open spec fn session_label(serial: Seq<char>, baud: u32, load: bool) -> Seq<char> {
    serial + " @ "@ + text::dec(baud as nat) + " ("@ + (if load {
        "load+exec"@
    } else {
        "watch"@
    }) + ")"@
}

/// How a session over a serial line is called.
pub fn serial_label(serial: &str, baud: u32, load: bool) -> (s: String)
    ensures
        s@ == session_label(serial@, baud, load),
{
    let mut s: String = serial.to_owned();
    s.push_str(" @ ");
    push_dec(&mut s, baud as u128);
    s.push_str(" (");
    if load {
        s.push_str("load+exec");
    } else {
        s.push_str("watch");
    }
    s.push_str(")");
    s
}

/// `a` and `b` as one text.
pub fn two(a: &str, b: &str) -> (s: String)
    ensures
        s@ == a@ + b@,
{
    let mut s: String = a.to_owned();
    s.push_str(b);
    s
}

// ---- a session without a device

/// The registers of the pretended device after a start.
pub open spec fn demo_start() -> Seq<u8> {
    Seq::new(256, |i: int| if i == 0 {
        6u8
    } else {
        0u8
    })
}

/// What the registers hold from an address on. Addresses wrap around.
pub open spec fn demo_read(regs: Seq<u8>, addr: int, len: nat) -> Seq<u8> {
    Seq::new(len, |i: int| regs[(addr + i) % 256])
}

/// The registers after bytes were written from an address on, one after the other.
pub open spec fn demo_written(regs: Seq<u8>, addr: int, data: Seq<u8>) -> Seq<u8>
    decreases data.len(),
{
    if data.len() == 0 {
        regs
    } else {
        demo_written(regs, addr, data.drop_last()).update(
            (addr + data.len() - 1) % 256,
            data.last(),
        )
    }
}

/// What is shown of bytes that were read or written.
pub open spec fn demo_text(what: Seq<char>, label: Seq<char>, addr: u32, data: Seq<u8>) -> Seq<
    char,
> {
    what + label + " @ 0x"@ + text::hex(addr as nat, 2) + ": ["@ + report::hex_text(data) + "]"@
}

fn demo_line(what: &str, label: &str, addr: u32, data: &[u8]) -> (s: String)
    ensures
        s@ == demo_text(what@, label@, addr, data@),
{
    let mut s: String = what.to_owned();
    s.push_str(label);
    s.push_str(" @ 0x");
    push_hex(&mut s, addr as u128, 2);
    s.push_str(": [");
    s.push_str(hex_bytes(data).as_str());
    s.push_str("]");
    s
}

/// The registers of the pretended device after a command.
pub open spec fn demo_after(regs: Seq<u8>, cmd: SessionCommand) -> Seq<u8> {
    match cmd {
        SessionCommand::ResetMcu => demo_start(),
        SessionCommand::WriteRegister { addr, data, .. } => demo_written(regs, addr as int, data@),
        _ => regs,
    }
}

/// What happens in a session without a device on a command.
pub open spec fn demo_events(regs: Seq<u8>, cmd: SessionCommand) -> Seq<EventView> {
    match cmd {
        SessionCommand::Ping => seq![EventView::Log("demo ping ok"@)],
        SessionCommand::StopReports => seq![EventView::Log("demo stop reports ok"@)],
        SessionCommand::ResetMcu => seq![EventView::Log("demo reset ok"@)],
        SessionCommand::ReadRegister { addr, len, label } => {
            let data = demo_read(regs, addr as int, len as nat);
            seq![
                EventView::Register(addr, AccessKind::Read, data),
                EventView::Log(demo_text("demo dump "@, label@, addr, data)),
            ]
        },
        SessionCommand::WriteRegister { addr, data, label } => seq![
            EventView::Register(addr, AccessKind::Write, data@),
            EventView::Log(demo_text("demo write "@, label@, addr, data@)),
        ],
        SessionCommand::Shutdown => Seq::empty(),
    }
}

/// A pretended device.
#[derive(Debug, Clone, PartialEq, Eq)]
pub struct DemoDevice {
    regs: Vec<u8>,
}

fn one(e: SessionEvent) -> (events: Vec<SessionEvent>)
    ensures
        processor::event_views(events@) == seq![e.view()],
{
    let mut events: Vec<SessionEvent> = Vec::new();
    events.push(e);
    assert(processor::event_views(events@) =~= seq![e.view()]);
    events
}

fn both(a: SessionEvent, b: SessionEvent) -> (events: Vec<SessionEvent>)
    ensures
        processor::event_views(events@) == seq![a.view(), b.view()],
{
    let mut events: Vec<SessionEvent> = Vec::new();
    events.push(a);
    events.push(b);
    assert(processor::event_views(events@) =~= seq![a.view(), b.view()]);
    events
}

fn copy_bytes(b: &[u8]) -> (c: Vec<u8>)
    ensures
        c@ == b@,
{
    let c = copy_range(b, 0, b.len());
    assert(c@ =~= b@);
    c
}

fn start_regs() -> (regs: Vec<u8>)
    ensures
        regs@ == demo_start(),
{
    let mut regs: Vec<u8> = Vec::new();
    regs.push(6);
    while regs.len() < 256
        invariant
            1 <= regs.len() <= 256,
            regs@ == demo_start().take(regs.len() as int),
        decreases 256 - regs.len(),
    {
        regs.push(0);
        assert(regs@ =~= demo_start().take(regs.len() as int));
    }
    assert(regs@ =~= demo_start());
    regs
}

fn wrapped(addr: u32, offset: usize) -> (i: usize)
    ensures
        i == (addr + offset) % 256,
{
    ((addr as u128 + offset as u128) % 256) as usize
}

impl DemoDevice {
    pub closed spec fn registers(self) -> Seq<u8> {
        self.regs@
    }

    /// Whether there are registers for every address.
    pub open spec fn wf(self) -> bool {
        self.registers().len() == 256
    }

    /// A pretended device after a start.
    pub fn new() -> (d: Self)
        ensures
            d.wf(),
            d.registers() == demo_start(),
    {
        DemoDevice { regs: start_regs() }
    }

    /// What happens on a command, and whether the session is to end.
    pub fn handle(&mut self, cmd: &SessionCommand) -> (r: (Vec<SessionEvent>, bool))
        requires
            old(self).wf(),
        ensures
            final(self).wf(),
            final(self).registers() == demo_after(old(self).registers(), *cmd),
            processor::event_views(r.0@) == demo_events(old(self).registers(), *cmd),
            r.1 == (*cmd is Shutdown),
    {
        match cmd {
            SessionCommand::Ping => (one(SessionEvent::Log("demo ping ok".to_owned())), false),
            SessionCommand::StopReports => (
                one(SessionEvent::Log("demo stop reports ok".to_owned())),
                false,
            ),
            SessionCommand::ResetMcu => {
                self.regs = start_regs();
                (one(SessionEvent::Log("demo reset ok".to_owned())), false)
            },
            SessionCommand::ReadRegister { addr, len, label } => {
                let n: usize = *len as usize;
                let mut data: Vec<u8> = Vec::new();
                let mut i: usize = 0;
                while i < n
                    invariant
                        i <= n,
                        self.regs@.len() == 256,
                        data@ == demo_read(self.regs@, *addr as int, i as nat),
                    decreases n - i,
                {
                    data.push(self.regs[wrapped(*addr, i)]);
                    i += 1;
                    assert(data@ =~= demo_read(self.regs@, *addr as int, i as nat));
                }
                let line = demo_line("demo dump ", label.as_str(), *addr, &data);
                (
                    both(
                        SessionEvent::Register { addr: *addr, access: AccessKind::Read, data },
                        SessionEvent::Log(line),
                    ),
                    false,
                )
            },
            SessionCommand::WriteRegister { addr, data, label } => {
                let mut i: usize = 0;
                while i < data.len()
                    invariant
                        i <= data.len(),
                        self.regs@.len() == 256,
                        self.regs@ == demo_written(
                            old(self).regs@,
                            *addr as int,
                            data@.take(i as int),
                        ),
                    decreases data.len() - i,
                {
                    assert(data@.take(i + 1).drop_last() =~= data@.take(i as int));
                    self.regs.set(wrapped(*addr, i), data[i]);
                    i += 1;
                }
                assert(data@.take(data@.len() as int) =~= data@);
                let line = demo_line("demo write ", label.as_str(), *addr, data);
                (
                    both(
                        SessionEvent::Register {
                            addr: *addr,
                            access: AccessKind::Write,
                            data: copy_bytes(data),
                        },
                        SessionEvent::Log(line),
                    ),
                    false,
                )
            },
            SessionCommand::Shutdown => {
                let events: Vec<SessionEvent> = Vec::new();
                assert(processor::event_views(events@) =~= Seq::<EventView>::empty());
                (events, true)
            },
        }
    }
}

impl Default for DemoDevice {
    fn default() -> (d: Self)
        ensures
            d.wf(),
            d.registers() == demo_start(),
    {
        DemoDevice::new()
    }
}

/// The counts of the pretended reports up to one.
pub open spec fn demo_health(index: u64, timestamp_us: u64) -> ReportHealth {
    ReportHealth {
        total_reports: (index + 1) as u64,
        last_frame_id: Some((index % 0x1_0000_0000) as u32),
        last_timestamp_us: Some(timestamp_us),
        ..health::no_reports()
    }
}

/// The bytes of a pretended report.
pub open spec fn demo_bytes() -> Seq<u8> {
    seq![0, 0, 0, 0, 0, 0, 0, 0, 0, 0, 0, 8]
}

/// A pretended report.
pub open spec fn demo_report(kind: u32, index: u64, timestamp_us: u64) -> SummaryView {
    SummaryView {
        meta: Some(
            ReportMeta {
                flags: REPORT_FLAG_TIMESTAMP_VALID,
                frame_id: (index % 0x1_0000_0000) as u32,
                timestamp_us,
            },
        ),
        kind,
        args: seq![ArgView::U32(12), ArgView::Bytes(demo_bytes())],
        label: "FIFO_RAW"@,
        line: "FIFO_RAW frame_id="@ + text::dec((index % 0x1_0000_0000) as nat) + " ts_us="@
            + text::dec(timestamp_us as nat) + " demo sample"@,
        fifo_len: Some(12),
        data_len: Some(12),
        sample_count: 1,
        trailing_bytes: 0,
        health: demo_health(index, timestamp_us),
    }
}

/// A pretended report. It is the `index`-th, counted from zero.
pub fn demo_summary(kind: u32, index: u64, timestamp_us: u64) -> (s: ReportSummary)
    requires
        index < u64::MAX,
    ensures
        s.view() == demo_report(kind, index, timestamp_us),
{
    let frame_id: u32 = (index % 0x1_0000_0000) as u32;
    let health = ReportHealth {
        total_reports: index + 1,
        dropped_frames: 0,
        duplicate_frames: 0,
        out_of_order_frames: 0,
        last_frame_id: Some(frame_id),
        last_timestamp_us: Some(timestamp_us),
        last_dt_us: None,
    };
    let mut bytes: Vec<u8> = Vec::new();
    while bytes.len() < 11
        invariant
            bytes.len() <= 11,
            bytes@ == demo_bytes().take(bytes.len() as int),
        decreases 11 - bytes.len(),
    {
        bytes.push(0);
        assert(bytes@ =~= demo_bytes().take(bytes.len() as int));
    }
    bytes.push(8);
    assert(bytes@ =~= demo_bytes());
    let mut args: Vec<ReportArg> = Vec::new();
    args.push(ReportArg::U32(12));
    args.push(ReportArg::Bytes(bytes));
    assert(report::arg_views(args@) =~= seq![ArgView::U32(12), ArgView::Bytes(demo_bytes())]);
    let mut line: String = "FIFO_RAW frame_id=".to_owned();
    push_dec(&mut line, frame_id as u128);
    line.push_str(" ts_us=");
    push_dec(&mut line, timestamp_us as u128);
    line.push_str(" demo sample");
    ReportSummary {
        meta: Some(ReportMeta { flags: REPORT_FLAG_TIMESTAMP_VALID, frame_id, timestamp_us }),
        kind,
        args,
        label: "FIFO_RAW".to_owned(),
        line,
        fifo_len: Some(12),
        data_len: Some(12),
        sample_count: 1,
        trailing_bytes: 0,
        health,
    }
}

// ---- a session over a line

/// What is sent to a device before it runs a sequence, and what is told about it.
#[derive(Debug, Clone, PartialEq, Eq)]
pub struct LoadPlan {
    pub segments: Vec<(u8, Vec<u8>)>,
    pub events: Vec<SessionEvent>,
}

/// The handler of a pin, if it has one.
pub open spec fn handler_of(irqs: Seq<(String, Vec<u8>)>, pin: Seq<char>) -> Option<Seq<u8>>
    decreases irqs.len(),
{
    if irqs.len() == 0 {
        None
    } else if irqs[0].0@ == pin {
        Some(irqs[0].1@)
    } else {
        handler_of(irqs.skip(1), pin)
    }
}

/// Each handler of a program is the one of its pin, wherever it stands in the list.
pub proof fn law_handler_of_a_pin(p: CompiledProgram, i: int)
    requires
        p.wf(),
        0 <= i < p.irq_bytecodes@.len(),
    ensures
        handler_of(p.irq_bytecodes@, p.irq_bytecodes@[i].0@) == Some(p.irq_bytecodes@[i].1@),
{
    let irqs = p.irq_bytecodes@;
    assert(irqs.skip(0) =~= irqs);
    lemma_handler_from(irqs, 0, i);
}

proof fn lemma_handler_from(irqs: Seq<(String, Vec<u8>)>, from: int, i: int)
    requires
        0 <= from <= i < irqs.len(),
        forall|k: int| from <= k < i ==> (#[trigger] irqs[k]).0@ != irqs[i].0@,
    ensures
        handler_of(irqs.skip(from), irqs[i].0@) == Some(irqs[i].1@),
    decreases i - from,
{
    assert(irqs.skip(from)[0] == irqs[from]);
    if from < i {
        assert(irqs.skip(from).skip(1) =~= irqs.skip(from + 1));
        lemma_handler_from(irqs, from + 1, i);
    }
}

/// The segments that are sent: the sequence, and the handler of the one pin that the line
/// can carry.
pub open spec fn load_segments_of(p: CompiledProgram) -> Seq<(u8, Seq<u8>)> {
    match handler_of(p.irq_bytecodes@, "int1"@) {
        Some(b) => seq![(SEG_KIND_MAIN, p.main@), (SEG_KIND_IRQ_INT1, b)],
        None => seq![(SEG_KIND_MAIN, p.main@)],
    }
}

/// What is told of the pins that the line cannot carry.
pub open spec fn skipped_events(irqs: Seq<(String, Vec<u8>)>) -> Seq<EventView>
    decreases irqs.len(),
{
    if irqs.len() == 0 {
        Seq::empty()
    } else if irqs.last().0@ == "int1"@ {
        skipped_events(irqs.drop_last())
    } else {
        skipped_events(irqs.drop_last()).push(
            EventView::Log(
                "compiled irq!("@ + irqs.last().0@
                    + ") but this transport maps only int1; segment skipped"@,
            ),
        )
    }
}

/// What is told before a sequence is sent.
pub open spec fn load_events(p: CompiledProgram) -> Seq<EventView> {
    skipped_events(p.irq_bytecodes@).push(
        EventView::Log(
            "loading rseq main="@ + text::dec(p.main@.len()) + " byte(s), irq_handlers="@
                + text::dec(p.irq_bytecodes@.len()),
        ),
    )
}

/// What a list of segments stands for.
pub open spec fn segment_views(segs: Seq<(u8, Vec<u8>)>) -> Seq<(u8, Seq<u8>)> {
    segs.map_values(|s: (u8, Vec<u8>)| (s.0, s.1@))
}

/// What is sent to a device before it runs a sequence.
pub fn load_plan(p: &CompiledProgram) -> (plan: LoadPlan)
    requires
        p.wf(),
    ensures
        segment_views(plan.segments@) == load_segments_of(*p),
        processor::event_views(plan.events@) == load_events(*p),
{
    let irqs = &p.irq_bytecodes;
    let mut segments: Vec<(u8, Vec<u8>)> = Vec::new();
    segments.push((SEG_KIND_MAIN, copy_bytes(&p.main)));
    assert(segment_views(segments@) =~= seq![(SEG_KIND_MAIN, p.main@)]);
    let mut i: usize = 0;
    let mut found: bool = false;
    assert(irqs@.skip(0) =~= irqs@);
    while i < irqs.len() && !found
        invariant
            i <= irqs.len(),
            irqs == &p.irq_bytecodes,
            found ==> segment_views(segments@) == load_segments_of(*p),
            !found ==> {
                &&& handler_of(irqs@, "int1"@) == handler_of(irqs@.skip(i as int), "int1"@)
                &&& segment_views(segments@) == seq![(SEG_KIND_MAIN, p.main@)]
            },
        decreases irqs.len() - i,
    {
        assert(irqs@.skip(i as int)[0] == irqs@[i as int]);
        assert(irqs@.skip(i as int).skip(1) =~= irqs@.skip(i + 1));
        if same_text(irqs[i].0.as_str(), "int1") {
            let handler = copy_bytes(&irqs[i].1);
            let ghost before = segment_views(segments@);
            segments.push((SEG_KIND_IRQ_INT1, handler));
            assert(segment_views(segments@) =~= before.push((SEG_KIND_IRQ_INT1, handler@)));
            assert(segment_views(segments@) =~= load_segments_of(*p));
            found = true;
        }
        i += 1;
    }
    let mut events: Vec<SessionEvent> = Vec::new();
    assert(processor::event_views(events@) =~= skipped_events(irqs@.take(0)));
    let mut k: usize = 0;
    while k < irqs.len()
        invariant
            k <= irqs.len(),
            processor::event_views(events@) == skipped_events(irqs@.take(k as int)),
        decreases irqs.len() - k,
    {
        assert(irqs@.take(k + 1).drop_last() =~= irqs@.take(k as int));
        if !same_text(irqs[k].0.as_str(), "int1") {
            let mut s: String = "compiled irq!(".to_owned();
            s.push_str(irqs[k].0.as_str());
            s.push_str(") but this transport maps only int1; segment skipped");
            push_event(&mut events, SessionEvent::Log(s));
        }
        k += 1;
    }
    assert(irqs@.take(irqs@.len() as int) =~= irqs@);
    let mut s: String = "loading rseq main=".to_owned();
    push_dec(&mut s, p.main.len() as u128);
    s.push_str(" byte(s), irq_handlers=");
    push_dec(&mut s, irqs.len() as u128);
    push_event(&mut events, SessionEvent::Log(s));
    LoadPlan { segments, events }
}

/// Appends an event.
pub fn push_event(events: &mut Vec<SessionEvent>, e: SessionEvent)
    ensures
        processor::event_views(final(events)@) == processor::event_views(old(events)@).push(
            e.view(),
        ),
{
    events.push(e);
    assert(processor::event_views(events@) =~= processor::event_views(old(events)@).push(
        e.view(),
    ));
}

/// How the outcome of a run is called.
pub open spec fn status_name(s: ExecStatus) -> Seq<char> {
    match s {
        ExecStatus::Success => "Ok"@,
        ExecStatus::InvalidOpcode => "InvalidOpcode"@,
        ExecStatus::ProgramTooShort => "ProgramTooShort"@,
        ExecStatus::InvalidLength => "InvalidLength"@,
        ExecStatus::DivideByZero => "DivideByZero"@,
        ExecStatus::BusError => "BusError"@,
    }
}

/// How the outcome of a run is called.
pub fn exec_status_name(s: ExecStatus) -> (t: &'static str)
    ensures
        t@ == status_name(s),
{
    match s {
        ExecStatus::Success => "Ok",
        ExecStatus::InvalidOpcode => "InvalidOpcode",
        ExecStatus::ProgramTooShort => "ProgramTooShort",
        ExecStatus::InvalidLength => "InvalidLength",
        ExecStatus::DivideByZero => "DivideByZero",
        ExecStatus::BusError => "BusError",
    }
}

/// What is told of the outcome of something that was asked: that it is done, or why it failed.
pub open spec fn outcome(what: Seq<char>, r: Result<(), String>) -> EventView {
    match r {
        Ok(()) => EventView::Log(what + " ok"@),
        Err(e) => EventView::Error(what + " failed: "@ + e@),
    }
}

/// What is told of the outcome of something that was asked.
pub fn outcome_event(what: &str, r: &Result<(), String>) -> (e: SessionEvent)
    ensures
        e.view() == outcome(what@, *r),
{
    match r {
        Ok(()) => SessionEvent::Log(two(what, " ok")),
        Err(e) => {
            let mut s: String = two(what, " failed: ");
            s.push_str(e.as_str());
            SessionEvent::Error(s)
        },
    }
}

/// What is told of the outcome of a run.
pub fn exec_event(r: &Result<ExecStatus, String>) -> (e: SessionEvent)
    ensures
        e.view() == (match *r {
            Ok(status) => EventView::ExecStatus(status_name(status)),
            Err(e) => EventView::Error("EXEC failed: "@ + e@),
        }),
{
    match r {
        Ok(status) => SessionEvent::ExecStatus(exec_status_name(*status).to_owned()),
        Err(e) => SessionEvent::Error(two("EXEC failed: ", e.as_str())),
    }
}

/// What is shown of a register access: what, where, how long and which bytes.
pub open spec fn access_text(
    what: Seq<char>,
    label: Seq<char>,
    addr: u32,
    len: nat,
    data: Seq<u8>,
) -> Seq<char> {
    what + label + " @ 0x"@ + text::hex(addr as nat, 2) + " len="@ + text::dec(len) + ": ["@
        + report::hex_text(data) + "]"@
}

fn access_line(what: &str, label: &str, addr: u32, len: usize, data: &[u8]) -> (s: String)
    ensures
        s@ == access_text(what@, label@, addr, len as nat, data@),
{
    let mut s: String = what.to_owned();
    s.push_str(label);
    s.push_str(" @ 0x");
    push_hex(&mut s, addr as u128, 2);
    s.push_str(" len=");
    push_dec(&mut s, len as u128);
    s.push_str(": [");
    s.push_str(hex_bytes(data).as_str());
    s.push_str("]");
    s
}

/// What is told of the answer to a read.
pub open spec fn read_answer(addr: u32, len: u16, label: Seq<char>, r: Result<(u32, Vec<u8>), String>) -> Seq<
    EventView,
> {
    match r {
        Ok((at, data)) => seq![
            EventView::Register(at, AccessKind::Read, data@),
            EventView::Log(access_text("dump "@, label, at, data@.len(), data@)),
        ],
        Err(e) => seq![
            EventView::Error(
                "dump "@ + label + " @ 0x"@ + text::hex(addr as nat, 2) + " len="@ + text::dec(
                    len as nat,
                ) + " failed: "@ + e@,
            ),
        ],
    }
}

/// What is told of the answer to a read.
pub fn read_events(addr: u32, len: u16, label: &str, r: &Result<(u32, Vec<u8>), String>) -> (events:
    Vec<SessionEvent>)
    ensures
        processor::event_views(events@) == read_answer(addr, len, label@, *r),
{
    match r {
        Ok((at, data)) => {
            let line = access_line("dump ", label, *at, data.len(), data);
            both(
                SessionEvent::Register { addr: *at, access: AccessKind::Read, data: copy_bytes(data) },
                SessionEvent::Log(line),
            )
        },
        Err(e) => {
            let mut s: String = "dump ".to_owned();
            s.push_str(label);
            s.push_str(" @ 0x");
            push_hex(&mut s, addr as u128, 2);
            s.push_str(" len=");
            push_dec(&mut s, len as u128);
            s.push_str(" failed: ");
            s.push_str(e.as_str());
            one(SessionEvent::Error(s))
        },
    }
}

/// What is told of the answer to a write.
pub open spec fn write_answer(addr: u32, data: Seq<u8>, label: Seq<char>, r: Result<(u32, u16), String>) -> Seq<
    EventView,
> {
    match r {
        Ok((at, len)) => seq![
            EventView::Register(at, AccessKind::Write, data),
            EventView::Log(access_text("write "@, label, at, len as nat, data)),
        ],
        Err(e) => seq![
            EventView::Error(
                "write "@ + label + " @ 0x"@ + text::hex(addr as nat, 2) + " data=["@
                    + report::hex_text(data) + "] failed: "@ + e@,
            ),
        ],
    }
}

/// What is told of the answer to a write.
pub fn write_events(addr: u32, data: &[u8], label: &str, r: &Result<(u32, u16), String>) -> (events:
    Vec<SessionEvent>)
    ensures
        processor::event_views(events@) == write_answer(addr, data@, label@, *r),
{
    match r {
        Ok((at, len)) => {
            let line = access_line("write ", label, *at, *len as usize, data);
            both(
                SessionEvent::Register { addr: *at, access: AccessKind::Write, data: copy_bytes(data) },
                SessionEvent::Log(line),
            )
        },
        Err(e) => {
            let mut s: String = "write ".to_owned();
            s.push_str(label);
            s.push_str(" @ 0x");
            push_hex(&mut s, addr as u128, 2);
            s.push_str(" data=[");
            s.push_str(hex_bytes(data).as_str());
            s.push_str("] failed: ");
            s.push_str(e.as_str());
            one(SessionEvent::Error(s))
        },
    }
}

// ---- laws

proof fn lemma_written_before(regs: Seq<u8>, addr: int, data: Seq<u8>, k: int)
    requires
        regs.len() == 256,
        0 <= addr,
        0 <= k < data.len() <= 256,
    ensures
        demo_written(regs, addr, data).len() == 256,
        demo_written(regs, addr, data)[(addr + k) % 256] == data[k],
    decreases data.len(),
{
    lemma_written_len(regs, addr, data.drop_last());
    if k < data.len() - 1 {
        lemma_written_before(regs, addr, data.drop_last(), k);
        let last = addr + data.len() - 1;
        assert((addr + k) % 256 != last % 256) by {
            assert(0 < last - (addr + k) < 256);
        }
    }
}

proof fn lemma_written_len(regs: Seq<u8>, addr: int, data: Seq<u8>)
    requires
        regs.len() == 256,
    ensures
        demo_written(regs, addr, data).len() == regs.len(),
    decreases data.len(),
{
    if data.len() > 0 {
        lemma_written_len(regs, addr, data.drop_last());
    }
}

/// What was written to the pretended device reads back, up to its whole size.
pub proof fn law_demo_read_after_write(regs: Seq<u8>, addr: u32, data: Seq<u8>)
    requires
        regs.len() == 256,
        data.len() <= 256,
    ensures
        demo_read(demo_written(regs, addr as int, data), addr as int, data.len()) == data,
{
    let after = demo_written(regs, addr as int, data);
    assert forall|k: int| 0 <= k < data.len() implies after[(addr + k) % 256] == data[k] by {
        lemma_written_before(regs, addr as int, data, k);
    }
    assert(demo_read(after, addr as int, data.len()) =~= data);
}

} // verus!
