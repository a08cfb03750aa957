//! The course of a session over a serial line: what is done next, and what is told.
use crate::health;
use crate::health::ReportHealth;
use crate::processor;
use crate::processor::{EventView, ReportProcessor, SessionEvent};
use crate::report;
use crate::report::BusOp;
use crate::report::ReportKinds;
use crate::session;
use crate::session::{
    exec_event, load_plan, outcome_event, push_event, read_events, serial_label, two, write_events,
    CompiledProgram, LoadPlan, SessionCommand,
};
use crate::wire::ExecStatus;
use vstd::prelude::*;

verus! {

/// A session over a serial line.
#[derive(Debug, Clone, PartialEq, Eq)]
pub struct LineSession {
    pub serial: String,
    pub baud: u32,
    /// The sequence that is loaded and run first.
    pub program: Option<CompiledProgram>,
    /// Whether the session was asked to end.
    pub stopping: bool,
}

/// What is done next.
#[derive(Debug, Clone, PartialEq, Eq)]
pub enum LineStep {
    /// These segments are loaded.
    Load(Vec<(u8, Vec<u8>)>),
    /// What was loaded is run.
    Exec,
    /// The session is asked whether it goes on.
    Turn,
    /// The next command is looked for.
    TakeCommand,
    /// This command is passed to the device.
    Ask(SessionCommand),
    /// A trace record is waited for.
    Observe,
    /// Nothing is done for a quarter of a second.
    Pause,
    /// The session is over.
    Finish,
}

/// What the device answers to a command.
#[derive(Debug, PartialEq, Eq)]
pub enum LineAnswer {
    /// The answer to anything that is only done or not.
    Outcome(Result<(), String>),
    /// The answer to a read: where, and which bytes.
    Read(Result<(u32, Vec<u8>), String>),
    /// The answer to a write: where, and how many bytes.
    Write(Result<(u32, u16), String>),
}

/// What is told of the answer to a command. An answer to something else tells nothing.
pub open spec fn answer_views(command: SessionCommand, answer: LineAnswer) -> Seq<EventView> {
    match (command, answer) {
        (SessionCommand::Ping, LineAnswer::Outcome(r)) => seq![session::outcome("ping"@, r)],
        (SessionCommand::StopReports, LineAnswer::Outcome(r)) => seq![
            session::outcome("stop reports"@, r),
        ],
        (SessionCommand::ResetMcu, LineAnswer::Outcome(r)) => seq![session::outcome("reset"@, r)],
        (
            SessionCommand::ReadRegister { addr, len, label },
            LineAnswer::Read(r),
        ) => session::read_answer(addr, len, label@, r),
        (
            SessionCommand::WriteRegister { addr, data, label },
            LineAnswer::Write(r),
        ) => session::write_answer(addr, data@, label@, r),
        _ => Seq::empty(),
    }
}

/// What is told of the answer to a command.
pub fn answer_events(command: &SessionCommand, answer: &LineAnswer) -> (events: Vec<SessionEvent>)
    ensures
        processor::event_views(events@) == answer_views(*command, *answer),
{
    match (command, answer) {
        (SessionCommand::Ping, LineAnswer::Outcome(r)) => told(outcome_event("ping", r)),
        (SessionCommand::StopReports, LineAnswer::Outcome(r)) => told(
            outcome_event("stop reports", r),
        ),
        (SessionCommand::ResetMcu, LineAnswer::Outcome(r)) => told(outcome_event("reset", r)),
        (SessionCommand::ReadRegister { addr, len, label }, LineAnswer::Read(r)) => read_events(
            *addr,
            *len,
            label.as_str(),
            r,
        ),
        (SessionCommand::WriteRegister { addr, data, label }, LineAnswer::Write(r)) => write_events(
            *addr,
            data,
            label.as_str(),
            r,
        ),
        _ => nothing(),
    }
}

fn nothing() -> (events: Vec<SessionEvent>)
    ensures
        processor::event_views(events@) == Seq::<EventView>::empty(),
{
    let events: Vec<SessionEvent> = Vec::new();
    assert(processor::event_views(events@) =~= Seq::<EventView>::empty());
    events
}

fn told(e: SessionEvent) -> (events: Vec<SessionEvent>)
    ensures
        processor::event_views(events@) == seq![e.view()],
{
    let mut events = nothing();
    push_event(&mut events, e);
    assert(processor::event_views(events@) =~= seq![e.view()]);
    events
}

impl LineSession {
    /// How the session is called.
    pub open spec fn label(self) -> Seq<char> {
        session::session_label(self.serial@, self.baud, self.program is Some)
    }

    /// A session over a serial line. Where it only watches, nothing is loaded.
    pub fn new(serial: String, baud: u32, watch: bool, program: Option<CompiledProgram>) -> (s:
        Self)
        ensures
            s.serial == serial,
            s.baud == baud,
            s.program == (if watch {
                None
            } else {
                program
            }),
            !s.stopping,
    {
        LineSession {
            serial,
            baud,
            program: if watch {
                None
            } else {
                program
            },
            stopping: false,
        }
    }

    fn label_text(&self) -> (s: String)
        ensures
            s@ == self.label(),
    {
        serial_label(self.serial.as_str(), self.baud, self.program.is_some())
    }

    /// What is told before the line is opened, and whether what it still holds is thrown away
    /// then: only where something is loaded.
    pub fn start(&self) -> (r: (Vec<SessionEvent>, bool))
        ensures
            processor::event_views(r.0@) == seq![
                EventView::Log("opening serial "@ + self.label()),
            ],
            r.1 == (self.program is Some),
    {
        let line = two("opening serial ", self.label_text().as_str());
        (told(SessionEvent::Log(line)), self.program.is_some())
    }

    /// What comes after the line was opened, or could not be.
    pub fn opened(&self, r: &Result<(), String>) -> (next: (Vec<SessionEvent>, LineStep))
        requires
            self.program matches Some(p) ==> p.wf(),
        ensures
            match (*r, self.program) {
                (Err(e), _) => {
                    &&& processor::event_views(next.0@) == seq![
                        EventView::Error("open serial failed: "@ + e@),
                    ]
                    &&& next.1 is Finish
                },
                (Ok(()), Some(p)) => {
                    &&& processor::event_views(next.0@) == session::load_events(p)
                    &&& next.1 matches LineStep::Load(segments) && session::segment_views(segments@)
                        == session::load_segments_of(p)
                },
                (Ok(()), None) => {
                    &&& processor::event_views(next.0@) == seq![
                        EventView::Log("watch mode: no LOAD/EXEC frames will be sent"@),
                        EventView::Connected(self.label()),
                    ]
                    &&& next.1 is Turn
                },
            },
    {
        match r {
            Err(e) => (
                told(SessionEvent::Error(two("open serial failed: ", e.as_str()))),
                LineStep::Finish,
            ),
            Ok(()) => match &self.program {
                Some(p) => {
                    let plan: LoadPlan = load_plan(p);
                    (plan.events, LineStep::Load(plan.segments))
                },
                None => {
                    let mut events = told(
                        SessionEvent::Log("watch mode: no LOAD/EXEC frames will be sent".to_owned()),
                    );
                    push_event(&mut events, SessionEvent::Connected { label: self.label_text() });
                    assert(processor::event_views(events@) =~= seq![
                        EventView::Log("watch mode: no LOAD/EXEC frames will be sent"@),
                        EventView::Connected(self.label()),
                    ]);
                    (events, LineStep::Turn)
                },
            },
        }
    }

    /// What comes after the segments were loaded, or could not be.
    pub fn loaded(&self, r: &Result<(), String>) -> (next: (Vec<SessionEvent>, LineStep))
        ensures
            processor::event_views(next.0@) == seq![session::outcome("LOAD"@, *r)],
            next.1 == (if *r is Ok {
                LineStep::Exec
            } else {
                LineStep::Finish
            }),
    {
        let events = told(outcome_event("LOAD", r));
        match r {
            Ok(()) => (events, LineStep::Exec),
            Err(_) => (events, LineStep::Finish),
        }
    }

    /// What comes after the sequence was run, or could not be, with the operations that were
    /// traced meanwhile.
    pub fn executed(
        &self,
        r: &Result<ExecStatus, String>,
        traces: Vec<BusOp>,
        processor: &mut ReportProcessor,
    ) -> (next: (Vec<SessionEvent>, LineStep))
        requires
            ops_room(old(processor).counts(), traces@),
        ensures
            final(processor).decoder_map() == old(processor).decoder_map(),
            final(processor).kind_table() == old(processor).kind_table(),
            match *r {
                Err(e) => {
                    &&& final(processor).counts() == old(processor).counts()
                    &&& processor::event_views(next.0@) == seq![
                        EventView::Error("EXEC failed: "@ + e@),
                    ]
                    &&& next.1 is Finish
                },
                Ok(status) => {
                    &&& final(processor).counts() == counts_after(old(processor).counts(), traces@)
                    &&& processor::event_views(next.0@) == seq![
                        EventView::ExecStatus(session::status_name(status)),
                    ] + all_op_events(
                        old(processor).kind_table(),
                        old(processor).decoder_map(),
                        old(processor).counts(),
                        traces@,
                    ) + seq![EventView::Connected(self.label())]
                    &&& next.1 is Turn
                },
            },
    {
        let mut events = told(exec_event(r));
        match r {
            Err(_) => (events, LineStep::Finish),
            Ok(_) => {
                let ghost first = processor::event_views(events@);
                let mut more = handle_bus_ops(processor, traces);
                let ghost second = processor::event_views(more@);
                append_events(&mut events, &mut more);
                push_event(&mut events, SessionEvent::Connected { label: self.label_text() });
                assert(processor::event_views(events@) =~= first + second + seq![
                    EventView::Connected(self.label()),
                ]);
                (events, LineStep::Turn)
            },
        }
    }

    /// Whether the session goes on, `stop` being whether it was told to end from outside.
    pub fn turn(&self, stop: bool) -> (next: (Vec<SessionEvent>, LineStep))
        ensures
            if self.stopping || stop {
                &&& processor::event_views(next.0@) == seq![EventView::Disconnected]
                &&& next.1 is Finish
            } else {
                &&& processor::event_views(next.0@) == Seq::<EventView>::empty()
                &&& next.1 is TakeCommand
            },
    {
        if self.stopping || stop {
            (told(SessionEvent::Disconnected), LineStep::Finish)
        } else {
            (nothing(), LineStep::TakeCommand)
        }
    }

    /// What is done with the next command, if there is one. Behind the one to end no command is
    /// looked for.
    pub fn command(&mut self, command: Option<SessionCommand>) -> (step: LineStep)
        ensures
            final(self).serial == old(self).serial,
            final(self).baud == old(self).baud,
            final(self).program == old(self).program,
            final(self).stopping == (old(self).stopping || command == Some(
                SessionCommand::Shutdown,
            )),
            step == (match command {
                None => LineStep::Observe,
                Some(SessionCommand::Shutdown) => LineStep::Observe,
                Some(c) => LineStep::Ask(c),
            }),
    {
        match command {
            None => LineStep::Observe,
            Some(SessionCommand::Shutdown) => {
                self.stopping = true;
                LineStep::Observe
            },
            Some(c) => LineStep::Ask(c),
        }
    }

    /// What comes after the device answered a command, with the operations that were traced
    /// meanwhile: they are told first, and the next command is looked for.
    pub fn answered(
        &self,
        command: &SessionCommand,
        answer: &LineAnswer,
        traces: Vec<BusOp>,
        processor: &mut ReportProcessor,
    ) -> (next: (Vec<SessionEvent>, LineStep))
        requires
            ops_room(old(processor).counts(), traces@),
        ensures
            final(processor).decoder_map() == old(processor).decoder_map(),
            final(processor).kind_table() == old(processor).kind_table(),
            final(processor).counts() == counts_after(old(processor).counts(), traces@),
            processor::event_views(next.0@) == all_op_events(
                old(processor).kind_table(),
                old(processor).decoder_map(),
                old(processor).counts(),
                traces@,
            ) + answer_views(*command, *answer),
            next.1 is TakeCommand,
    {
        let mut events = handle_bus_ops(processor, traces);
        let mut more = answer_events(command, answer);
        append_events(&mut events, &mut more);
        (events, LineStep::TakeCommand)
    }

    /// What comes after the pause that follows a failure: the session is asked whether it goes on.
    pub fn paused(&self) -> (step: LineStep)
        ensures
            step is Turn,
    {
        LineStep::Turn
    }

    /// What comes after a trace record was waited for: `r` is the record, nothing where none
    /// came in time, or why waiting failed.
    pub fn observed(&self, r: Result<Option<BusOp>, String>, processor: &mut ReportProcessor) -> (next:
        (Vec<SessionEvent>, LineStep))
        requires
            r matches Ok(Some(op)) ==> ops_room(old(processor).counts(), seq![op]),
        ensures
            final(processor).decoder_map() == old(processor).decoder_map(),
            final(processor).kind_table() == old(processor).kind_table(),
            match r {
                Ok(Some(op)) => {
                    &&& final(processor).counts() == count_after(old(processor).counts(), op)
                    &&& processor::event_views(next.0@) == op_events(
                        old(processor).kind_table(),
                        old(processor).decoder_map(),
                        final(processor).counts(),
                        op,
                    )
                    &&& next.1 is Turn
                },
                Ok(None) => {
                    &&& final(processor).counts() == old(processor).counts()
                    &&& processor::event_views(next.0@) == Seq::<EventView>::empty()
                    &&& next.1 is Turn
                },
                Err(e) => {
                    &&& final(processor).counts() == old(processor).counts()
                    &&& processor::event_views(next.0@) == seq![
                        EventView::Error("observe failed: "@ + e@),
                    ]
                    &&& next.1 is Pause
                },
            },
    {
        match r {
            Ok(Some(op)) => {
                assert(seq![op].drop_last() =~= Seq::<BusOp>::empty());
                assert(seq![op].last() == op);
                reveal_with_fuel(ops_room, 2);
                (processor.handle_bus_op(op), LineStep::Turn)
            },
            Ok(None) => (nothing(), LineStep::Turn),
            Err(e) => (
                told(SessionEvent::Error(two("observe failed: ", e.as_str()))),
                LineStep::Pause,
            ),
        }
    }
}

// ---- the operations of a run

/// The counts after an operation.
pub open spec fn count_after(h: ReportHealth, op: BusOp) -> ReportHealth {
    match op {
        BusOp::Report { meta, .. } => health::health_after(h, meta),
        _ => h,
    }
}

/// What happens on an operation, the counts being `after` it.
pub open spec fn op_events(
    kinds: ReportKinds,
    decoders: Map<u32, crate::decoder::ReportDecoder>,
    after: ReportHealth,
    op: BusOp,
) -> Seq<EventView> {
    match op {
        BusOp::Report { meta, kind, args } => processor::report_events(
            kinds,
            decoders,
            after,
            meta,
            kind,
            report::arg_views(args@),
        ),
        _ => seq![processor::op_event(op)],
    }
}

/// The counts after operations.
pub open spec fn counts_after(h: ReportHealth, ops: Seq<BusOp>) -> ReportHealth
    decreases ops.len(),
{
    if ops.len() == 0 {
        h
    } else {
        count_after(counts_after(h, ops.drop_last()), ops.last())
    }
}

/// Whether the reports among operations can be counted.
pub open spec fn ops_room(h: ReportHealth, ops: Seq<BusOp>) -> bool
    decreases ops.len(),
{
    ops.len() == 0 || {
        &&& ops_room(h, ops.drop_last())
        &&& ops.last() matches BusOp::Report { meta, .. } ==> health::health_room(
            counts_after(h, ops.drop_last()),
            meta,
        )
    }
}

/// What happens on operations, one after the other.
pub open spec fn all_op_events(
    kinds: ReportKinds,
    decoders: Map<u32, crate::decoder::ReportDecoder>,
    h: ReportHealth,
    ops: Seq<BusOp>,
) -> Seq<EventView>
    decreases ops.len(),
{
    if ops.len() == 0 {
        Seq::empty()
    } else {
        all_op_events(kinds, decoders, h, ops.drop_last()) + op_events(
            kinds,
            decoders,
            counts_after(h, ops),
            ops.last(),
        )
    }
}

fn append_events(events: &mut Vec<SessionEvent>, more: &mut Vec<SessionEvent>)
    ensures
        processor::event_views(final(events)@) == processor::event_views(old(events)@)
            + processor::event_views(old(more)@),
{
    events.append(more);
    assert(processor::event_views(events@) =~= processor::event_views(old(events)@)
        + processor::event_views(old(more)@));
}

proof fn lemma_room_before(h: ReportHealth, ops: Seq<BusOp>, n: int)
    requires
        ops_room(h, ops),
        0 <= n <= ops.len(),
    ensures
        ops_room(h, ops.take(n)),
    decreases ops.len() - n,
{
    if n < ops.len() {
        lemma_room_before(h, ops, n + 1);
        assert(ops.take(n + 1).drop_last() =~= ops.take(n));
    } else {
        assert(ops.take(n) =~= ops);
    }
}

/// What happens on operations, one after the other.
pub fn handle_bus_ops(processor: &mut ReportProcessor, ops: Vec<BusOp>) -> (events: Vec<
    SessionEvent,
>)
    requires
        ops_room(old(processor).counts(), ops@),
    ensures
        final(processor).decoder_map() == old(processor).decoder_map(),
        final(processor).kind_table() == old(processor).kind_table(),
        final(processor).counts() == counts_after(old(processor).counts(), ops@),
        processor::event_views(events@) == all_op_events(
            old(processor).kind_table(),
            old(processor).decoder_map(),
            old(processor).counts(),
            ops@,
        ),
{
    let ghost kinds = processor.kind_table();
    let ghost decoders = processor.decoder_map();
    let ghost h = processor.counts();
    let ghost all = ops@;
    let mut events = nothing();
    assert(all.take(0) =~= Seq::<BusOp>::empty());
    for op in it: ops
        invariant
            it.seq() == all,
            ops_room(h, all),
            processor.decoder_map() == decoders,
            processor.kind_table() == kinds,
            processor.counts() == counts_after(h, all.take(it.index() as int)),
            processor::event_views(events@) == all_op_events(
                kinds,
                decoders,
                h,
                all.take(it.index() as int),
            ),
    {
        let ghost n = it.index() as int;
        proof {
            lemma_room_before(h, all, n + 1);
            assert(all.take(n + 1).drop_last() =~= all.take(n));
            assert(all.take(n + 1).last() == op);
        }
        let mut more = processor.handle_bus_op(op);
        append_events(&mut events, &mut more);
    }
    assert(all.take(all.len() as int) =~= all);
    events
}

} // verus!
