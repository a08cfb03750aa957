//! What sessions, replays, documents and choices come to.

use vstd::prelude::*;

use crate::blocks::EditorView;
use crate::capture::RecordView;
use crate::capture_meta;
use crate::capture_meta::CaptureSidecar;
use crate::catalog::AccessKind;
use crate::completion;
use crate::connection;
use crate::decoder::ReportDecoder;
use crate::document;
use crate::document::{DocumentView, FileWritten};
use crate::editor_source;
use crate::editor_source::SourceFile;
use crate::health;
use crate::health::ReportHealth;
use crate::line;
use crate::line::LineAnswer;
use crate::metadata;
use crate::modes;
use crate::modes::{LinkMode, PanelTab};
use crate::numbers;
use crate::position;
use crate::processor;
use crate::processor::EventView;
use crate::replay;
use crate::report;
use crate::report::{BusOp, ReportKinds};
use crate::restore;
use crate::program::ParsedSource;
use crate::restore::{CompileFault, ParsedRead};
use crate::scan_laws;
use crate::session;
use crate::session::{CompiledProgram, SessionCommand};
use crate::sources;
use crate::sources::{LoadedView, ManifestRead, SequenceRead, SourceView, TextRead};
use crate::split;
use crate::text;
use crate::text_laws;
use crate::visual;
use crate::visual_source;
use crate::wire::{ArgView, ExecStatus};
use crate::workbench;
use crate::workbench::StreamView;
use crate::workspace;
use crate::workspace::{FileRead, SourceKind, SourceState, StartRequest};

verus! {

// ---- the demo

/// Writing to the demo changes the bytes from its address on, round the end, and no other.
pub proof fn law_demo_write_leaves_the_rest(regs: Seq<u8>, addr: u32, data: Seq<u8>, at: int)
    requires
        regs.len() == 256,
        data.len() <= 256,
        0 <= at < 256,
        forall|k: int| 0 <= k < data.len() ==> #[trigger] ((addr + k) % 256) != at,
    ensures
        session::demo_written(regs, addr as int, data).len() == 256,
        session::demo_written(regs, addr as int, data)[at] == regs[at],
    decreases data.len(),
{
    if data.len() > 0 {
        law_demo_write_leaves_the_rest(regs, addr, data.drop_last(), at);
        assert((addr + (data.len() - 1)) % 256 != at);
    }
}

/// What the demo reads, from an address on and round the end.
pub proof fn law_demo_read(regs: Seq<u8>, addr: u32, len: nat, i: int)
    requires
        regs.len() == 256,
        0 <= i < len,
    ensures
        session::demo_read(regs, addr as int, len).len() == len,
        session::demo_read(regs, addr as int, len)[i] == regs[(addr + i) % 256],
        session::demo_start().len() == 256,
        session::demo_start()[0] == 6,
        forall|k: int| 0 < k < 256 ==> session::demo_start()[k] == 0,
{
}

/// What the demo does on a command, and what it tells: a read tells the bytes that are there, a
/// write keeps and tells its bytes, a reset brings back the start, and the others change nothing.
pub proof fn law_demo_commands(regs: Seq<u8>, command: SessionCommand)
    ensures
        ({
            let after = session::demo_after(regs, command);
            let events = session::demo_events(regs, command);
            match command {
                SessionCommand::ReadRegister { addr, len, .. } => after == regs && events.len() == 2
                    && events[0] == EventView::Register(
                    addr,
                    AccessKind::Read,
                    session::demo_read(regs, addr as int, len as nat),
                ) && events[1] is Log,
                SessionCommand::WriteRegister { addr, data, .. } => after == session::demo_written(
                    regs,
                    addr as int,
                    data@,
                ) && events.len() == 2 && events[0] == EventView::Register(
                    addr,
                    AccessKind::Write,
                    data@,
                ) && events[1] is Log,
                SessionCommand::ResetMcu => after == session::demo_start() && events == seq![
                    EventView::Log("demo reset ok"@),
                ],
                SessionCommand::Ping => after == regs && events == seq![
                    EventView::Log("demo ping ok"@),
                ],
                SessionCommand::StopReports => after == regs && events == seq![
                    EventView::Log("demo stop reports ok"@),
                ],
                SessionCommand::Shutdown => after == regs && events.len() == 0,
            }
        }),
{
}

// ---- the line

/// What is told of the answer to a command: of a read the bytes that came back at the address that
/// came back, of a write the bytes that were sent, and of a refusal an error.
pub proof fn law_told_answers(
    addr: u32,
    len: u16,
    label: Seq<char>,
    data: Seq<u8>,
    got: Vec<u8>,
    at: u32,
    count: u16,
    e: String,
)
    ensures
        ({
            let read = session::read_answer(addr, len, label, Ok((at, got)));
            let unread = session::read_answer(addr, len, label, Err(e));
            let write = session::write_answer(addr, data, label, Ok((at, count)));
            let unwritten = session::write_answer(addr, data, label, Err(e));
            &&& read.len() == 2 && read[1] is Log
            &&& read[0] == EventView::Register(at, AccessKind::Read, got@)
            &&& unread.len() == 1 && unread[0] is Error
            &&& write.len() == 2 && write[1] is Log
            &&& write[0] == EventView::Register(at, AccessKind::Write, data)
            &&& unwritten.len() == 1 && unwritten[0] is Error
        }),
{
}

/// An answer is told of the command that it answers; one of another form tells nothing.
pub proof fn law_answers_fit_commands(command: SessionCommand, answer: LineAnswer)
    ensures
        ({
            let told = line::answer_views(command, answer);
            &&& command is ReadRegister && !(answer is Read) ==> told.len() == 0
            &&& command is WriteRegister && !(answer is Write) ==> told.len() == 0
            &&& command is Ping && !(answer is Outcome) ==> told.len() == 0
            &&& command is Shutdown ==> told.len() == 0
            &&& command is Ping ==> answer == LineAnswer::Outcome(Ok(())) ==> told == seq![
                EventView::Log("ping"@ + " ok"@),
            ]
            &&& command is StopReports ==> answer == LineAnswer::Outcome(Ok(())) ==> told == seq![
                EventView::Log("stop reports"@ + " ok"@),
            ]
            &&& command is ResetMcu ==> answer == LineAnswer::Outcome(Ok(())) ==> told == seq![
                EventView::Log("reset"@ + " ok"@),
            ]
            &&& (command matches SessionCommand::ReadRegister { addr, len, label }
                ==> (answer matches LineAnswer::Read(r) ==> told == session::read_answer(
                addr,
                len,
                label@,
                r,
            )))
            &&& (command matches SessionCommand::WriteRegister { addr, data, label }
                ==> (answer matches LineAnswer::Write(r) ==> told == session::write_answer(
                addr,
                data@,
                label@,
                r,
            )))
        }),
{
}

/// What operations of the line tell comes in their order. The counts go on from one report to the
/// next, and each report tells those that hold after it.
pub proof fn law_told_operations(
    kinds: ReportKinds,
    decoders: Map<u32, ReportDecoder>,
    h: ReportHealth,
    ops: Seq<BusOp>,
    op: BusOp,
)
    ensures
        line::all_op_events(kinds, decoders, h, Seq::empty()).len() == 0,
        line::counts_after(h, Seq::empty()) == h,
        line::counts_after(h, ops.push(op)) == (match op {
            BusOp::Report { meta, .. } => health::health_after(
                line::counts_after(h, ops),
                meta,
            ),
            _ => line::counts_after(h, ops),
        }),
        line::all_op_events(kinds, decoders, h, ops.push(op)) == line::all_op_events(
            kinds,
            decoders,
            h,
            ops,
        ) + (match op {
            BusOp::Report { meta, kind, args } => processor::report_events(
                kinds,
                decoders,
                health::health_after(line::counts_after(h, ops), meta),
                meta,
                kind,
                report::arg_views(args@),
            ),
            _ => seq![processor::op_event(op)],
        }),
{
    assert(ops.push(op).drop_last() =~= ops);
}

/// What an operation other than a report tells: a read and a write the bytes at their address, and
/// the others a line.
pub proof fn law_told_operation(op: BusOp)
    ensures
        op matches BusOp::Read { addr, data } ==> processor::op_event(op)
            == EventView::Register(addr, AccessKind::Read, data@),
        op matches BusOp::Write { addr, data } ==> processor::op_event(op)
            == EventView::Register(addr, AccessKind::Write, data@),
        op matches BusOp::Log { msg } ==> processor::op_event(op) == EventView::Log(msg@),
        op matches BusOp::Delay { us } ==> processor::op_event(op) == EventView::Log(
            "delay "@ + text::dec(us as nat) + "us"@,
        ),
        op matches BusOp::Irq { pin } ==> processor::op_event(op) == EventView::Log(
            "irq pin "@ + text::dec(pin as nat),
        ),
{
}

/// What is loaded of a program: the main segment, and behind it the handler of the first pin where
/// there is one.
pub proof fn law_loaded_segments(p: CompiledProgram, i: int)
    requires
        p.wf(),
    ensures
        session::load_segments_of(p).len() <= 2,
        session::load_segments_of(p)[0] == (0u8, p.main@),
        0 <= i < p.irq_bytecodes@.len() && p.irq_bytecodes@[i].0@ == "int1"@
            ==> session::load_segments_of(p) == seq![
            (0u8, p.main@),
            (0x10u8, p.irq_bytecodes@[i].1@),
        ],
        (forall|j: int|
            0 <= j < p.irq_bytecodes@.len() ==> (#[trigger] p.irq_bytecodes@[j]).0@ != "int1"@)
            ==> session::load_segments_of(p) == seq![(0u8, p.main@)],
{
    if 0 <= i < p.irq_bytecodes@.len() {
        session::law_handler_of_a_pin(p, i);
    }
    if forall|j: int|
        0 <= j < p.irq_bytecodes@.len() ==> (#[trigger] p.irq_bytecodes@[j]).0@ != "int1"@ {
        lemma_no_handler(p.irq_bytecodes@, "int1"@);
    }
}

proof fn lemma_no_handler(irqs: Seq<(String, Vec<u8>)>, pin: Seq<char>)
    requires
        forall|j: int| 0 <= j < irqs.len() ==> (#[trigger] irqs[j]).0@ != pin,
    ensures
        session::handler_of(irqs, pin) is None,
    decreases irqs.len(),
{
    if irqs.len() > 0 {
        let rest = irqs.skip(1);
        assert(irqs[0].0@ != pin);
        assert(forall|j: int| 0 <= j < rest.len() ==> rest[j] == irqs[j + 1]);
        lemma_no_handler(rest, pin);
    }
}

/// Handlers of other pins are told, in their order, and not loaded.
pub proof fn law_skipped_handlers(irqs: Seq<(String, Vec<u8>)>, irq: (String, Vec<u8>))
    ensures
        session::skipped_events(Seq::empty()).len() == 0,
        irq.0@ == "int1"@ ==> session::skipped_events(irqs.push(irq)) == session::skipped_events(
            irqs,
        ),
        irq.0@ != "int1"@ ==> session::skipped_events(irqs.push(irq)) == session::skipped_events(
            irqs,
        ).push(
            EventView::Log(
                "compiled irq!("@ + irq.0@
                    + ") but this transport maps only int1; segment skipped"@,
            ),
        ),
{
    assert(irqs.push(irq).drop_last() =~= irqs);
}

/// How the end of a program is named.
pub proof fn law_status_names()
    ensures
        session::status_name(ExecStatus::Success) == "Ok"@,
        session::status_name(ExecStatus::InvalidOpcode) == "InvalidOpcode"@,
        session::status_name(ExecStatus::ProgramTooShort) == "ProgramTooShort"@,
        session::status_name(ExecStatus::InvalidLength) == "InvalidLength"@,
        session::status_name(ExecStatus::DivideByZero) == "DivideByZero"@,
        session::status_name(ExecStatus::BusError) == "BusError"@,
{
}

// ---- replays

/// The counts of a replay are those of the stream of its reports.
pub proof fn law_replayed_counts(records: Seq<RecordView>)
    ensures
        replay::counts_after(health::no_reports(), records) == health::health_of(
            records.map_values(|r: RecordView| r.meta),
        ),
    decreases records.len(),
{
    let metas = records.map_values(|r: RecordView| r.meta);
    if records.len() > 0 {
        law_replayed_counts(records.drop_last());
        assert(metas.drop_last() =~= records.drop_last().map_values(|r: RecordView| r.meta));
    }
}

/// A replay takes in the records one after the other, each with what follows from it under the
/// counts that hold after it.
pub proof fn law_replayed_record(
    v: StreamView,
    kinds: ReportKinds,
    decoders: Map<u32, ReportDecoder>,
    h: ReportHealth,
    records: Seq<RecordView>,
    r: RecordView,
    times: Seq<u64>,
)
    ensures
        replay::after_records(v, kinds, decoders, h, Seq::empty(), times) == v,
        replay::after_records(v, kinds, decoders, h, records.push(r), times)
            == workbench::after_events(
            replay::after_records(v, kinds, decoders, h, records, times),
            processor::report_events(
                kinds,
                decoders,
                health::health_after(replay::counts_after(h, records), r.meta),
                r.meta,
                r.kind,
                r.args,
            ),
            times[records.len() as int],
        ),
{
    assert(records.push(r).drop_last() =~= records);
}

/// A capture that is opened is shown from its beginning: nothing seen before stays, no session goes
/// on, and as many samples are skipped as the file beside it says.
pub proof fn law_opened_capture(v: StreamView, sidecar: CaptureSidecar, name: Seq<char>)
    ensures
        ({
            let plain = replay::opened(v, None, name);
            let told = replay::opened(v, Some(sidecar), name);
            let known = capture_meta::restored_all(
                capture_meta::meta_views(sidecar.report_decoders@),
            );
            &&& !plain.connected && plain.mode == "replay"@ && plain.label == "replay "@ + name
            &&& plain.samples.len() == 0 && plain.capture.len() == 0 && plain.history.bars.len()
                == 0 && plain.history.bucket is None
            &&& plain.skip_count == v.skip_count && plain.skip_remaining == v.skip_count
            &&& plain.logs == v.logs && plain.reports == v.reports
            &&& known is Ok ==> told == (StreamView {
                skip_count: sidecar.skip_samples as nat,
                skip_remaining: sidecar.skip_samples as nat,
                ..plain
            })
            &&& known is Err ==> told == (StreamView { logs: told.logs, ..plain })
        }),
{
}

// ---- documents

/// What opening and saving do to the document: a choice that is cancelled or fails changes nothing
/// but what is told; opening takes over the file; saving keeps the text and the blocks.
pub proof fn law_opened_and_saved(d: DocumentView, f: FileRead, w: FileWritten)
    ensures
        ({
            let none = document::opened(d, None);
            let unsaved = document::saved(d, None);
            let opened = document::opened(d, Some(f));
            let saved = document::saved(d, Some(w));
            let only_told = |a: DocumentView|
                a == (DocumentView {
                    editor: EditorView { status: a.editor.status, ..d.editor },
                    ..d
                });
            &&& only_told(none) && only_told(unsaved)
            &&& f.text is Err ==> only_told(opened)
            &&& w.written is Err ==> only_told(saved)
            &&& f.text matches Ok(source) ==> {
                &&& opened.path == Some(f.path@)
                &&& opened.files == seq![f.path@]
                &&& opened.source == source@
                &&& opened.editor.sequences == visual::shown_sequences(source@)
                &&& opened.editor.active == 0 && !opened.editor.dirty
            }
            &&& w.written is Ok ==> {
                &&& saved.path == Some(w.path@)
                &&& saved.files == seq![w.path@]
                &&& saved.source == d.source
                &&& saved.editor.sequences == d.editor.sequences
                &&& saved.editor.active == d.editor.active && !saved.editor.dirty
            }
        }),
{
}

/// A new document has no file.
pub proof fn law_fresh_document()
    ensures
        document::fresh().path is None,
        document::fresh().files.len() == 0,
        !document::fresh().editor.dirty,
        document::fresh().editor.sequences == visual::shown_sequences(document::fresh().source),
{
}

/// Files are put together in their order, each behind a line with its path; those that cannot be
/// read are told, in their order.
pub proof fn law_combined_files(files: Seq<FileRead>, f: FileRead)
    ensures
        workspace::combined(Seq::empty()).len() == 0,
        workspace::read_faults(Seq::empty()).len() == 0,
        f.text matches Ok(source) ==> {
            let body = workspace::combined(files) + ("// rseq-gpui:file "@ + f.path@ + "\n"@)
                + source@;
            &&& workspace::combined(files.push(f)).take(body.len() as int) == body
            &&& workspace::read_faults(files.push(f)) == workspace::read_faults(files)
        },
        f.text matches Err(e) ==> {
            &&& workspace::combined(files.push(f)) == workspace::combined(files)
            &&& workspace::read_faults(files.push(f)) == workspace::read_faults(files).push(
                f.path@ + ": "@ + e@,
            )
        },
{
    assert(files.push(f).drop_last() =~= files);
    match f.text {
        Ok(source) => {
            let body = workspace::combined(files) + ("// rseq-gpui:file "@ + f.path@ + "\n"@)
                + source@;
            assert(workspace::combined(files.push(f)).take(body.len() as int) =~= body);
        },
        Err(_) => {},
    }
}

/// One file is worked on as it is; several are put together; where nothing was read, the work begins
/// with a new text.
pub proof fn law_initial_text(f: FileRead, files: Seq<FileRead>)
    ensures
        workspace::initial_text(Seq::empty()) == workspace::new_source(),
        f.text matches Ok(source) ==> workspace::initial_text(seq![f]) == source@,
        f.text is Err ==> workspace::initial_text(seq![f]) == workspace::new_source(),
        files.len() > 1 && workspace::combined(files).len() > 0 ==> workspace::initial_text(files)
            == workspace::combined(files),
        files.len() > 1 && workspace::combined(files).len() == 0 ==> workspace::initial_text(files)
            == workspace::new_source(),
{
}

/// What is started: what is shown in the editor counts where its panel is shown, it was changed, or
/// it alone has a file; a program is loaded unless watching was asked for or there is none.
pub proof fn law_start_plan(s: SourceState, always: bool)
    ensures
        ({
            let edited = s.tab is Sequences || s.dirty || (s.has_path && !s.has_files);
            let connect = workspace::plan_of(StartRequest::Connect, s, always);
            let load = workspace::plan_of(StartRequest::LoadAndRun, s, always);
            let watch = workspace::plan_of(StartRequest::Watch, s, always);
            &&& connect.from_editor == edited && load.from_editor == edited && watch.from_editor
                == edited
            &&& watch.watch
            &&& !load.watch
            &&& always ==> connect.watch
            &&& !always && edited ==> connect.watch == !s.has_source
            &&& !always && !edited ==> connect.watch == !s.has_files
        }),
{
}

/// When loading ends before a program is compiled: with a fault in the metadata first, then where
/// there is nothing to compile, then where compiling was not asked for.
pub proof fn law_early_outcome(fault: Seq<char>, count: nat, compile: bool, kind: SourceKind)
    ensures
        workspace::early_outcome(kind, Some(fault), count, compile) == Some(
            ("metadata error: "@ + fault, false),
        ),
        workspace::early_outcome(SourceKind::File, None, 0, compile) == Some(
            ("no rseq file selected"@, true),
        ),
        workspace::early_outcome(SourceKind::Source, None, 0, compile) == Some(
            ("no rseq source selected"@, true),
        ),
        count > 0 && !compile ==> workspace::early_outcome(kind, None, count, compile) == Some(
            ("metadata loaded; startup program not compiled"@, true),
        ),
        count > 0 && compile ==> workspace::early_outcome(kind, None, count, compile) is None,
{
}

/// The first file that could not be read.
pub proof fn law_first_unread(files: Seq<SourceFile>, k: int)
    ensures
        0 <= k < files.len() && files[k].text is Err && (forall|j: int|
            0 <= j < k ==> (#[trigger] files[j]).text is Ok) ==> editor_source::first_unread(files)
            == Some(k),
        (forall|j: int| 0 <= j < files.len() ==> (#[trigger] files[j]).text is Ok)
            ==> editor_source::first_unread(files) is None,
    decreases files.len(),
{
    if files.len() > 0 {
        let less = files.drop_last();
        assert(forall|j: int| 0 <= j < less.len() ==> less[j] == files[j]);
        law_first_unread(less, k);
        law_first_unread(less, 0);
    }
}

/// The fault that is told is that of the first source that cannot be parsed.
pub proof fn law_first_fault(what: Seq<char>, list: Seq<ParsedRead>, k: int)
    ensures
        0 <= k < list.len() && list[k].stmts is Err && (forall|j: int|
            0 <= j < k ==> (#[trigger] list[j]).stmts is Ok) ==> restore::first_fault(what, list)
            == Some(metadata::fault_text(what, list[k].name@, list[k].stmts->Err_0)),
        (forall|j: int| 0 <= j < list.len() ==> (#[trigger] list[j]).stmts is Ok)
            ==> restore::first_fault(what, list) is None,
    decreases list.len(),
{
    if list.len() > 0 {
        let less = list.drop_last();
        assert(forall|j: int| 0 <= j < less.len() ==> less[j] == list[j]);
        law_first_fault(what, less, k);
        law_first_fault(what, less, 0);
    }
}

// ---- sources

/// Sequences are taken in one after the other, each as a source with its path, its text and its
/// directory, up to the first that cannot be read.
pub proof fn law_loaded_sequences(l: LoadedView, list: Seq<SequenceRead>, s: SequenceRead)
    ensures
        sources::with_sequences(l, Seq::empty()) == l,
        ({
            let before = sources::with_sequences(l, list);
            let after = sources::with_sequences(l, list.push(s));
            &&& before.error is Some ==> after == before
            &&& before.error is None && s.text is Err ==> after.sources == before.sources
                && after.lines == before.lines && after.error is Some
            &&& before.error is None && s.text is Ok ==> after.error is None && after.lines.len()
                == before.lines.len() + 1 && after.sources == before.sources + seq![
                SourceView {
                    name: s.path@,
                    source: s.text->Ok_0@,
                    base: match s.parent {
                        Some(p) => Some(p@),
                        None => None,
                    },
                },
            ]
        }),
{
    assert(list.push(s).drop_last() =~= list);
    let before = sources::with_sequences(l, list);
    let after = sources::with_sequences(l, list.push(s));
    if before.error is None && s.text is Ok {
        assert(after.sources =~= before.sources + seq![
            SourceView {
                name: s.path@,
                source: s.text->Ok_0@,
                base: match s.parent {
                    Some(p) => Some(p@),
                    None => None,
                },
            },
        ]);
    }
}

/// A manifest gives its chip first, where it names one, as a source that names the chip and starts
/// from the directory of the manifest; its sequences follow.
pub proof fn law_loaded_manifest(m: ManifestRead)
    ensures
        m.chip is None ==> sources::manifest_sources(m) == sources::with_sequences(
            sources::nothing_loaded(),
            m.sequences@,
        ),
        m.chip matches Some(chip) ==> {
            let l = sources::with_chip(sources::nothing_loaded(), m);
            &&& sources::manifest_sources(m) == sources::with_sequences(l, m.sequences@)
            &&& l.error is None
            &&& l.sources == seq![
                SourceView {
                    name: m.path@ + "#chip"@,
                    source: visual_source::chip_line(chip@) + "\n"@,
                    base: Some(
                        match m.parent {
                            Some(p) => p@,
                            None => "."@,
                        },
                    ),
                },
            ]
        },
{
    match m.chip {
        Some(chip) => {
            let l = sources::with_chip(sources::nothing_loaded(), m);
            assert(l.sources =~= seq![l.sources[0]]);
        },
        None => {},
    }
}

/// Without files a program is still there where one is needed.
pub proof fn law_default_source(f: TextRead)
    ensures
        sources::file_sources(Seq::empty(), true).error is None,
        sources::file_sources(Seq::empty(), true).sources == seq![
            SourceView {
                name: "<default>"@,
                source: "write!(0x10, 0xaa, 100);"@,
                base: None,
            },
        ],
        sources::file_sources(Seq::empty(), false).sources.len() == 0,
        sources::file_sources(seq![f], true) == sources::with_files(
            sources::nothing_loaded(),
            seq![f],
        ),
{
    assert(sources::file_sources(Seq::empty(), true).sources =~= seq![
        SourceView { name: "<default>"@, source: "write!(0x10, 0xaa, 100);"@, base: None },
    ]);
}

// ---- choices

/// The port that is used is the one that was typed, or the only one that was found; the baud rate is
/// a positive number.
pub proof fn law_chosen_port(typed: Seq<char>, found: Seq<Seq<char>>, baud: Seq<char>)
    ensures
        ({
            let r = connection::serial_choice(typed, found, baud);
            let port = text::trimmed(typed);
            let rate = numbers::serial_baud(baud);
            &&& r is Ok <==> (port.len() > 0 || found.len() == 1) && rate is Ok
            &&& r is Ok && port.len() > 0 ==> r->Ok_0.0 == port
            &&& r is Ok && port.len() == 0 ==> r->Ok_0.0 == found[0]
            &&& r is Ok ==> rate == Ok::<nat, Seq<char>>(r->Ok_0.1) && r->Ok_0.1 > 0
            &&& port.len() == 0 && found.len() == 0 ==> r == Err::<(Seq<char>, nat), Seq<char>>(
                "no serial ports found"@,
            )
        }),
{
}

/// A baud rate is a positive decimal number that four bytes can hold.
pub proof fn law_baud_rate(s: Seq<char>)
    ensures
        ({
            let t = text::trimmed(s);
            let n = text::bounded_value(t, 10, 0xffff_ffff);
            &&& numbers::serial_baud(s) is Ok <==> t.len() > 0 && n is Some && n->Some_0 > 0
            &&& numbers::serial_baud(s) matches Ok(v) ==> n == Some(v)
        }),
{
}

/// A number on the command line is hexadecimal behind `0x` and decimal otherwise.
pub proof fn law_number_argument(t: Seq<char>, rest: Seq<char>)
    requires
        t.len() > 0,
        !text::is_white(t[0]),
        !text::is_white(t.last()),
    ensures
        t == seq!['0', 'x'] + rest || t == seq!['0', 'X'] + rest ==> (match text::bounded_value(
            rest,
            16,
            0xffff_ffff,
        ) {
            Some(n) => numbers::u32_arg(t) == Ok::<nat, Seq<char>>(n),
            None => numbers::u32_arg(t) is Err,
        }),
        t.len() < 2 || t[0] != '0' || (t[1] != 'x' && t[1] != 'X') ==> (match text::bounded_value(
            t,
            10,
            0xffff_ffff,
        ) {
            Some(n) => numbers::u32_arg(t) == Ok::<nat, Seq<char>>(n),
            None => numbers::u32_arg(t) is Err,
        }),
{
    let none = Seq::<char>::empty();
    text_laws::law_trimmed_middle(none, t, none);
    assert(none + t + none =~= t);
    if t == seq!['0', 'x'] + rest || t == seq!['0', 'X'] + rest {
        assert(t[0] == '0' && (t[1] == 'x' || t[1] == 'X'));
        assert(t.skip(2) =~= rest);
    }
}

/// An interrupt that is to be fired is a pin before the first equals sign and a status behind it.
pub proof fn law_fired_interrupt(pin: Seq<char>, status: Seq<char>)
    requires
        !pin.contains('='),
    ensures
        numbers::fire_spec(pin) is Err,
        pin.len() == 0 ==> numbers::fire_spec(pin + seq!['='] + status) is Err,
        pin.len() > 0 ==> (match numbers::u32_arg(status) {
            Ok(n) => numbers::fire_spec(pin + seq!['='] + status) == Ok::<
                (Seq<char>, nat),
                Seq<char>,
            >((pin, n)),
            Err(_) => numbers::fire_spec(pin + seq!['='] + status) is Err,
        }),
{
    let equals = seq!['='];
    assert(equals.contains('=')) by {
        assert(equals[0] == '=');
    }
    assert forall|k: int| 0 <= k < pin.len() implies !equals.contains(#[trigger] pin[k]) by {
        assert(pin.contains(pin[k]));
    }
    scan_laws::law_pieces_of_text(pin, '=', status, equals);
    let s = pin + seq!['='] + status;
    assert(s.take(pin.len() as int) =~= pin);
    assert(s.skip(pin.len() as int + 1) =~= status);
}

/// Words of hexadecimal bytes are read in their order, up to the first that is none.
pub proof fn law_hex_words(words: Seq<Seq<char>>, word: Seq<char>)
    ensures
        numbers::hex_words(Seq::empty()) == Ok::<Seq<u8>, Seq<char>>(Seq::empty()),
        numbers::hex_words(words) matches Err(e) ==> numbers::hex_words(words.push(word)) == Err::<
            Seq<u8>,
            Seq<char>,
        >(e),
        numbers::hex_words(words) matches Ok(done) ==> (match text::bounded_value(word, 16, 255) {
            Some(n) => numbers::hex_words(words.push(word)) == Ok::<Seq<u8>, Seq<char>>(
                done.push(n as u8),
            ),
            None => numbers::hex_words(words.push(word)) is Err,
        }),
{
    assert(words.push(word).drop_last() =~= words);
}

/// A count that was typed: zero where nothing was.
pub proof fn law_typed_count(s: Seq<char>, label: Seq<char>)
    ensures
        text::trimmed(s).len() == 0 ==> numbers::nonnegative(s, label) == Ok::<nat, Seq<char>>(0),
        text::trimmed(s).len() > 0 ==> (match text::bounded_value(
            text::trimmed(s),
            10,
            usize::MAX as nat,
        ) {
            Some(n) => numbers::nonnegative(s, label) == Ok::<nat, Seq<char>>(n),
            None => numbers::nonnegative(s, label) == Err::<nat, Seq<char>>(
                "invalid "@ + label + ": "@ + text::trimmed(s),
            ),
        }),
{
}

/// Paths stand between semicolons and line breaks, without the white space and the quotation marks
/// around them; empty ones do not count.
pub proof fn law_listed_paths(path: Seq<char>, rest: Seq<char>)
    requires
        path.len() > 0,
        !path.contains(';'),
        !path.contains('\n'),
        forall|c: char|
            #![trigger text::is_white(c)]
            c == path[0] || c == path.last() ==> !text::is_white(c) && c != '"' && c != '\'',
    ensures
        numbers::path_list(path) == seq![path],
        numbers::path_list(path + seq![';'] + rest) == seq![path] + numbers::path_list(rest),
{
    let seps = seq![';', '\n'];
    assert(seps.contains(';')) by {
        assert(seps[0] == ';');
    }
    assert forall|k: int| 0 <= k < path.len() implies !seps.contains(#[trigger] path[k]) by {
        assert(path.contains(path[k]));
    }
    scan_laws::law_pieces_of_text(path, ';', rest, seps);
    let none = Seq::<char>::empty();
    assert(!text::is_white(path[0]) && !text::is_white(path.last()));
    text_laws::law_trimmed_middle(none, path, none);
    assert(none + path + none =~= path);
    scan_laws::law_stripped(none, path, none, '"');
    scan_laws::law_stripped(none, path, none, '\'');
    assert(numbers::path_part(path) == path);
    let part = |s: Seq<char>| numbers::path_part(s);
    let tail = split::pieces(rest, seps).map_values(part);
    assert((seq![path] + split::pieces(rest, seps)).map_values(part) =~= seq![path] + tail);
    lemma_filter_first(path, tail);
    lemma_filter_first(path, Seq::empty());
    assert(seq![path].map_values(part) =~= seq![path] + Seq::<Seq<char>>::empty());
    reveal(Seq::filter);
    assert(Seq::<Seq<char>>::empty().filter(numbers::filled()) =~= Seq::<Seq<char>>::empty());
    assert(numbers::path_list(path) =~= seq![path]);
}

proof fn lemma_filter_first(first: Seq<char>, rest: Seq<Seq<char>>)
    requires
        first.len() > 0,
    ensures
        (seq![first] + rest).filter(numbers::filled()) == seq![first] + rest.filter(
            numbers::filled(),
        ),
    decreases rest.len(),
{
    reveal(Seq::filter);
    let all = seq![first] + rest;
    let f = numbers::filled();
    if rest.len() == 0 {
        assert(all.drop_last() =~= Seq::<Seq<char>>::empty());
        assert(Seq::<Seq<char>>::empty().filter(f) =~= Seq::<Seq<char>>::empty());
        assert(all.filter(f) =~= seq![first] + rest.filter(f));
    } else {
        assert(all.drop_last() =~= seq![first] + rest.drop_last());
        lemma_filter_first(first, rest.drop_last());
        assert(all.filter(f) =~= seq![first] + rest.filter(f));
    }
}

// ---- completion

/// The name before a place is the longest run of characters of names that ends there.
pub proof fn law_name_before(s: Seq<char>, at: int)
    ensures
        ({
            let i = position::chars_before(s, at);
            let name = completion::name_before(s, at);
            let start = i - name.len();
            let part = |c: char|
                'a' <= c <= 'z' || 'A' <= c <= 'Z' || '0' <= c <= '9' || c == '_' || c == '.' || c
                    == '!';
            &&& 0 <= start <= i <= s.len()
            &&& name == s.subrange(start, i)
            &&& forall|k: int| start <= k < i ==> part(#[trigger] s[k])
            &&& start > 0 ==> !part(s[start - 1])
        }),
{
    let i = position::chars_before(s, at);
    if s.len() > 0 {
        position::law_chars_before(s, at, 0);
    }
    lemma_name_start(s, i);
}

proof fn lemma_name_start(s: Seq<char>, i: int)
    requires
        0 <= i <= s.len(),
    ensures
        0 <= completion::name_start(s, i) <= i,
        forall|k: int|
            completion::name_start(s, i) <= k < i ==> completion::ident_continue(#[trigger] s[k]),
        completion::name_start(s, i) > 0 ==> !completion::ident_continue(
            s[completion::name_start(s, i) - 1],
        ),
    decreases i,
{
    if i > 0 && completion::ident_continue(s[i - 1]) {
        lemma_name_start(s, i - 1);
    }
}

/// Completions are offered where a name was begun, or behind an opening bracket, a comma, a colon or
/// a dot, with white space between or without.
pub proof fn law_offered(s: Seq<char>, at: int, k: int)
    requires
        0 <= k < position::chars_before(s, at) <= s.len(),
        !text::is_white(s[k]),
        forall|j: int| k < j < position::chars_before(s, at) ==> text::is_white(#[trigger] s[j]),
    ensures
        completion::offered(s, at) <==> completion::name_before(s, at).len() > 0 || s[k] == '('
            || s[k] == '{' || s[k] == '[' || s[k] == ',' || s[k] == ':' || s[k] == '.',
{
    lemma_previous(s, position::chars_before(s, at), k);
}

proof fn lemma_previous(s: Seq<char>, i: int, k: int)
    requires
        0 <= k < i <= s.len(),
        !text::is_white(s[k]),
        forall|j: int| k < j < i ==> text::is_white(#[trigger] s[j]),
    ensures
        completion::previous_char(s, i) == Some(s[k]),
    decreases i,
{
    if k < i - 1 {
        assert(text::is_white(s[i - 1]));
        lemma_previous(s, i - 1, k);
    }
}

/// The numbers of the ways to connect and of the panels.
pub proof fn law_mode_numbers()
    ensures
        modes::link_id(LinkMode::Demo) == 0,
        modes::link_id(LinkMode::Serial) == 1,
        modes::link_id(LinkMode::Tcp) == 2,
        modes::link_id(LinkMode::Ble) == 3,
        modes::link_id(LinkMode::WebSocket) == 4,
        modes::link_id(LinkMode::Custom) == 5,
        modes::tab_index(PanelTab::Motion) == 0,
        modes::tab_index(PanelTab::Reports) == 1,
        modes::tab_index(PanelTab::Registers) == 2,
        modes::tab_index(PanelTab::Sequences) == 3,
        modes::tab_index(PanelTab::Logs) == 4,
{
}

/// Which characters ask for completions when they are typed: those of names, brackets other than the
/// opening square one, separators and white space within and between lines.
pub proof fn law_triggers(c: char)
    ensures
        completion::triggers(c) <==> {
            ||| 'a' <= c <= 'z' || 'A' <= c <= 'Z' || '0' <= c <= '9'
            ||| c == '_' || c == '.' || c == '!'
            ||| c == '(' || c == ')' || c == '{' || c == '}' || c == ']'
            ||| c == ',' || c == ';'
            ||| c == ' ' || c == '\t' || c == '\n' || c == '\r'
        },
{
}

/// A byte is at a boundary where a character begins there, or at the end and beyond.
pub proof fn law_boundary(s: Seq<char>, i: int, at: int)
    requires
        0 <= i <= s.len(),
    ensures
        completion::boundary(s, position::offset(s, i) as int),
        at >= position::bytes_in(s) ==> completion::boundary(s, at),
        completion::boundary(s, at) && at < position::bytes_in(s) ==> exists|k: int|
            0 <= k <= s.len() && #[trigger] position::offset(s, k) == at,
{
    position::law_offset_of_index(s, i);
    if completion::boundary(s, at) && at < position::bytes_in(s) {
        let k = position::chars_before(s, at);
        if s.len() > 0 {
            position::law_chars_before(s, at, 0);
        }
        assert(position::offset(s, k) == at);
    }
}

/// A change of the document is told and marks it as changed; the text, the file and the blocks stay.
pub proof fn law_changed_document(d: DocumentView, status: Seq<char>)
    ensures
        document::modified(d, status).editor.dirty,
        document::modified(d, status).editor.status == status,
        document::modified(d, status) == (DocumentView {
            editor: EditorView { dirty: true, status, ..d.editor },
            ..d
        }),
        document::told(d, status).editor.dirty == d.editor.dirty,
{
}

/// A file that was put together with others ends with an empty line.
pub proof fn law_combined_file_ends(all: Seq<char>, path: Seq<char>, source: Seq<char>)
    ensures
        ({
            let body = all + ("// rseq-gpui:file "@ + path + "\n"@) + source;
            let s = workspace::with_file(all, path, source);
            &&& s.len() >= 2 && s.last() == '\n' && s[s.len() - 2] == '\n'
            &&& body.len() > 0 && body.last() == '\n' ==> s == body + "\n"@
            &&& body.len() > 0 && body.last() != '\n' ==> s == body + "\n"@ + "\n"@
        }),
{
    reveal_strlit("\n");
}

/// What is told once a workspace was loaded: how it went, and that a session that goes on keeps what
/// it had.
pub proof fn law_told_load(label: Seq<char>, status: Seq<char>)
    ensures
        workspace::loaded_lines(label, true, status, false) == seq![
            label + " loaded: "@ + status,
        ],
        workspace::loaded_lines(label, false, status, false) == seq![
            label + " load failed: "@ + status,
        ],
        workspace::loaded_lines(label, true, status, true) == seq![
            label + " loaded: "@ + status,
            "decoder/register metadata changes apply on the next Watch or Load & Run"@,
        ],
{
    assert(workspace::loaded_lines(label, true, status, true) =~= seq![
        label + " loaded: "@ + status,
        "decoder/register metadata changes apply on the next Watch or Load & Run"@,
    ]);
}

/// How a session is called, by what it does.
pub proof fn law_session_label(port: Seq<char>, baud: u32)
    ensures
        session::session_label(port, baud, true) == port + " @ "@ + text::dec(baud as nat) + " ("@
            + "load+exec"@ + ")"@,
        session::session_label(port, baud, false) == port + " @ "@ + text::dec(baud as nat) + " ("@
            + "watch"@ + ")"@,
{
}

/// What the demo reports: one sample of zeros but for gravity on the last axis, with the number and
/// the time of the report, and counts without a loss.
pub proof fn law_demo_report(kind: u32, index: u64, us: u64)
    requires
        index < u64::MAX,
    ensures
        ({
            let s = session::demo_report(kind, index, us);
            let m = s.meta->Some_0;
            &&& s.kind == kind && s.meta is Some
            &&& m.flags % 2 == 1 && m.frame_id == index % 0x1_0000_0000 && m.timestamp_us == us
            &&& s.args.len() == 2
            &&& s.args[0] matches ArgView::U32(n) && n == 12
            &&& s.args[1] matches ArgView::Bytes(b) && b.len() == 12 && b[11] == 8 && forall|k: int|
                0 <= k < 11 ==> b[k] == 0
            &&& s.fifo_len == Some(12u32) && s.data_len == Some(12nat)
            &&& s.sample_count == 1 && s.trailing_bytes == 0
            &&& s.health.total_reports == index + 1 && s.health.last_frame_id == Some(m.frame_id)
            &&& s.health.last_timestamp_us == Some(us)
            &&& s.health.dropped_frames == 0 && s.health.duplicate_frames == 0
            &&& s.health.out_of_order_frames == 0 && s.health.last_dt_us is None
        }),
{
}

/// How the time between two reports is shown.
pub proof fn law_shown_time(dt: i64)
    ensures
        connection::dt_text(Some(dt)) == text::dec_int(dt as int) + "us"@,
        connection::dt_text(None) == "-"@,
{
}

/// A fault that the compiler finds is told with the name of the source that it is in, and with help
/// where there is any.
pub proof fn law_told_compile_fault(list: Seq<ParsedSource>, f: CompileFault)
    ensures
        ({
            let s = restore::compile_fault(list, f);
            let name = if f.unit < list.len() {
                list[f.unit as int].name@
            } else {
                "<unknown source>"@
            };
            let told = "could not compile "@ + name + ": "@ + f.fault.message@ + " at bytes "@
                + text::dec(f.fault.start as nat) + ".."@ + text::dec(f.fault.end as nat);
            &&& f.help is None ==> s == told + Seq::<char>::empty()
            &&& f.help matches Some(h) ==> s == told + (" ("@ + h@ + ")"@)
        }),
{
}

/// Sources that were parsed keep their names, texts, directories and statements, in their order.
pub proof fn law_parsed_sources(list: Seq<ParsedRead>, i: int)
    requires
        0 <= i < list.len(),
        list[i].stmts is Ok,
    ensures
        restore::parsed(list).len() == list.len(),
        restore::parsed(list)[i].name == list[i].name,
        restore::parsed(list)[i].source == list[i].source,
        restore::parsed(list)[i].base_dir == list[i].base_dir,
        restore::parsed(list)[i].stmts == list[i].stmts->Ok_0,
{
}

/// A path may stand between quotation marks of either kind.
pub proof fn law_quoted_path(path: Seq<char>)
    requires
        path.len() > 0,
        path[0] != '"',
        path[0] != '\'',
        path.last() != '"',
        path.last() != '\'',
    ensures
        numbers::path_part(seq!['"'] + path + seq!['"']) == path,
        numbers::path_part(seq!['\''] + path + seq!['\'']) == path,
{
    let none = Seq::<char>::empty();
    let a = seq!['"'] + path + seq!['"'];
    let b = seq!['\''] + path + seq!['\''];
    text_laws::law_trimmed_middle(none, a, none);
    assert(none + a + none =~= a);
    text_laws::law_trimmed_middle(none, b, none);
    assert(none + b + none =~= b);
    scan_laws::law_stripped(seq!['"'], path, seq!['"'], '"');
    scan_laws::law_stripped(none, path, none, '\'');
    assert(none + path + none =~= path);
    scan_laws::law_stripped(none, b, none, '"');
    scan_laws::law_stripped(seq!['\''], path, seq!['\''], '\'');
}

/// How an outcome is told: by a line where it is a success, and as an error with its reason where it
/// is not.
pub proof fn law_told_outcome(what: Seq<char>, e: String)
    ensures
        session::outcome(what, Ok(())) == EventView::Log(what + " ok"@),
        session::outcome(what, Err(e)) == EventView::Error(what + " failed: "@ + e@),
{
}

} // verus!
