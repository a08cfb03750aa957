use rseq_tools::capture::{
    parse_capture, write_report_capture, CaptureError, ReportCaptureRecord,
};
use rseq_tools::capture_meta::{CaptureDecoderMeta, CaptureSidecar};
use rseq_tools::catalog::{AccessKind, RegisterCatalog};
use rseq_tools::charts::{show_history_intraday, Charts, PerSeries};
use rseq_tools::completion::{editor_faults, EditorFault};
use rseq_tools::decoder::Scale;
use rseq_tools::dispatch::{
    compiled_lines, dispatch, dispatch_executed, dispatch_observes, dispatched,
};
use rseq_tools::document::{FileWritten, SequenceDocument};
use rseq_tools::editor_source::{
    active_sequence_failure, active_sequence_source, apply_visual_to_text, sequence_base_dir,
    sequence_source_from_current_view, sequence_source_from_editor, sources_from_files,
    RseqSource, SequenceFile, SourceFile,
};
use rseq_tools::error::LinkError;
use rseq_tools::history::History;
use rseq_tools::input::parse_register_write_bytes;
use rseq_tools::line::{answer_events, handle_bus_ops, LineAnswer, LineSession, LineStep};
use rseq_tools::metadata::SourceFault;
use rseq_tools::modes::{MotionSeries, PanelTab, SequenceViewMode};
use rseq_tools::panel::RegisterPanel;
use rseq_tools::position::{Position, PositionRange};
use rseq_tools::processor::{ReportProcessor, SessionEvent};
use rseq_tools::program::{Stmt, Value};
use rseq_tools::report::{hex_bytes, BusOp, ReportArg, ReportKinds};
use rseq_tools::restore::{
    compile_rseq_sources, parsed_sources, watch_report_decoders, CompileFault, ParsedRead,
};
use rseq_tools::samples::ReportDecoderRegistry;
use rseq_tools::session::{CompiledProgram, SessionCommand};
use rseq_tools::transport::{ByteQueue, Transport};
use rseq_tools::wire::{ExecStatus, ReportMeta, SEG_KIND_IRQ_INT1, SEG_KIND_MAIN};
use rseq_tools::workbench::Workbench;
use rseq_tools::workspace::{open_chip_file, ChipChoice, FileRead, SourceState};

fn kinds() -> ReportKinds {
    ReportKinds {
        fifo_raw: 1,
        names: vec![(1, "FIFO_RAW".to_string())],
        values: vec![("FIFO_RAW".to_string(), 1)],
    }
}

fn meta(frame_id: u32) -> ReportMeta {
    ReportMeta { frame_id, timestamp_us: 10 * frame_id as u64, flags: 1 }
}

fn log(line: &str) -> SessionEvent {
    SessionEvent::Log(line.to_string())
}

fn error(line: &str) -> SessionEvent {
    SessionEvent::Error(line.to_string())
}

fn texts(list: &[&str]) -> Vec<String> {
    list.iter().map(|s| s.to_string()).collect()
}

// ---- a session over a line

fn program() -> CompiledProgram {
    CompiledProgram {
        main: vec![1, 2, 3],
        irq_bytecodes: vec![("int1".to_string(), vec![9]), ("int2".to_string(), vec![8])],
    }
}

#[test]
fn a_session_that_watches_loads_nothing() {
    let session = LineSession::new("/dev/tty0".to_string(), 9600, true, Some(program()));
    assert_eq!(session.program, None);
    let (events, clear) = session.start();
    assert_eq!(events, vec![log("opening serial /dev/tty0 @ 9600 (watch)")]);
    assert!(!clear);
    let (events, next) = session.opened(&Ok(()));
    assert_eq!(
        events,
        vec![
            log("watch mode: no LOAD/EXEC frames will be sent"),
            SessionEvent::Connected { label: "/dev/tty0 @ 9600 (watch)".to_string() },
        ]
    );
    assert_eq!(next, LineStep::Turn);
}

#[test]
fn a_session_loads_runs_and_connects() {
    let session = LineSession::new("/dev/tty0".to_string(), 9600, false, Some(program()));
    let (events, clear) = session.start();
    assert_eq!(events, vec![log("opening serial /dev/tty0 @ 9600 (load+exec)")]);
    assert!(clear);
    let (events, next) = session.opened(&Ok(()));
    assert_eq!(
        events.last(),
        Some(&log("loading rseq main=3 byte(s), irq_handlers=2"))
    );
    assert_eq!(
        next,
        LineStep::Load(vec![(SEG_KIND_MAIN, vec![1, 2, 3]), (SEG_KIND_IRQ_INT1, vec![9])])
    );
    assert_eq!(session.loaded(&Ok(())), (vec![log("LOAD ok")], LineStep::Exec));

    let mut processor = ReportProcessor::new(ReportDecoderRegistry::default(), kinds());
    let traces = vec![
        BusOp::Write { addr: 0x10, data: vec![0xaa] },
        BusOp::Report { meta: Some(meta(7)), kind: 1, args: vec![ReportArg::U32(0)] },
    ];
    let (events, next) = session.executed(&Ok(ExecStatus::Success), traces, &mut processor);
    assert_eq!(events.first(), Some(&SessionEvent::ExecStatus("Ok".to_string())));
    assert!(events.contains(&SessionEvent::Register {
        addr: 0x10,
        access: AccessKind::Write,
        data: vec![0xaa],
    }));
    assert_eq!(
        events.last(),
        Some(&SessionEvent::Connected { label: "/dev/tty0 @ 9600 (load+exec)".to_string() })
    );
    assert_eq!(next, LineStep::Turn);
    assert_eq!(processor.health().total_reports, 1);
}

#[test]
fn a_session_ends_where_a_step_fails() {
    let session = LineSession::new("p".to_string(), 1, false, Some(program()));
    let failed: Result<(), String> = Err("link io error".to_string());
    assert_eq!(
        session.opened(&failed),
        (vec![error("open serial failed: link io error")], LineStep::Finish)
    );
    assert_eq!(
        session.loaded(&failed),
        (vec![error("LOAD failed: link io error")], LineStep::Finish)
    );
    let mut processor = ReportProcessor::new(ReportDecoderRegistry::default(), kinds());
    let traces =
        vec![BusOp::Report { meta: Some(meta(7)), kind: 1, args: vec![ReportArg::U32(0)] }];
    let next = session.executed(&Err("late".to_string()), traces, &mut processor);
    assert_eq!(next, (vec![error("EXEC failed: late")], LineStep::Finish));
    assert_eq!(processor.health().total_reports, 0);
}

#[test]
fn a_session_goes_on_until_it_is_told_to_end() {
    let mut session = LineSession::new("p".to_string(), 1, true, None);
    assert_eq!(session.turn(false), (vec![], LineStep::TakeCommand));
    assert_eq!(session.turn(true), (vec![SessionEvent::Disconnected], LineStep::Finish));
    assert_eq!(session.command(None), LineStep::Observe);
    assert_eq!(
        session.command(Some(SessionCommand::Ping)),
        LineStep::Ask(SessionCommand::Ping)
    );
    assert_eq!(session.command(Some(SessionCommand::Shutdown)), LineStep::Observe);
    assert!(session.stopping);
    assert_eq!(session.turn(false), (vec![SessionEvent::Disconnected], LineStep::Finish));
}

#[test]
fn what_is_observed_is_told() {
    let session = LineSession::new("p".to_string(), 1, true, None);
    let mut processor = ReportProcessor::new(ReportDecoderRegistry::default(), kinds());
    assert_eq!(session.observed(Ok(None), &mut processor), (vec![], LineStep::Turn));
    assert_eq!(
        session.observed(Err("closed".to_string()), &mut processor),
        (vec![error("observe failed: closed")], LineStep::Pause)
    );
    let op = BusOp::Read { addr: 4, data: vec![5] };
    let (events, next) = session.observed(Ok(Some(op)), &mut processor);
    assert!(events.contains(&SessionEvent::Register {
        addr: 4,
        access: AccessKind::Read,
        data: vec![5],
    }));
    assert_eq!(next, LineStep::Turn);
}

#[test]
fn operations_are_handled_in_order() {
    let ops = vec![
        BusOp::Report { meta: Some(meta(1)), kind: 2, args: vec![] },
        BusOp::Report { meta: Some(meta(4)), kind: 2, args: vec![] },
    ];
    let mut one = ReportProcessor::new(ReportDecoderRegistry::default(), kinds());
    let mut all = one.clone();
    let events = handle_bus_ops(&mut all, ops.clone());
    let mut each = Vec::new();
    for op in ops {
        each.extend(one.handle_bus_op(op));
    }
    assert_eq!(events, each);
    assert_eq!(all.health(), one.health());
    assert_eq!(all.health().dropped_frames, 2);
}

#[test]
fn answers_are_told() {
    let done = LineAnswer::Outcome(Ok(()));
    let failed = LineAnswer::Outcome(Err("timeout".to_string()));
    assert_eq!(answer_events(&SessionCommand::Ping, &done), vec![log("ping ok")]);
    assert_eq!(
        answer_events(&SessionCommand::StopReports, &failed),
        vec![error("stop reports failed: timeout")]
    );
    assert_eq!(answer_events(&SessionCommand::ResetMcu, &done), vec![log("reset ok")]);
    let read = SessionCommand::ReadRegister { addr: 0x10, len: 2, label: "A".to_string() };
    assert_eq!(
        answer_events(&read, &LineAnswer::Read(Ok((0x10, vec![1, 2])))),
        vec![
            SessionEvent::Register { addr: 0x10, access: AccessKind::Read, data: vec![1, 2] },
            log("dump A @ 0x10 len=2: [01 02]"),
        ]
    );
    assert_eq!(
        answer_events(&read, &LineAnswer::Read(Err("nak".to_string()))),
        vec![error("dump A @ 0x10 len=2 failed: nak")]
    );
    let write =
        SessionCommand::WriteRegister { addr: 0x11, data: vec![3], label: "B".to_string() };
    assert_eq!(
        answer_events(&write, &LineAnswer::Write(Ok((0x11, 1)))),
        vec![
            SessionEvent::Register { addr: 0x11, access: AccessKind::Write, data: vec![3] },
            log("write B @ 0x11 len=1: [03]"),
        ]
    );
    assert_eq!(
        answer_events(&write, &LineAnswer::Write(Err("nak".to_string()))),
        vec![error("write B @ 0x11 data=[03] failed: nak")]
    );
    assert_eq!(answer_events(&read, &done), vec![]);
}

#[test]
fn a_borrowed_transport_is_a_transport() {
    fn send<T: Transport>(mut t: T, data: &[u8]) -> Result<(), LinkError> {
        t.write(data)
    }
    let mut queue = ByteQueue::new();
    assert_eq!(send(&mut queue, &[1, 2, 3]), Ok(()));
    let mut buf = [0u8; 8];
    assert_eq!(queue.read(&mut buf), Ok(3));
    assert_eq!(&buf[..3], &[1, 2, 3]);
}

// ---- captures

#[test]
fn a_written_capture_is_read_back() {
    let records = vec![
        ReportCaptureRecord { meta: None, kind: 3, args: vec![] },
        ReportCaptureRecord {
            meta: Some(meta(5)),
            kind: 1,
            args: vec![ReportArg::U32(6), ReportArg::Bytes(vec![1, 2, 3, 4, 5, 6])],
        },
    ];
    let bytes = write_report_capture(&records).unwrap();
    assert_eq!(parse_capture(&bytes).unwrap(), records);
    // A length that was only begun ends the capture.
    for extra in 1..4 {
        let mut longer = bytes.clone();
        longer.extend(vec![0u8; extra]);
        assert_eq!(parse_capture(&longer).unwrap(), records);
    }
    let mut cut = bytes.clone();
    cut.pop();
    assert_eq!(parse_capture(&cut), Err(CaptureError::ShortRecord));
    assert_eq!(parse_capture(&bytes[..3]), Err(CaptureError::ShortHeader));
}

#[test]
fn a_capture_holds_no_record_with_too_many_arguments() {
    let record =
        ReportCaptureRecord { meta: None, kind: 3, args: vec![ReportArg::U32(0); 256] };
    assert!(write_report_capture(&[record]).is_err());
}

fn workbench() -> Workbench {
    Workbench::new(RegisterPanel::new(RegisterCatalog::default()))
}

fn sidecar(report_decoders: Vec<CaptureDecoderMeta>) -> CaptureSidecar {
    CaptureSidecar {
        version: 1,
        format: "rseq-report-capture-bin-v1".to_string(),
        rseq_files: texts(&["a.rseq", "b.rseq"]),
        chip_files: texts(&["c.yaml"]),
        skip_samples: 12,
        report_decoders,
    }
}

fn described() -> CaptureDecoderMeta {
    CaptureDecoderMeta {
        kind: 1,
        kind_label: "FIFO_RAW".to_string(),
        decoder: "i16_le".to_string(),
        fields: texts(&["x", "y", "z"]),
        gyro_fields: texts(&[]),
        accel_fields: texts(&["x", "y", "z"]),
        temp_field: None,
        accel_fs_g: Scale::Whole(16),
        gyro_fs_dps: Scale::Whole(2000),
        temp_lsb_per_c: Scale::Whole(1),
        temp_offset_c: Scale::Whole(0),
        output: "physical_f32".to_string(),
    }
}

#[test]
fn what_was_saved_beside_a_capture_is_taken_over() {
    let mut bench = workbench();
    let restored = bench.apply_capture_sidecar(&sidecar(vec![described()])).unwrap();
    assert_eq!(restored.rseq_files, "a.rseq; b.rseq");
    assert_eq!(restored.chip_files, "c.yaml");
    assert_eq!(restored.skip_samples, "12");
    assert!(restored.decoders.unwrap().get(1).is_some());
    assert_eq!(bench.sample_skip_remaining, 12);
    let none = bench.apply_capture_sidecar(&sidecar(vec![])).unwrap();
    assert_eq!(none.decoders, None);
}

#[test]
fn a_saved_decoder_with_an_unknown_output_is_refused() {
    let mut bench = workbench();
    let mut meta = described();
    meta.output = "f64".to_string();
    assert_eq!(
        bench.apply_capture_sidecar(&sidecar(vec![meta])),
        Err("capture metadata decoder output must be physical_f32 or raw_i16, got f64".to_string())
    );
    assert_eq!(bench.sample_skip_remaining, 0);
}

#[test]
fn a_capture_is_replayed() {
    let mut bench = workbench();
    bench.connected = true;
    let mut beside = sidecar(vec![described()]);
    beside.skip_samples = 1;
    let restored = bench.open_replay(Some(&beside), "run.bin").unwrap();
    assert!(!bench.connected);
    assert_eq!(bench.session_mode, "replay");
    assert_eq!(bench.connection_label, "replay run.bin");

    // Two samples of three values, the first of which is skipped.
    let report = |frame_id, bytes: &[u8]| ReportCaptureRecord {
        meta: Some(meta(frame_id)),
        kind: 1,
        args: vec![ReportArg::U32(bytes.len() as u32), ReportArg::Bytes(bytes.to_vec())],
    };
    let records = vec![report(1, &[1, 0, 2, 0, 3, 0]), report(2, &[4, 0, 5, 0, 6, 0])];
    let mut processor = ReportProcessor::new(restored.decoders.unwrap(), kinds());
    bench.replay_capture(&mut processor, &records, &[0, 0], "/x/run.bin");
    assert_eq!(bench.capture_records, records);
    assert_eq!(processor.health().total_reports, 2);
    assert_eq!(bench.health.total_reports, 2);
    assert_eq!(
        bench.logs.back().map(|s| s.as_str()),
        Some("replayed 2 report(s) from /x/run.bin")
    );
}

#[test]
fn a_replay_without_usable_metadata_goes_on() {
    let mut bench = workbench();
    assert_eq!(bench.open_replay(None, "a.bin"), None);
    assert!(bench.logs.is_empty());
    let mut bad = described();
    bad.output = "f64".to_string();
    assert_eq!(bench.open_replay(Some(&sidecar(vec![bad])), "b.bin"), None);
    assert_eq!(bench.logs.len(), 1);
    assert_eq!(bench.connection_label, "replay b.bin");
}

#[test]
fn commands_that_go_nowhere_are_logged() {
    let mut bench = workbench();
    bench.note_command(true, true);
    assert!(bench.logs.is_empty());
    bench.note_command(false, false);
    bench.note_command(true, false);
    assert_eq!(
        bench.logs.iter().cloned().collect::<Vec<_>>(),
        texts(&["no active session; connect first", "session command channel is closed"])
    );
}

#[test]
fn a_source_that_cannot_be_parsed_comes_before_a_bad_declaration() {
    let bad = ParsedRead {
        name: "bad.rseq".to_string(),
        source: String::new(),
        base_dir: None,
        stmts: Ok(vec![Stmt::ReportFormat {
            kind: Value::Array(vec![]),
            decoder: "i16_le".to_string(),
            options: vec![],
            shown: vec![],
        }]),
    };
    let unparsed = ParsedRead {
        name: "broken.rseq".to_string(),
        source: String::new(),
        base_dir: None,
        stmts: Err(SourceFault { message: "expected ;".to_string(), start: 3, end: 4 }),
    };
    assert_eq!(
        watch_report_decoders(&kinds().values, vec![bad, unparsed]),
        Err("could not parse report metadata in broken.rseq: expected ; at bytes 3..4"
            .to_string())
    );
    let none = watch_report_decoders(&kinds().values, vec![]).unwrap();
    assert!(none.is_empty());
}

#[test]
fn what_cannot_be_compiled_is_told() {
    let read = |name: &str, stmts| ParsedRead {
        name: name.to_string(),
        source: format!("text of {name}"),
        base_dir: Some("dir".to_string()),
        stmts,
    };
    let fault = || SourceFault { message: "expected ;".to_string(), start: 3, end: 4 };
    assert_eq!(
        parsed_sources(vec![read("a", Ok(vec![])), read("b", Err(fault()))], false),
        Err("could not parse b: expected ; at bytes 3..4".to_string())
    );
    let sources = parsed_sources(vec![read("a", Ok(vec![]))], false).unwrap();
    assert_eq!(sources[0].source, "text of a");
    assert_eq!(sources[0].base_dir.as_deref(), Some("dir"));
    assert_eq!(compile_rseq_sources(&sources, Ok(program())), Ok(program()));
    let help = Some("see a".to_string());
    assert_eq!(
        compile_rseq_sources(&sources, Err(CompileFault { unit: 0, fault: fault(), help })),
        Err("could not compile a: expected ; at bytes 3..4 (see a)".to_string())
    );
    assert_eq!(
        compile_rseq_sources(&sources, Err(CompileFault { unit: 1, fault: fault(), help: None })),
        Err("could not compile <unknown source>: expected ; at bytes 3..4".to_string())
    );
}

#[test]
fn a_program_is_sent_to_a_device() {
    assert_eq!(
        compiled_lines(&[0x0a, 0xff]),
        texts(&[
            "\u{2713} Compiled successfully (2 bytes)",
            "Bytecode (vec): [0a, ff]",
            "Bytecode (hex): 0a ff",
        ])
    );
    let sent = dispatch("tcp x", &program());
    assert_eq!(sent.segments, vec![(SEG_KIND_MAIN, vec![1, 2, 3]), (SEG_KIND_IRQ_INT1, vec![9])]);
    assert_eq!(
        sent.lines,
        texts(&["\nDispatching to MCU over tcp x...", "  + INT1 interrupt handler (1 bytes)"])
    );
    let plain = CompiledProgram { main: vec![1], irq_bytecodes: vec![] };
    assert_eq!(dispatch("y", &plain).lines, texts(&["\nDispatching to MCU over y..."]));
    assert_eq!(dispatched(&plain, &Ok(())), Ok("\u{2713} Loaded 1 byte(s)".to_string()));
    assert_eq!(
        dispatched(&plain, &Err("nak".to_string())),
        Err("LOAD failed: nak".to_string())
    );
    let done = dispatch_executed(&kinds(), &Ok((ExecStatus::BusError, vec![]))).unwrap();
    assert_eq!(done, texts(&["Exec status: BusError", "No bus operations recorded"]));
    assert_eq!(
        dispatch_executed(&kinds(), &Err("late".to_string())),
        Err("EXEC failed: late".to_string())
    );
    assert_eq!(dispatch_observes(&plain), None);
    assert_eq!(
        dispatch_observes(&program()),
        Some("\nObserving report events. Press Ctrl-C to stop.")
    );
}

// ---- the sequence that is worked on

fn file(path: &str, name: &str, text: Result<&str, &str>) -> FileRead {
    FileRead {
        path: path.to_string(),
        name: name.to_string(),
        text: text.map(|s| s.to_string()).map_err(|s| s.to_string()),
    }
}

#[test]
fn a_file_is_opened_changed_and_saved() {
    let mut d = SequenceDocument::from_files(&[]);
    assert_eq!(d.path, None);
    assert_eq!(d.editor.status, "new untitled sequence");

    d.open_sequence_file();
    assert_eq!(d.editor.status, "opening rseq...");
    assert!(!d.finish_open(None));
    assert_eq!(d.editor.status, "open cancelled");
    assert!(!d.finish_open(Some(file("/w/a.rseq", "a.rseq", Err("gone")))));
    assert_eq!(d.editor.status, "failed to read /w/a.rseq: gone");
    assert_eq!(d.path, None);
    assert!(d.finish_open(Some(file("/w/a.rseq", "a.rseq", Ok("read!(0x10, 2);\n")))));
    assert_eq!(d.editor.status, "opened a.rseq");
    assert_eq!(d.path.as_deref(), Some("/w/a.rseq"));
    assert_eq!(d.files, texts(&["/w/a.rseq"]));
    assert_eq!(d.source, "read!(0x10, 2);\n");
    assert_eq!(d.editor.sequences.len(), 1);
    assert_eq!(d.editor.sequences[0].steps.len(), 1);

    d.edit_text("x".to_string());
    assert!(d.editor.dirty);
    assert_eq!(d.editor.status, "modified");
    d.edit_block();
    assert_eq!(d.editor.status, "visual sequence modified");

    assert_eq!(d.save_sequence_file("a.rseq").as_deref(), Some("/w/a.rseq"));
    assert_eq!(d.editor.status, "saving a.rseq...");
    let written = |written| FileWritten {
        path: "/w/b.rseq".to_string(),
        name: "b.rseq".to_string(),
        written,
    };
    assert!(!d.finish_save(Some(written(Err("denied".to_string())))));
    assert_eq!(d.editor.status, "failed to save /w/b.rseq: denied");
    assert!(d.editor.dirty);
    assert!(!d.finish_save(None));
    assert_eq!(d.editor.status, "save cancelled");
    assert!(d.finish_save(Some(written(Ok(())))));
    assert_eq!(d.editor.status, "saved b.rseq");
    assert!(!d.editor.dirty);
    assert_eq!(d.path.as_deref(), Some("/w/b.rseq"));

    let mut program = Some(CompiledProgram { main: vec![1], irq_bytecodes: vec![] });
    d.new_sequence(&mut program);
    assert_eq!(program, None);
    assert_eq!(d.path, None);
    assert!(d.files.is_empty());
    assert_eq!(d.save_sequence_file(""), None);
    assert_eq!(d.editor.status, "choosing save path...");
}

#[test]
fn the_files_at_the_start_are_named() {
    let one = SequenceDocument::from_files(&[file("/w/a", "a", Ok("x"))]);
    assert_eq!(one.path.as_deref(), Some("/w/a"));
    let two = SequenceDocument::from_files(&[
        file("/w/a", "a", Ok("x")),
        file("/w/b", "b", Ok("y")),
    ]);
    assert_eq!(two.path, None);
    assert_eq!(two.files, texts(&["/w/a", "/w/b"]));
    assert_eq!(two.editor.status, "opened 2 rseq files as combined source");
}

#[test]
fn a_chosen_chip_loads_what_is_worked_on() {
    let state = |has_source, has_files| SourceState {
        tab: PanelTab::Motion,
        dirty: false,
        has_path: false,
        has_files,
        has_source,
    };
    assert_eq!(open_chip_file(false, state(true, true)), ChipChoice::Cancelled);
    assert_eq!(open_chip_file(true, state(true, true)), ChipChoice::FromEditor);
    assert_eq!(
        open_chip_file(true, state(false, true)),
        ChipChoice::FromFiles { program: true }
    );
    assert_eq!(
        open_chip_file(true, state(false, false)),
        ChipChoice::FromFiles { program: false }
    );
}

// ---- sources

#[test]
fn paths_in_a_sequence_start_at_its_file() {
    let file = SequenceFile { path: "/w/a.rseq", parent: Some("/w") };
    let bare = SequenceFile { path: "a.rseq", parent: None };
    assert_eq!(sequence_base_dir(Some(file), Some("/c")), Some("/w".to_string()));
    assert_eq!(sequence_base_dir(Some(bare), Some("/c")), Some("/c".to_string()));
    assert_eq!(sequence_base_dir(None, Some("/c")), Some("/c".to_string()));
    assert_eq!(sequence_base_dir(None, None), None);
}

#[test]
fn what_is_shown_is_the_source() {
    let file = SequenceFile { path: "/w/a.rseq", parent: Some("/w") };
    let from_text = RseqSource::new("/w/a.rseq".to_string(), "t".to_string(), Some("/w".to_string()));
    assert_eq!(sequence_source_from_editor("t".to_string(), Some(file), None), from_text);
    assert_eq!(
        sequence_source_from_editor("t".to_string(), None, None),
        RseqSource::new("untitled.rseq".to_string(), "t".to_string(), None)
    );
    let made = Ok("made".to_string());
    let wrong = Err(texts(&["no steps"]));
    let text = || "t".to_string();
    let view = |mode, blocks: &Result<String, Vec<String>>| {
        sequence_source_from_current_view(mode, text(), blocks, Some(file), None)
    };
    assert_eq!(view(SequenceViewMode::Text, &wrong), Ok(from_text));
    assert_eq!(
        view(SequenceViewMode::Blocks, &made),
        Ok(RseqSource::new(
            "visual-sequences.rseq".to_string(),
            "made".to_string(),
            Some("/w".to_string())
        ))
    );
    assert_eq!(view(SequenceViewMode::Blocks, &wrong), Err(texts(&["no steps"])));
}

#[test]
fn the_active_sequence_is_a_source_or_tells_why_not() {
    assert_eq!(
        active_sequence_source(Ok("s".to_string()), None, Some("/c")),
        Ok(RseqSource::new(
            "visual-active-sequence.rseq".to_string(),
            "s".to_string(),
            Some("/c".to_string())
        ))
    );
    assert_eq!(
        active_sequence_source(Err(texts(&["a", "b"])), None, None),
        Err(texts(&["a", "b"]))
    );
    assert_eq!(
        active_sequence_failure(&texts(&["a", "b"])),
        ("a\nb".to_string(), "active visual sequence failed: a\nb".to_string())
    );
    assert_eq!(
        apply_visual_to_text(Ok("s".to_string())),
        (Some("s".to_string()), "visual sequence applied to text".to_string())
    );
    assert_eq!(apply_visual_to_text(Err(texts(&["a", "b"]))), (None, "a\nb".to_string()));
}

#[test]
fn the_first_file_that_cannot_be_read_is_told() {
    let read = |path: &str, text: Result<&str, &str>| SourceFile {
        path: path.to_string(),
        parent: Some("/w".to_string()),
        text: text.map(|s| s.to_string()).map_err(|s| s.to_string()),
    };
    assert_eq!(
        sources_from_files(vec![read("a", Ok("1")), read("b", Err("gone")), read("c", Err("no"))]),
        Err("failed to read b: gone".to_string())
    );
    assert_eq!(
        sources_from_files(vec![read("a", Ok("1"))]),
        Ok(vec![RseqSource::new("a".to_string(), "1".to_string(), Some("/w".to_string()))])
    );
}

#[test]
fn faults_are_marked_in_characters() {
    let at = |character| Position { line: 0, character };
    // The first character takes two units of sixteen bits.
    let fault = EditorFault {
        range: PositionRange { start: at(2), end: at(3) },
        source: Some("rseq".to_string()),
        message: "expected ;".to_string(),
    };
    let marked = editor_faults("\u{1f600}ab", vec![fault]);
    assert_eq!(
        marked,
        vec![EditorFault {
            range: PositionRange { start: at(1), end: at(2) },
            source: Some("rseq".to_string()),
            message: "expected ;".to_string(),
        }]
    );
}

// ---- charts

#[test]
fn ranges_are_chosen_for_one_chart() {
    let mut charts: Charts<i32, u8> = Charts::new();
    assert_eq!(charts.chart_display_range(MotionSeries::Acc, 7), 7);
    assert_eq!(charts.chart_display_x_range(MotionSeries::Acc, 8), 8);
    charts.set_chart_ranges(MotionSeries::Acc, 1, 2);
    assert_eq!(charts.chart_display_range(MotionSeries::Acc, 7), 1);
    assert_eq!(charts.chart_display_x_range(MotionSeries::Acc, 8), 2);
    assert_eq!(charts.chart_display_range(MotionSeries::Gyro, 7), 7);
    charts.reset_chart_zoom(MotionSeries::Acc);
    assert_eq!(charts.chart_display_range(MotionSeries::Acc, 7), 7);
}

#[test]
fn what_is_set_for_one_series_leaves_the_other() {
    let mut all = PerSeries { acc: Some(1), gyro: Some(2) };
    all.set(MotionSeries::Gyro, None);
    assert_eq!(all.get(MotionSeries::Acc), Some(1));
    assert_eq!(all.get(MotionSeries::Gyro), None);
}

#[test]
fn a_chart_is_dragged_while_it_is_held() {
    let mut charts: Charts<i32, i32> = Charts::new();
    charts.start_chart_drag(MotionSeries::Acc, false);
    assert_eq!(charts.drag, None);
    charts.start_chart_drag(MotionSeries::Acc, true);
    assert!(charts.update_chart_drag(MotionSeries::Acc, true));
    assert!(!charts.update_chart_drag(MotionSeries::Gyro, true));
    assert!(!charts.end_chart_drag(MotionSeries::Gyro));
    assert!(!charts.update_chart_drag(MotionSeries::Acc, false));
    assert_eq!(charts.drag, None);
    charts.start_chart_drag(MotionSeries::Gyro, true);
    charts.reset_chart_zoom(MotionSeries::Gyro);
    assert_eq!(charts.drag, None);
}

#[test]
fn the_samples_of_a_bar_are_shown() {
    let mut history = History::new();
    history.push_history_sample([1, 2, 3], [4, 5, 6], Some(0), 0);
    let (view, samples) = show_history_intraday(&history, MotionSeries::Gyro, 0).unwrap();
    assert_eq!(view.bar_index, 0);
    assert_eq!(view.bar_count, 1);
    assert_eq!(view.samples, 1);
    assert_eq!(samples.len(), 1);
    assert!(show_history_intraday(&history, MotionSeries::Gyro, 1).is_none());
}

#[test]
fn a_pin_has_one_handler() {
    let mut program = CompiledProgram {
        main: vec![1],
        irq_bytecodes: vec![("int1".to_string(), vec![9]), ("int2".to_string(), vec![8])],
    };
    assert!(program.has_one_handler_per_pin());
    program.irq_bytecodes.push(("int1".to_string(), vec![7]));
    assert!(!program.has_one_handler_per_pin());
}

#[test]
fn answers_are_told_after_what_was_traced() {
    let session = LineSession::new("/dev/a".to_string(), 9600, true, None);
    let mut processor = ReportProcessor::new(ReportDecoderRegistry::default(), kinds());
    let (events, step) = session.answered(
        &SessionCommand::Ping,
        &LineAnswer::Outcome(Ok(())),
        vec![BusOp::Delay { us: 10 }],
        &mut processor,
    );
    assert_eq!(step, LineStep::TakeCommand);
    assert_eq!(events.len(), 2);
    assert!(matches!(&events[0], SessionEvent::Log(line) if line == "delay 10us"));
    assert!(matches!(&events[1], SessionEvent::Log(line) if line == "ping ok"));
    assert_eq!(session.paused(), LineStep::Turn);
}

#[test]
fn forgetting_samples_ends_drags_and_shows_the_bars() {
    let mut history = History::new();
    history.push_history_sample([1, 2, 3], [4, 5, 6], Some(0), 0);
    let mut charts: Charts<i32, i32> = Charts::new();
    charts.set_chart_ranges(MotionSeries::Acc, 1, 2);
    assert_eq!(charts.show_intraday(&history, MotionSeries::Acc, 3), None);
    assert_eq!(charts.intraday, None);
    assert_eq!(charts.show_intraday(&history, MotionSeries::Acc, 0), Some(vec![[1, 2, 3]]));
    assert_eq!(charts.intraday.unwrap().samples, 1);
    charts.hide_history_intraday();
    assert_eq!(charts.intraday, None);
    charts.show_intraday(&history, MotionSeries::Gyro, 0);
    charts.start_chart_drag(MotionSeries::Acc, true);
    charts.forget_samples();
    assert_eq!(charts.drag, None);
    assert_eq!(charts.intraday, None);
    assert_eq!(charts.chart_display_range(MotionSeries::Acc, 7), 1);
}

// ---- what is typed in

#[test]
fn shown_bytes_are_read_back() {
    for bytes in [vec![0u8], vec![0x0f, 0xf0, 0x00], (0..=255).collect::<Vec<u8>>()] {
        assert_eq!(parse_register_write_bytes(&hex_bytes(&bytes)), Ok(bytes));
    }
}
