use rseq_tools::capture_meta::{
    capture_save_start, capture_saved_text, capture_sidecar, capture_sidecar_path,
    refuse_capture_path, report_decoder_registry_from_sidecar, CaptureDecoderMeta, CaptureSidecar,
};
use rseq_tools::cli::{
    choose_mode, choose_save_sink, control_text, list_bus_ops, list_sources, list_vector,
    plan_control, plan_injection, refuse_sources, watch_ignores_control_options, CliFlags,
    CliMode, ControlStep, Endpoint, IrqVector, Refusal, SaveKind, VectorArm,
};
use rseq_tools::connection::{
    baud_menu, choose_link_mode, connection_bar, endpoint_text, initial_link_mode, initial_serial_port,
    port_menu,
    ports_label, prepare_connection_config, refresh_serial_ports, resolve_serial_config,
    select_serial_baud, select_serial_port, starts_at_once, stream_summary, LinkChange,
    LinkOptions,
};
use rseq_tools::decoder::Scale;
use rseq_tools::error::LinkError;
use rseq_tools::health::ReportHealth;
use rseq_tools::modes::{
    common_serial_bauds, LinkMode, MotionSeries, PanelTab, RegisterViewMode, SequenceViewMode,
};
use rseq_tools::ports::{
    offered_port, serial_port_detail, serial_port_info, serial_port_label, PortType, UsbPort,
};
use rseq_tools::processor::SessionEvent;
use rseq_tools::program::{ParsedSource, Stmt};
use rseq_tools::report::{BusOp, ReportArg, ReportKinds};
use rseq_tools::samples::ReportDecoderRegistry;
use rseq_tools::session::{
    demo_summary, exec_event, load_plan, outcome_event, read_events, serial_label, write_events,
    CompiledProgram, SessionConfig, DEFAULT_BAUD,
};
use rseq_tools::shown::{
    capture_summary, history_header, motion_summary, newest_lines, sequence_sidebar, status_bar,
    visual_step_row, Intraday,
};
use rseq_tools::visual::{VisualStepBlueprint, VisualStepKind};
use rseq_tools::wire::{ExecStatus, SEG_KIND_IRQ_INT1, SEG_KIND_MAIN};
use rseq_tools::workspace::{
    build_failure, capture_default_file_name, chip_paths_label, current_sequence_text,
    current_view_has_source, default_rseq_source, default_watch_mode, has_startup_source,
    initial_sequence_source, load_before_program, load_with_program, loaded_messages, plan_start,
    program_text, refuse_run, refuse_start, sequence_default_file_name, sequence_title,
    use_sequence_editor_source, FileDialog, FileRead, RunRefusal, SourceKind, SourceState,
    StartRequest, ToldIn,
};
use std::collections::VecDeque;

fn names(list: &[&str]) -> Vec<String> {
    list.iter().map(|name| name.to_string()).collect()
}

fn kinds() -> ReportKinds {
    ReportKinds {
        fifo_raw: 1,
        names: vec![(1, "FIFO_RAW".to_string())],
        values: vec![("FIFO_RAW".to_string(), 1)],
    }
}

// ---- the console

fn flags() -> CliFlags {
    CliFlags {
        replay: false,
        stop: false,
        reset_mcu: false,
        ping: false,
        watch: false,
        decompile: false,
        execute: false,
        has_fire: false,
        has_hex: false,
        has_output: false,
        has_manifest: false,
        has_run: false,
        files: 0,
        has_endpoint: false,
    }
}

fn refused(message: &str, code: i32) -> Result<CliMode, Refusal> {
    Err(Refusal { message: message.to_string(), code })
}

#[test]
fn modes_of_the_console() {
    assert_eq!(choose_mode(flags()), Ok(CliMode::Compile));
    assert_eq!(choose_mode(CliFlags { replay: true, ..flags() }), Ok(CliMode::Replay));
    let control = CliFlags { ping: true, ..flags() };
    assert_eq!(
        choose_mode(control),
        refused("--stop/--reset-mcu/--ping require --serial <port> or --tcp <host:port>", 2)
    );
    assert_eq!(choose_mode(CliFlags { has_endpoint: true, ..control }), Ok(CliMode::Control));
    let watch = CliFlags { watch: true, ..flags() };
    assert_eq!(
        choose_mode(watch),
        refused("--watch requires --serial <port> or --tcp <host:port>", 2)
    );
    assert_eq!(choose_mode(CliFlags { has_endpoint: true, ..watch }), Ok(CliMode::Watch));
    let decompile = CliFlags { decompile: true, ..flags() };
    assert_eq!(
        choose_mode(CliFlags { has_manifest: true, ..decompile }),
        refused("--decompile cannot be combined with --manifest or --run", 1)
    );
    assert_eq!(
        choose_mode(decompile),
        refused(
            "Please provide either one bytecode file with --file or a hex string with --hex",
            1
        )
    );
    assert_eq!(choose_mode(CliFlags { files: 1, ..decompile }), Ok(CliMode::Decompile));
    assert!(!watch_ignores_control_options(flags()));
    assert!(watch_ignores_control_options(CliFlags { execute: true, ..flags() }));
    assert_eq!(
        refuse_sources(CliFlags { has_manifest: true, files: 1, ..flags() }),
        Some("--manifest cannot be combined with --file")
    );
    assert_eq!(
        refuse_sources(CliFlags { has_run: true, ..flags() }),
        Some("--run requires --manifest")
    );
    assert_eq!(refuse_sources(flags()), None);
}

#[test]
fn end_points_and_control_steps() {
    let serial = Endpoint::from_options(Some("/dev/ttyUSB0"), None).unwrap();
    assert_eq!(serial.label(115_200), "serial /dev/ttyUSB0 @ 115200 baud");
    let tcp = Endpoint::from_options(None, Some("host:1")).unwrap();
    assert_eq!(tcp.label(1), "tcp host:1");
    assert_eq!(Endpoint::from_options(None, None), None);
    let steps = plan_control(true, true, true);
    assert_eq!(steps.len(), 3);
    assert!(steps.contains(&ControlStep::Reset));
    assert_eq!(control_text(ControlStep::Ping, &Ok(())), "✓ PONG");
    assert_eq!(control_text(ControlStep::Stop, &Err("timeout".to_string())), "STOP failed: timeout");
    assert_eq!(LinkError::Nak(2).message(), LinkError::Nak(2).message());
    assert_ne!(LinkError::Timeout.message(), LinkError::Io.message());
}

#[test]
fn reports_are_saved_by_extension() {
    assert_eq!(choose_save_sink(None), Ok(SaveKind::Nothing));
    assert_eq!(choose_save_sink(Some(("a.csv", Some("csv")))), Ok(SaveKind::Csv));
    assert_eq!(choose_save_sink(Some(("a.bin", Some("bin")))), Ok(SaveKind::Bin));
    assert_eq!(
        choose_save_sink(Some(("a.txt", Some("txt")))),
        Err("--save a.txt has unsupported extension '.txt', expected .csv or .bin".to_string())
    );
    assert_eq!(
        choose_save_sink(Some(("a", None))),
        Err("--save a must end with .csv or .bin".to_string())
    );
}

#[test]
fn sources_vectors_and_operations_are_listed() {
    let source = ParsedSource {
        name: "a.rseq".to_string(),
        source: String::new(),
        base_dir: None,
        stmts: vec![Stmt::Chip { path: "c.yaml".to_string() }],
    };
    let other = ParsedSource {
        name: "b.rseq".to_string(),
        source: String::new(),
        base_dir: None,
        stmts: vec![],
    };
    let lines = list_sources(&[source, other]);
    assert!(lines.contains(&"  Source: b.rseq".to_string()));
    assert!(lines.contains(&"  Step 1:".to_string()));
    let vector = IrqVector {
        pin: "int1".to_string(),
        snapshot_addr: 0x54,
        snapshot_len: 2,
        read_clear: true,
        arms: vec![VectorArm { event: "fifo".to_string(), mask: 0x40, statements: 3 }],
        bytecode: Some(12),
    };
    let lines = list_vector(&vector);
    assert!(lines[0].starts_with("  irq!(int1) — read 2 byte(s) @ 0x"));
    assert!(lines[0].ends_with(" (read-clears):"));
    assert_eq!(lines[1], "    on(fifo) when status & 0x40:");
    assert_eq!(lines[2], "        inline body: 3 statement(s)");
    assert_eq!(lines[3], "    Segment bytecode: 12 bytes");
    let injected = plan_injection("int1=0x1234", &[vector.clone()]).unwrap();
    assert_eq!((injected.addr, injected.bytes), (0x54, vec![0x34, 0x12]));
    assert!(injected.message.starts_with("Injected irq!(int1) snapshot 0x00001234 at 0x"));
    assert_eq!(
        plan_injection("int9=1", &[vector.clone()]),
        Err("--fire references unknown irq pin 'int9'".to_string())
    );
    let wide = IrqVector { pin: "int2".to_string(), snapshot_len: 9, ..vector.clone() };
    assert!(plan_injection("int1=1", &[wide, vector]).is_ok());
    assert_eq!(list_bus_ops(&kinds(), &[]), names(&["No bus operations recorded"]));
    let lines = list_bus_ops(
        &kinds(),
        &[
            BusOp::Write { addr: 0x10, data: vec![0xaa] },
            BusOp::Delay { us: 5 },
            BusOp::Log { msg: "say \"hi\"".to_string() },
            BusOp::BusSelect { bus: "i2c".to_string(), arg: 0 },
            BusOp::Report { meta: None, kind: 1, args: vec![ReportArg::U32(1)] },
        ],
    );
    assert_eq!(lines[1], "  Step 1: Write [0xaa] → 0x00000010");
    assert_eq!(lines[2], "  Step 2: Delay 5 μs");
    assert_eq!(lines[3], "  Step 3: print \"say \\\"hi\\\"\"");
    assert_eq!(lines[4], "  Step 4: Select i2c bus");
    assert!(lines[5].starts_with("  Step 5: Report FIFO_RAW args ["));
}

// ---- links

#[test]
fn serial_links_need_a_port_and_a_speed() {
    let one = names(&["/dev/a"]);
    let two = names(&["/dev/a", "/dev/b"]);
    assert_eq!(resolve_serial_config("", &one, "9600"), Ok(("/dev/a".to_string(), 9600)));
    assert_eq!(resolve_serial_config(" /dev/x ", &two, "9600"), Ok(("/dev/x".to_string(), 9600)));
    assert_eq!(resolve_serial_config("", &[], "9600"), Err("no serial ports found".to_string()));
    assert_eq!(
        resolve_serial_config("", &two, "9600"),
        Err("select a serial port first: /dev/a, /dev/b".to_string())
    );
    assert!(resolve_serial_config("", &one, "0").is_err());
    let mut options = LinkOptions { demo: true, serial: None, baud: 1, watch: true };
    assert_eq!(
        prepare_connection_config(&mut options, LinkMode::Serial, "", &one, "9600"),
        Ok(())
    );
    assert_eq!(
        options,
        LinkOptions { demo: false, serial: Some("/dev/a".to_string()), baud: 9600, watch: true }
    );
    let refused = prepare_connection_config(&mut options, LinkMode::Tcp, "", &one, "9600");
    assert!(refused.unwrap_err().ends_with(" transport is not implemented yet"));
    assert_eq!(
        prepare_connection_config(&mut options, LinkMode::Demo, "", &[], ""),
        Ok(())
    );
    assert!(options.demo);
}

#[test]
fn choosing_files_is_told() {
    assert_eq!(FileDialog::OpenChip.prompt(), Some("Open chip YAML"));
    assert_eq!(FileDialog::SaveCapture.prompt(), None);
    assert_eq!(FileDialog::OpenChip.choosing(0), "choosing chip metadata...");
    assert_eq!(
        FileDialog::SaveCapture.choosing(3),
        "choosing capture save path for 3 report(s)"
    );
    assert_eq!(FileDialog::OpenChip.cancelled(), "chip open cancelled");
    assert_eq!(FileDialog::ReplayCapture.cancelled(), "capture replay cancelled");
    assert_eq!(FileDialog::OpenChip.told_in(), ToldIn::CompileStatus);
    assert_eq!(FileDialog::SaveSequence.told_in(), ToldIn::SequenceStatus);
    assert_eq!(FileDialog::SaveCapture.told_in(), ToldIn::Log);
}

#[test]
fn sessions_start_at_once_where_they_can() {
    assert_eq!(initial_link_mode(true), LinkMode::Demo);
    assert_eq!(initial_link_mode(false), LinkMode::Serial);
    let mut options = LinkOptions { demo: false, serial: None, baud: 9600, watch: false };
    assert!(!starts_at_once(&options));
    options.serial = Some("/dev/a".to_string());
    assert!(starts_at_once(&options));
    options.serial = None;
    options.demo = true;
    assert!(starts_at_once(&options));
}

#[test]
fn ports_are_found_and_chosen() {
    let one = names(&["/dev/a"]);
    assert_eq!(initial_serial_port(None, &one), "/dev/a");
    assert_eq!(initial_serial_port(Some("/dev/x"), &one), "/dev/x");
    let scan = refresh_serial_ports(&one, "");
    assert_eq!(scan.fill.as_deref(), Some("/dev/a"));
    assert_eq!(scan.message, "found 1 serial port: /dev/a");
    assert_eq!(refresh_serial_ports(&[], "").message, "no serial ports found");
    assert_eq!(
        refresh_serial_ports(&names(&["/dev/a", "/dev/b"]), "").message,
        "found 2 serial ports; choose one from Ports"
    );
    assert_eq!(select_serial_port("/dev/a").as_deref(), Some("selected serial port /dev/a"));
    assert_eq!(select_serial_port(""), None);
    assert_eq!(select_serial_baud(9600), "selected serial baud 9600");
    assert_eq!(ports_label(0), "Ports");
    assert_eq!(ports_label(2), "Ports (2)");
    assert!(matches!(
        choose_link_mode(true, LinkMode::Demo),
        LinkChange::Refused(s) if s == "disconnect before changing link mode"
    ));
    assert!(matches!(choose_link_mode(false, LinkMode::Serial), LinkChange::Scan));
    assert!(matches!(choose_link_mode(false, LinkMode::Demo), LinkChange::Selected(_)));
    let menu = baud_menu("115200");
    assert_eq!(menu.len(), common_serial_bauds().len());
    assert_eq!(menu.iter().filter(|entry| entry.checked).count(), 1);
    assert_eq!(endpoint_text(LinkMode::Demo).as_deref(), Some("No endpoint required"));
    assert_eq!(endpoint_text(LinkMode::Serial), None);
}

#[test]
fn ports_are_described() {
    let usb = serial_port_info(
        "/dev/cu.usbmodem2".to_string(),
        PortType::Usb(UsbPort {
            vid: 0x0483,
            pid: 0x374b,
            manufacturer: Some("STMicroelectronics".to_string()),
            product: Some("STLINK".to_string()),
            serial_number: Some("42".to_string()),
        }),
    );
    assert_eq!(serial_port_label(&usb, Some("cu.usbmodem2")), "cu.usbmodem2 - STLINK");
    assert_eq!(serial_port_detail(&usb), "USB 0483:374b STMicroelectronics sn=42");
    let offered = offered_port(usb, Some("cu.usbmodem2"));
    let menu = port_menu(&[offered], "/dev/cu.usbmodem2");
    assert_eq!(
        menu[0].label,
        "cu.usbmodem2 - STLINK (USB 0483:374b STMicroelectronics sn=42)"
    );
    assert!(menu[0].checked);
    let plain = serial_port_info("/dev/ttyS0".to_string(), PortType::Unknown);
    assert_eq!(serial_port_label(&plain, None), "/dev/ttyS0");
    assert_eq!(serial_port_detail(&plain), "Serial");
}

#[test]
fn modes_are_known_by_their_numbers() {
    for mode in LinkMode::all() {
        assert_eq!(LinkMode::from_id(mode.id()), Some(mode));
    }
    assert_eq!(LinkMode::from_id(6), None);
    for tab in PanelTab::all() {
        assert_eq!(PanelTab::from_index(tab.index()), tab);
    }
    assert!(LinkMode::Serial.can_connect());
    assert!(!LinkMode::Ble.can_connect());
    assert_ne!(RegisterViewMode::Dump.label(), RegisterViewMode::RegisterMap.label());
    assert_ne!(SequenceViewMode::Text.label(), SequenceViewMode::Blocks.label());
    assert_ne!(MotionSeries::Acc.label(), MotionSeries::Gyro.label());
    let bar = connection_bar(LinkMode::Serial, true, false, false);
    assert!(bar.connect && bar.load_run && bar.watch && bar.link);
    assert!(!bar.commands && !bar.disconnect);
}

#[test]
fn health_is_summed_up() {
    let health = ReportHealth {
        total_reports: 5,
        dropped_frames: 1,
        last_dt_us: Some(-20),
        ..ReportHealth::default()
    };
    assert_eq!(stream_summary(&health), "reports=5 dropped=1 dt=-20us");
    assert_eq!(
        status_bar(3, &health, 2, "idle"),
        names(&["samples 3", "reports 5", "dropped 1", "regs 2", "mode idle"])
    );
}

// ---- sessions

#[test]
fn programs_are_loaded_in_segments() {
    let program = CompiledProgram {
        main: vec![1, 2, 3],
        irq_bytecodes: vec![("int1".to_string(), vec![9]), ("int2".to_string(), vec![8])],
    };
    let plan = load_plan(&program);
    assert_eq!(
        plan.segments,
        vec![(SEG_KIND_MAIN, vec![1, 2, 3]), (SEG_KIND_IRQ_INT1, vec![9])]
    );
    assert!(plan.events.contains(&SessionEvent::Log(
        "compiled irq!(int2) but this transport maps only int1; segment skipped".to_string()
    )));
    let config = SessionConfig::default();
    assert_eq!(config.baud, DEFAULT_BAUD);
    assert!(!config.runs_program());
    let demo = SessionConfig { demo: true, ..SessionConfig::default() };
    assert!(demo.runs_demo());
    assert_eq!(serial_label("/dev/a", 9600, true), "/dev/a @ 9600 (load+exec)");
    assert_eq!(serial_label("/dev/a", 9600, false), "/dev/a @ 9600 (watch)");
}

#[test]
fn outcomes_become_events() {
    assert_eq!(outcome_event("PING", &Ok(())), SessionEvent::Log("PING ok".to_string()));
    assert_eq!(
        outcome_event("PING", &Err("timeout".to_string())),
        SessionEvent::Error("PING failed: timeout".to_string())
    );
    assert_eq!(exec_event(&Ok(ExecStatus::Success)), SessionEvent::ExecStatus("Ok".to_string()));
    assert_eq!(
        exec_event(&Err("gone".to_string())),
        SessionEvent::Error("EXEC failed: gone".to_string())
    );
    let events = read_events(0x10, 2, "UI.X", &Ok((0x10, vec![1, 2])));
    assert!(events.contains(&SessionEvent::Log("dump UI.X @ 0x10 len=2: [01 02]".to_string())));
    assert_eq!(
        read_events(0x10, 2, "UI.X", &Err("nak".to_string())),
        vec![SessionEvent::Error("dump UI.X @ 0x10 len=2 failed: nak".to_string())]
    );
    let events = write_events(0x10, &[7], "UI.X", &Ok((0x10, 1)));
    assert!(events.contains(&SessionEvent::Log("write UI.X @ 0x10 len=1: [07]".to_string())));
    assert_eq!(
        write_events(0x10, &[7], "UI.X", &Err("nak".to_string())),
        vec![SessionEvent::Error("write UI.X @ 0x10 data=[07] failed: nak".to_string())]
    );
    let summary = demo_summary(1, 5, 100);
    assert_eq!(summary.line, "FIFO_RAW frame_id=5 ts_us=100 demo sample");
}

// ---- captures

#[test]
fn captures_are_saved_beside_their_description() {
    assert_eq!(capture_sidecar_path("a/b.bin"), "a/b.bin.json");
    assert_eq!(refuse_capture_path("a/b.bin"), None);
    assert_eq!(
        refuse_capture_path("a/b.txt").as_deref(),
        Some("capture path a/b.txt must end with .bin")
    );
    assert_eq!(capture_saved_text(3, "b.bin"), "saved 3 report(s) to b.bin and b.bin.json");
    assert_eq!(
        capture_save_start(0),
        Err("no report capture records to save".to_string())
    );
    assert_eq!(
        capture_save_start(2),
        Ok("choosing capture save path for 2 report(s)".to_string())
    );
    let sidecar = capture_sidecar(
        &names(&["a.rseq"]),
        &names(&["c.yaml"]),
        4,
        &ReportDecoderRegistry::default(),
        &kinds(),
    );
    assert_eq!(sidecar.format, "rseq-report-capture-bin-v1");
    assert_eq!(sidecar.version, 1);
    assert_eq!(sidecar.skip_samples, 4);
}

#[test]
fn bad_descriptions_are_refused() {
    let meta = CaptureDecoderMeta {
        kind: 1,
        kind_label: "FIFO_RAW".to_string(),
        decoder: "i16_le".to_string(),
        fields: names(&["a"]),
        gyro_fields: vec![],
        accel_fields: vec![],
        temp_field: None,
        accel_fs_g: Scale::Whole(16),
        gyro_fs_dps: Scale::Whole(4096),
        temp_lsb_per_c: Scale::Whole(1),
        temp_offset_c: Scale::Whole(0),
        output: "f16".to_string(),
    };
    let sidecar = CaptureSidecar {
        version: 1,
        format: String::new(),
        rseq_files: vec![],
        chip_files: vec![],
        skip_samples: 0,
        report_decoders: vec![meta],
    };
    assert_eq!(
        report_decoder_registry_from_sidecar(&sidecar),
        Err("capture metadata decoder output must be physical_f32 or raw_i16, got f16".to_string())
    );
}

// ---- the workspace

#[test]
fn files_are_opened_as_one_text() {
    let file = |path: &str, text: Result<&str, &str>| FileRead {
        path: path.to_string(),
        name: path.to_string(),
        text: text.map(|text| text.to_string()).map_err(|error| error.to_string()),
    };
    let none = initial_sequence_source(&[]);
    assert_eq!(none.text, default_rseq_source());
    assert_eq!(none.status, "new untitled sequence");
    let one = initial_sequence_source(&[file("a.rseq", Ok("delay!(1);"))]);
    assert_eq!((one.text.as_str(), one.status.as_str()), ("delay!(1);", "opened a.rseq"));
    let failed = initial_sequence_source(&[file("a.rseq", Err("gone"))]);
    assert_eq!(failed.status, "failed to read a.rseq: gone");
    let two = initial_sequence_source(&[file("a.rseq", Ok("1;")), file("b.rseq", Ok("2;"))]);
    assert!(two.text.starts_with("// rseq-gpui:file a.rseq\n1;"));
    assert_eq!(two.status, "opened 2 rseq files as combined source");
}

#[test]
fn loads_are_told() {
    let program = CompiledProgram { main: vec![1, 2], irq_bytecodes: vec![] };
    assert_eq!(
        load_before_program(SourceKind::File, &Err("bad".to_string()), 1, true)
            .map(|outcome| (outcome.status, outcome.ok)),
        Some(("metadata error: bad".to_string(), false))
    );
    assert_eq!(
        load_before_program(SourceKind::Source, &Ok(()), 1, false).map(|outcome| outcome.status),
        Some("metadata loaded; startup program not compiled".to_string())
    );
    assert!(load_before_program(SourceKind::File, &Ok(()), 1, true).is_none());
    let outcome = load_with_program(&Ok(program.clone()));
    assert_eq!(outcome.status, "compiled main=2 bytes, irq_handlers=0");
    assert_eq!(loaded_messages("script", &outcome, false).len(), 1);
    assert_eq!(loaded_messages("script", &outcome, true).len(), 2);
    assert_eq!(load_with_program(&Err("bad".to_string())).status, "compile error: bad");
    assert_eq!(program_text(Some(&program)), "main=2 bytes\nirq_handlers=0");
    assert_eq!(program_text(None), "not compiled");
}

#[test]
fn a_start_is_planned() {
    let state = SourceState {
        tab: PanelTab::Sequences,
        dirty: false,
        has_path: false,
        has_files: false,
        has_source: true,
    };
    assert!(use_sequence_editor_source(state));
    assert!(has_startup_source(state));
    assert!(current_view_has_source(SequenceViewMode::Text, "x", false));
    assert!(!current_view_has_source(SequenceViewMode::Blocks, "x", false));
    let plan = plan_start(StartRequest::LoadAndRun, state, false);
    assert!(plan.from_editor && !plan.watch);
    assert_eq!(refuse_run(plan, StartRequest::LoadAndRun, true), None);
    assert_eq!(
        refuse_run(plan, StartRequest::LoadAndRun, false),
        Some(RunRefusal {
            message: "no rseq source in current sequence view",
            status: "no rseq source",
        })
    );
    assert_eq!(
        refuse_start(plan, StartRequest::LoadAndRun, false),
        Some("sequence editor did not produce startup bytecode")
    );
    assert!(default_watch_mode(true, true));
    assert!(!default_watch_mode(false, true));
    assert!(default_watch_mode(false, false));
}

#[test]
fn names_of_files() {
    assert_eq!(sequence_title(None), "untitled.rseq");
    assert_eq!(sequence_title(Some("a.rseq")), "a.rseq");
    assert_eq!(sequence_default_file_name(None), "sequence.rseq");
    assert_eq!(capture_default_file_name(Some("fifo")), "fifo-capture.bin");
    assert_eq!(capture_default_file_name(None), "rseq-capture.bin");
    assert_eq!(chip_paths_label(&[]), "from chip!(...) or none");
    assert_eq!(chip_paths_label(&names(&["a", "b"])), "a\nb");
    let failure = build_failure(&names(&["one", "two"]));
    assert_eq!(failure.compile_status, "visual sequence error: one\ntwo");
    assert_eq!(failure.log, "sequence build failed: one\ntwo");
    assert_eq!(
        current_sequence_text(SequenceViewMode::Blocks, "x", &Err(names(&["one"]))),
        "// visual sequence error:\n// one"
    );
    assert_eq!(current_sequence_text(SequenceViewMode::Text, "x", &Ok("y".to_string())), "x");
}

// ---- what is shown

#[test]
fn summaries() {
    assert_eq!(motion_summary(3, 1), "samples=3 skip_remaining=1");
    assert_eq!(capture_summary(2, 1), "2 record(s), 1 decoder(s)");
    assert_eq!(history_header(4, None), "4/120 bars · double-click a chart");
    assert!(history_header(
        4,
        Some(Intraday { series: MotionSeries::Acc, bar_index: 1, bar_count: 4, samples: 9 })
    )
    .ends_with(" intraday · bar 2/4 · 9 samples"));
    let lines: VecDeque<String> = (0..300).map(|n| format!("{n}")).collect();
    let newest = newest_lines(&lines);
    assert_eq!(newest.len(), 240);
    assert!(newest.contains(&"299".to_string()) && !newest.contains(&"59".to_string()));
    let step = VisualStepBlueprint {
        kind: VisualStepKind::Write,
        address: "0x10".to_string(),
        read_len: String::new(),
        data: "aa 55".to_string(),
        delay_us: String::new(),
    };
    let row = visual_step_row(0, &step);
    assert_eq!(row.length.as_deref(), Some("2 B"));
    assert!(row.takes_data);
    assert!(row.drag_label.starts_with("#01 "));
    let side = sequence_sidebar(None, None, true, true, &[], "ready", None, 1, 2);
    assert_eq!(side.title, "untitled.rseq");
    assert!(side.unsaved && side.ready);
    assert_eq!(side.program, "not compiled");
    assert_eq!(side.metadata, "reports=1\nregisters=2");
}
