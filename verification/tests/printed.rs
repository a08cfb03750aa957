use rseq_tools::bus::{BusError, VmError};
use rseq_tools::capture::CaptureError;
use rseq_tools::cli::{CliFlags, Endpoint, Injection, IrqVector, SaveKind};
use rseq_tools::console::{
    capture_failure, control_heading, list_compilation, list_decompiled, list_handlers,
    list_made, list_parsed, list_run, list_statements, list_watch_heading, not_run_line,
    observe_failure, open_failure, replay_heading, save_failure, saving_line, watch_notice,
};
use rseq_tools::frame::{encode_into, FrameDecoder, FrameType, HOST_FRAME_BUF, OVERHEAD};
use rseq_tools::program::{ParsedSource, Stmt};
use rseq_tools::report::{BusOp, ReportKinds};

fn kinds() -> ReportKinds {
    ReportKinds { fifo_raw: 1, names: vec![], values: vec![] }
}

fn source(name: &str) -> ParsedSource {
    ParsedSource {
        name: name.to_string(),
        source: String::new(),
        base_dir: None,
        stmts: vec![Stmt::Chip { path: "c.yaml".to_string() }],
    }
}

fn vector() -> IrqVector {
    IrqVector {
        pin: "int1".to_string(),
        snapshot_addr: 0x54,
        snapshot_len: 2,
        read_clear: false,
        arms: vec![],
        bytecode: None,
    }
}

#[test]
fn compilations_are_printed_from_first_to_last() {
    let lines = list_compilation(&[source("a.rseq")], &[0xab, 0x01], Some("out.bin"), &[vector()]);
    assert_eq!(
        lines,
        vec![
            "\nParsing rseq...",
            "✓ Parsed a.rseq successfully",
            "\nCompiling to bytecode...",
            "✓ Compiled successfully (2 bytes)",
            "Bytecode (vec): [ab, 01]",
            "Bytecode (hex): ab 01",
            "Saved bytecode to out.bin",
            "\nInterrupt handlers (auto-response mode — MCU runs on every trigger):",
            "  irq!(int1) — read 2 byte(s) @ 0x00000054:",
            "\nStatements (in order):",
            "  Step 1:",
            "    Action: Load chip dictionary from c.yaml",
        ]
    );
    assert_eq!(list_parsed(&[]), vec!["\nParsing rseq..."]);
    assert_eq!(list_made(&[], None).len(), 4);
    assert!(list_handlers(&[]).is_empty());
    assert_eq!(list_statements(&[]), vec!["\nStatements (in order):"]);
}

#[test]
fn runs_are_printed_with_what_they_did() {
    let injected = Injection { addr: 1, bytes: vec![2], message: "Injected".to_string() };
    let done = list_run(&kinds(), &[injected.clone()], &Ok(vec![BusOp::Delay { us: 5 }]));
    assert_eq!(
        done.lines,
        vec![
            "\nExecuting in MockBus...",
            "Injected",
            "✓ Execution completed successfully",
            "Bus operations (in execution order):",
            "  Step 1: Delay 5 μs",
        ]
    );
    assert_eq!(done.error, None);
    let failed = list_run(&kinds(), &[injected], &Err(VmError::BusError(BusError::Timeout)));
    assert_eq!(failed.lines, vec!["\nExecuting in MockBus...", "Injected"]);
    assert_eq!(failed.error.as_deref(), Some("Execution error: BusError(Timeout)"));
    for error in [
        VmError::InvalidOpcode,
        VmError::ProgramTooShort,
        VmError::InvalidLength,
        VmError::DivideByZero,
        VmError::BusError(BusError::InvalidAddress),
        VmError::BusError(BusError::AccessSizeMismatch),
        VmError::BusError(BusError::HardwareFailure),
    ] {
        assert_eq!(
            list_run(&kinds(), &[], &Err(error)).error,
            Some(format!("Execution error: {error:?}"))
        );
    }
    assert_eq!(not_run_line(), "\nUse --execute to run in MockBus");
}

#[test]
fn decompiled_texts_are_printed() {
    let done = list_decompiled(&Ok("delay!(1);".to_string()));
    assert_eq!(done.lines, vec!["Decompiling bytecode...", "Decompiled rseq:\ndelay!(1);"]);
    assert_eq!(done.error, None);
    let failed = list_decompiled(&Err("Short".to_string()));
    assert_eq!(failed.lines, vec!["Decompiling bytecode..."]);
    assert_eq!(failed.error.as_deref(), Some("Decompile error: Short"));
}

#[test]
fn headings_name_what_follows() {
    assert_eq!(
        list_watch_heading("tcp x", 0),
        vec![
            "\nWatching MCU reports over tcp x...",
            "No LOAD/EXEC/PING frames will be sent. Press Ctrl-C to stop.",
        ]
    );
    assert_eq!(
        list_watch_heading("tcp x", 2)[1],
        "Loaded 2 report decoder(s) from local DSL metadata."
    );
    assert_eq!(control_heading("tcp x"), "\nSending control frame(s) over tcp x...");
    assert_eq!(replay_heading(3, "a.bin"), "Replaying 3 report(s) from a.bin");
    assert_eq!(saving_line(SaveKind::Nothing, "a"), None);
    assert_eq!(
        saving_line(SaveKind::Csv, "a.csv").as_deref(),
        Some("Saving decoded reports to CSV a.csv")
    );
    assert_eq!(
        saving_line(SaveKind::Bin, "a.bin").as_deref(),
        Some("Saving binary report capture to a.bin")
    );
}

#[test]
fn options_that_watching_ignores_are_told() {
    let mut flags = CliFlags {
        replay: false,
        stop: false,
        reset_mcu: false,
        ping: false,
        watch: true,
        decompile: false,
        execute: false,
        has_fire: false,
        has_hex: false,
        has_output: false,
        has_manifest: false,
        has_run: false,
        files: 0,
        has_endpoint: true,
    };
    assert_eq!(watch_notice(flags), None);
    flags.execute = true;
    assert_eq!(
        watch_notice(flags),
        Some("Watch mode: ignoring compile/execute control options and sending no control frames.")
    );
}

#[test]
fn failures_are_told() {
    assert_eq!(
        open_failure(&Endpoint::Serial("/dev/a".to_string()), "busy"),
        "open serial /dev/a failed: busy"
    );
    assert_eq!(open_failure(&Endpoint::Tcp("h:1".to_string()), "no"), "open tcp h:1 failed: no");
    assert_eq!(observe_failure("gone"), "observe failed: gone");
    assert_eq!(save_failure("full"), "save failed: full");
    assert_eq!(
        capture_failure("a.bin", &CaptureError::ShortHeader),
        "failed to read capture header a.bin: failed to fill whole buffer"
    );
    assert_eq!(
        capture_failure("a.bin", &CaptureError::NotCapture),
        "a.bin is not an rseq report capture"
    );
    assert_eq!(
        capture_failure("a.bin", &CaptureError::ShortRecord),
        "failed to read capture payload: failed to fill whole buffer"
    );
    assert_eq!(capture_failure("a.bin", &CaptureError::BadRecord("bad".to_string())), "bad");
}

#[test]
fn frames_come_out_in_the_order_of_their_places() {
    let encode = |ty: FrameType, payload: &[u8]| {
        let mut out = vec![0u8; payload.len() + OVERHEAD];
        let n = encode_into(ty, payload, &mut out);
        out.truncate(n);
        out
    };
    let mut inner = vec![7];
    inner.extend(encode(FrameType::Ping, &[]));
    let mut stream = vec![0xff, 0x00];
    stream.extend(encode(FrameType::Trace, &inner));
    stream.extend([1, 2, 3]);
    stream.extend(encode(FrameType::Exec, &[4]));
    let frames = FrameDecoder::<{ HOST_FRAME_BUF }>::new().feed(&stream);
    assert_eq!(frames, vec![(FrameType::Trace, inner), (FrameType::Exec, vec![4])]);
}
