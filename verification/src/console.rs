//! What the console prints around its work.
use crate::bus::{BusError, VmError};
use crate::capture::CaptureError;
use crate::cli;
use crate::cli::{
    list_bus_ops, list_sources, list_vector, push_line, push_lines, watch_ignores_control_options,
    CliFlags, Endpoint, Injection, IrqVector, SaveKind,
};
use crate::dispatch;
use crate::dispatch::compiled_lines;
use crate::program::ParsedSource;
use crate::report::{BusOp, ReportKinds};
use crate::session::two;
use crate::text;
use crate::text::push_dec;
use vstd::prelude::*;

verus! {

fn one_line(line: String) -> (lines: Vec<String>)
    ensures
        text::texts(lines@) == seq![line@],
{
    let mut lines: Vec<String> = Vec::new();
    push_line(&mut lines, line);
    assert(text::texts(lines@) =~= seq![line@]);
    lines
}

// ---- compiling

/// What is printed of sources that were parsed.
pub open spec fn parsed_lines(sources: Seq<ParsedSource>) -> Seq<Seq<char>> {
    seq!["\nParsing rseq..."@] + sources.map_values(
        |s: ParsedSource| "✓ Parsed "@ + s.name@ + " successfully"@,
    )
}

/// What is printed of sources that were parsed. Those behind one that could not be parsed are left
/// out.
pub fn list_parsed(sources: &[ParsedSource]) -> (lines: Vec<String>)
    ensures
        text::texts(lines@) == parsed_lines(sources@),
{
    let ghost told = sources@.map_values(
        |s: ParsedSource| "✓ Parsed "@ + s.name@ + " successfully"@,
    );
    let mut lines = one_line("\nParsing rseq...".to_owned());
    let ghost head = text::texts(lines@);
    let mut i: usize = 0;
    assert(head + told.take(0) =~= head);
    while i < sources.len()
        invariant
            i <= sources.len(),
            told == sources@.map_values(
                |s: ParsedSource| "✓ Parsed "@ + s.name@ + " successfully"@,
            ),
            text::texts(lines@) == head + told.take(i as int),
        decreases sources.len() - i,
    {
        let mut line = two("✓ Parsed ", sources[i].name.as_str());
        line.push_str(" successfully");
        push_line(&mut lines, line);
        assert(head + told.take(i + 1) =~= (head + told.take(i as int)).push(told[i as int]));
        i += 1;
    }
    assert(told.take(told.len() as int) =~= told);
    lines
}

/// What is printed of a program that was made, and saved where a file is named.
pub open spec fn made_lines(main: Seq<u8>, saved: Option<Seq<char>>) -> Seq<Seq<char>> {
    let made = seq!["\nCompiling to bytecode..."@] + dispatch::program_lines(main);
    match saved {
        Some(path) => made.push("Saved bytecode to "@ + path),
        None => made,
    }
}

/// What is printed of a program that was made.
pub fn list_made(main: &[u8], saved: Option<&str>) -> (lines: Vec<String>)
    ensures
        text::texts(lines@) == made_lines(
            main@,
            match saved {
                Some(path) => Some(path@),
                None => None,
            },
        ),
{
    let mut lines = one_line("\nCompiling to bytecode...".to_owned());
    push_lines(&mut lines, compiled_lines(main));
    match saved {
        Some(path) => {
            push_line(&mut lines, two("Saved bytecode to ", path));
        },
        None => {},
    }
    lines
}

/// The lines of interrupt handlers.
pub open spec fn vectors_lines(vectors: Seq<IrqVector>) -> Seq<Seq<char>>
    decreases vectors.len(),
{
    if vectors.len() == 0 {
        Seq::empty()
    } else {
        vectors_lines(vectors.drop_last()) + cli::vector_lines(vectors.last())
    }
}

/// What is printed of interrupt handlers, where there are some.
pub open spec fn handlers_lines(vectors: Seq<IrqVector>) -> Seq<Seq<char>> {
    if vectors.len() == 0 {
        Seq::empty()
    } else {
        seq!["\nInterrupt handlers (auto-response mode — MCU runs on every trigger):"@]
            + vectors_lines(vectors)
    }
}

/// What is printed of interrupt handlers.
pub fn list_handlers(vectors: &[IrqVector]) -> (lines: Vec<String>)
    ensures
        text::texts(lines@) == handlers_lines(vectors@),
{
    if vectors.len() == 0 {
        let lines: Vec<String> = Vec::new();
        assert(text::texts(lines@) =~= Seq::<Seq<char>>::empty());
        return lines;
    }
    let mut lines = one_line(
        "\nInterrupt handlers (auto-response mode — MCU runs on every trigger):".to_owned(),
    );
    let ghost head = text::texts(lines@);
    let mut i: usize = 0;
    assert(vectors@.take(0) =~= Seq::<IrqVector>::empty());
    assert(head + vectors_lines(vectors@.take(0)) =~= head);
    while i < vectors.len()
        invariant
            i <= vectors.len(),
            text::texts(lines@) == head + vectors_lines(vectors@.take(i as int)),
        decreases vectors.len() - i,
    {
        let ghost before = text::texts(lines@);
        push_lines(&mut lines, list_vector(&vectors[i]));
        assert(vectors@.take(i + 1).drop_last() =~= vectors@.take(i as int));
        assert(text::texts(lines@) =~= head + vectors_lines(vectors@.take(i + 1)));
        i += 1;
    }
    assert(vectors@.take(vectors@.len() as int) =~= vectors@);
    lines
}

/// What is printed of statements.
pub open spec fn statements_lines(sources: Seq<ParsedSource>) -> Seq<Seq<char>> {
    seq!["\nStatements (in order):"@] + cli::sources_lines(sources, sources.len() > 1)
}

/// What is printed of statements.
pub fn list_statements(sources: &[ParsedSource]) -> (lines: Vec<String>)
    ensures
        text::texts(lines@) == statements_lines(sources@),
{
    let mut lines = one_line("\nStatements (in order):".to_owned());
    push_lines(&mut lines, list_sources(sources));
    lines
}

/// What is printed of sources that were parsed and compiled, from first to last.
pub fn list_compilation(
    sources: &[ParsedSource],
    main: &[u8],
    saved: Option<&str>,
    vectors: &[IrqVector],
) -> (lines: Vec<String>)
    ensures
        text::texts(lines@) == parsed_lines(sources@) + made_lines(
            main@,
            match saved {
                Some(path) => Some(path@),
                None => None,
            },
        ) + handlers_lines(vectors@) + statements_lines(sources@),
{
    let mut lines = list_parsed(sources);
    push_lines(&mut lines, list_made(main, saved));
    push_lines(&mut lines, list_handlers(vectors));
    push_lines(&mut lines, list_statements(sources));
    lines
}

// ---- running

/// How an error of a bus is called.
pub open spec fn bus_error_name(e: BusError) -> Seq<char> {
    match e {
        BusError::InvalidAddress => "InvalidAddress"@,
        BusError::AccessSizeMismatch => "AccessSizeMismatch"@,
        BusError::Timeout => "Timeout"@,
        BusError::HardwareFailure => "HardwareFailure"@,
    }
}

/// How the reason is called for which a program stopped.
pub open spec fn vm_error_name(e: VmError) -> Seq<char> {
    match e {
        VmError::InvalidOpcode => "InvalidOpcode"@,
        VmError::ProgramTooShort => "ProgramTooShort"@,
        VmError::InvalidLength => "InvalidLength"@,
        VmError::DivideByZero => "DivideByZero"@,
        VmError::BusError(e) => "BusError("@ + bus_error_name(e) + ")"@,
    }
}

fn vm_error_text(e: VmError) -> (s: String)
    ensures
        s@ == vm_error_name(e),
{
    match e {
        VmError::InvalidOpcode => "InvalidOpcode".to_owned(),
        VmError::ProgramTooShort => "ProgramTooShort".to_owned(),
        VmError::InvalidLength => "InvalidLength".to_owned(),
        VmError::DivideByZero => "DivideByZero".to_owned(),
        VmError::BusError(e) => {
            let mut s: String = two(
                "BusError(",
                match e {
                    BusError::InvalidAddress => "InvalidAddress",
                    BusError::AccessSizeMismatch => "AccessSizeMismatch",
                    BusError::Timeout => "Timeout",
                    BusError::HardwareFailure => "HardwareFailure",
                },
            );
            s.push_str(")");
            s
        },
    }
}

/// What is printed, and what is told of an error that ends the program, if one does.
#[derive(Debug, Clone, PartialEq, Eq)]
pub struct Printed {
    pub lines: Vec<String>,
    pub error: Option<String>,
}

/// What is printed of a run in memory before it ends: what was made to happen.
pub open spec fn running_lines(injected: Seq<Injection>) -> Seq<Seq<char>> {
    seq!["\nExecuting in MockBus..."@] + injected.map_values(|j: Injection| j.message@)
}

/// What is printed of a run in memory: what was made to happen, and what the program did, or why it
/// stopped.
pub fn list_run(
    kinds: &ReportKinds,
    injected: &[Injection],
    outcome: &Result<Vec<BusOp>, VmError>,
) -> (p: Printed)
    ensures
        match *outcome {
            Ok(ops) => {
                &&& text::texts(p.lines@) == running_lines(injected@)
                    + seq!["✓ Execution completed successfully"@] + cli::op_lines(*kinds, ops@)
                &&& p.error is None
            },
            Err(e) => {
                &&& text::texts(p.lines@) == running_lines(injected@)
                &&& p.error matches Some(s) && s@ == "Execution error: "@ + vm_error_name(e)
            },
        },
{
    let ghost told = injected@.map_values(|j: Injection| j.message@);
    let mut lines = one_line("\nExecuting in MockBus...".to_owned());
    let ghost head = text::texts(lines@);
    let mut i: usize = 0;
    assert(head + told.take(0) =~= head);
    while i < injected.len()
        invariant
            i <= injected.len(),
            told == injected@.map_values(|j: Injection| j.message@),
            text::texts(lines@) == head + told.take(i as int),
        decreases injected.len() - i,
    {
        push_line(&mut lines, injected[i].message.clone());
        assert(head + told.take(i + 1) =~= (head + told.take(i as int)).push(told[i as int]));
        i += 1;
    }
    assert(told.take(told.len() as int) =~= told);
    match outcome {
        Ok(ops) => {
            push_lines(&mut lines, one_line("✓ Execution completed successfully".to_owned()));
            push_lines(&mut lines, list_bus_ops(kinds, ops));
            Printed { lines, error: None }
        },
        Err(e) => {
            let error = two("Execution error: ", vm_error_text(*e).as_str());
            Printed { lines, error: Some(error) }
        },
    }
}

/// What is printed where a program is not run in memory.
pub fn not_run_line() -> (s: &'static str)
    ensures
        s@ == "\nUse --execute to run in MockBus"@,
{
    "\nUse --execute to run in MockBus"
}

/// What is printed of decompiling: the text, or why there is none.
pub fn list_decompiled(outcome: &Result<String, String>) -> (p: Printed)
    ensures
        match *outcome {
            Ok(source) => {
                &&& text::texts(p.lines@) == seq![
                    "Decompiling bytecode..."@,
                    "Decompiled rseq:\n"@ + source@,
                ]
                &&& p.error is None
            },
            Err(e) => {
                &&& text::texts(p.lines@) == seq!["Decompiling bytecode..."@]
                &&& p.error matches Some(s) && s@ == "Decompile error: "@ + e@
            },
        },
{
    let mut lines = one_line("Decompiling bytecode...".to_owned());
    match outcome {
        Ok(source) => {
            push_line(&mut lines, two("Decompiled rseq:\n", source.as_str()));
            assert(text::texts(lines@) =~= seq![
                "Decompiling bytecode..."@,
                "Decompiled rseq:\n"@ + source@,
            ]);
            Printed { lines, error: None }
        },
        Err(e) => Printed { lines, error: Some(two("Decompile error: ", e.as_str())) },
    }
}

// ---- devices and captures

/// What is told of a device that cannot be reached.
pub fn open_failure(endpoint: &Endpoint, why: &str) -> (s: String)
    ensures
        s@ == (match *endpoint {
            Endpoint::Serial(path) => "open serial "@ + path@ + " failed: "@ + why@,
            Endpoint::Tcp(addr) => "open tcp "@ + addr@ + " failed: "@ + why@,
        }),
{
    let mut s: String = match endpoint {
        Endpoint::Serial(path) => two("open serial ", path.as_str()),
        Endpoint::Tcp(addr) => two("open tcp ", addr.as_str()),
    };
    s.push_str(" failed: ");
    s.push_str(why);
    s
}

/// What is printed where options are given that watching makes nothing of.
pub fn watch_notice(f: CliFlags) -> (r: Option<&'static str>)
    ensures
        match r {
            Some(s) => (f.decompile || f.execute || f.has_fire || f.has_hex || f.has_output) && s@
                == "Watch mode: ignoring compile/execute control options and sending no control frames."@,
            None => !(f.decompile || f.execute || f.has_fire || f.has_hex || f.has_output),
        },
{
    if watch_ignores_control_options(f) {
        Some("Watch mode: ignoring compile/execute control options and sending no control frames.")
    } else {
        None
    }
}

/// What is printed before reports are watched.
pub open spec fn watch_heading(label: Seq<char>, decoders: nat) -> Seq<Seq<char>> {
    let first = seq!["\nWatching MCU reports over "@ + label + "..."@];
    let loaded = if decoders > 0 {
        first.push("Loaded "@ + text::dec(decoders) + " report decoder(s) from local DSL metadata."@)
    } else {
        first
    };
    loaded.push("No LOAD/EXEC/PING frames will be sent. Press Ctrl-C to stop."@)
}

/// What is printed before reports are watched.
pub fn list_watch_heading(label: &str, decoders: usize) -> (lines: Vec<String>)
    ensures
        text::texts(lines@) == watch_heading(label@, decoders as nat),
{
    let mut first = two("\nWatching MCU reports over ", label);
    first.push_str("...");
    let mut lines = one_line(first);
    if decoders > 0 {
        let mut s: String = "Loaded ".to_owned();
        push_dec(&mut s, decoders as u128);
        s.push_str(" report decoder(s) from local DSL metadata.");
        push_line(&mut lines, s);
    }
    push_line(
        &mut lines,
        "No LOAD/EXEC/PING frames will be sent. Press Ctrl-C to stop.".to_owned(),
    );
    lines
}

/// What is told once no more reports can be observed.
pub fn observe_failure(why: &str) -> (s: String)
    ensures
        s@ == "observe failed: "@ + why@,
{
    two("observe failed: ", why)
}

/// What is told of a report that could not be saved.
pub fn save_failure(why: &str) -> (s: String)
    ensures
        s@ == "save failed: "@ + why@,
{
    two("save failed: ", why)
}

/// What is printed before a device is told to do something.
pub fn control_heading(label: &str) -> (s: String)
    ensures
        s@ == "\nSending control frame(s) over "@ + label@ + "..."@,
{
    let mut s = two("\nSending control frame(s) over ", label);
    s.push_str("...");
    s
}

/// What is printed before a capture is replayed.
pub fn replay_heading(count: usize, path: &str) -> (s: String)
    ensures
        s@ == "Replaying "@ + text::dec(count as nat) + " report(s) from "@ + path@,
{
    let mut s: String = "Replaying ".to_owned();
    push_dec(&mut s, count as u128);
    s.push_str(" report(s) from ");
    s.push_str(path);
    s
}

/// What is told of a file that is no capture.
pub fn capture_failure(path: &str, error: &CaptureError) -> (s: String)
    ensures
        s@ == (match *error {
            CaptureError::ShortHeader => "failed to read capture header "@ + path@
                + ": failed to fill whole buffer"@,
            CaptureError::NotCapture => path@ + " is not an rseq report capture"@,
            CaptureError::ShortRecord => "failed to read capture payload: failed to fill whole buffer"@,
            CaptureError::BadRecord(e) => e@,
        }),
{
    match error {
        CaptureError::ShortHeader => {
            let mut s = two("failed to read capture header ", path);
            s.push_str(": failed to fill whole buffer");
            s
        },
        CaptureError::NotCapture => two(path, " is not an rseq report capture"),
        CaptureError::ShortRecord => {
            "failed to read capture payload: failed to fill whole buffer".to_owned()
        },
        CaptureError::BadRecord(e) => e.clone(),
    }
}

/// What is printed once a file to save reports in was made.
pub fn saving_line(kind: SaveKind, path: &str) -> (r: Option<String>)
    ensures
        match kind {
            SaveKind::Nothing => r is None,
            SaveKind::Csv => r matches Some(s) && s@ == "Saving decoded reports to CSV "@ + path@,
            SaveKind::Bin => r matches Some(s) && s@ == "Saving binary report capture to "@ + path@,
        },
{
    match kind {
        SaveKind::Nothing => None,
        SaveKind::Csv => Some(two("Saving decoded reports to CSV ", path)),
        SaveKind::Bin => Some(two("Saving binary report capture to ", path)),
    }
}

} // verus!
