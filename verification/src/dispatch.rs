//! What is told of a program that was made, and of sending it to a device.
use crate::cli;
use crate::cli::{list_bus_ops, push_line, push_lines};
use crate::report;
use crate::report::{hex_bytes, push_hex_join, BusOp, ReportKinds};
use crate::session;
use crate::session::{exec_status_name, load_plan, two, CompiledProgram};
use crate::text;
use crate::text::push_dec;
use crate::wire::ExecStatus;
use vstd::prelude::*;

verus! {

// ---- a program that was made

/// What is told of a program that was made.
pub open spec fn program_lines(main: Seq<u8>) -> Seq<Seq<char>> {
    seq![
        "✓ Compiled successfully ("@ + text::dec(main.len()) + " bytes)"@,
        "Bytecode (vec): ["@ + report::hex_join(main, ", "@) + "]"@,
        "Bytecode (hex): "@ + report::hex_text(main),
    ]
}

/// What is told of a program that was made.
pub fn compiled_lines(main: &[u8]) -> (lines: Vec<String>)
    ensures
        text::texts(lines@) == program_lines(main@),
{
    let mut first: String = "✓ Compiled successfully (".to_owned();
    push_dec(&mut first, main.len() as u128);
    first.push_str(" bytes)");
    let mut second: String = "Bytecode (vec): [".to_owned();
    push_hex_join(&mut second, main, ", ");
    second.push_str("]");
    let third = two("Bytecode (hex): ", hex_bytes(main).as_str());
    let mut lines: Vec<String> = Vec::new();
    push_line(&mut lines, first);
    push_line(&mut lines, second);
    push_line(&mut lines, third);
    assert(text::texts(lines@) =~= program_lines(main@));
    lines
}

// ---- sending it to a device

/// What is sent to a device, and what is told before.
#[derive(Debug, Clone, PartialEq, Eq)]
pub struct Dispatch {
    pub segments: Vec<(u8, Vec<u8>)>,
    pub lines: Vec<String>,
}

/// What is told before a program is sent to a device.
pub open spec fn dispatch_lines(label: Seq<char>, p: CompiledProgram) -> Seq<Seq<char>> {
    let first = seq!["\nDispatching to MCU over "@ + label + "..."@];
    match session::handler_of(p.irq_bytecodes@, "int1"@) {
        Some(b) => first.push(
            "  + INT1 interrupt handler ("@ + text::dec(b.len()) + " bytes)"@,
        ),
        None => first,
    }
}

/// What is sent to a device, and what is told before: the program, and the handler of the first
/// pin where there is one.
pub fn dispatch(label: &str, p: &CompiledProgram) -> (d: Dispatch)
    requires
        p.wf(),
    ensures
        session::segment_views(d.segments@) == session::load_segments_of(*p),
        text::texts(d.lines@) == dispatch_lines(label@, *p),
{
    let segments = load_plan(p).segments;
    let mut first = two("\nDispatching to MCU over ", label);
    first.push_str("...");
    let mut lines: Vec<String> = Vec::new();
    push_line(&mut lines, first);
    if segments.len() > 1 {
        assert(session::segment_views(segments@)[1].1 == segments@[1].1@);
        let mut second: String = "  + INT1 interrupt handler (".to_owned();
        push_dec(&mut second, segments[1].1.len() as u128);
        second.push_str(" bytes)");
        push_line(&mut lines, second);
    }
    assert(session::segment_views(segments@).len() == segments@.len());
    assert(text::texts(lines@) =~= dispatch_lines(label@, *p));
    Dispatch { segments, lines }
}

/// What is told once a program was sent, or why it could not be.
pub fn dispatched(p: &CompiledProgram, r: &Result<(), String>) -> (told: Result<String, String>)
    ensures
        match *r {
            Ok(()) => told matches Ok(s) && s@ == "✓ Loaded "@ + text::dec(p.main@.len())
                + " byte(s)"@,
            Err(e) => told matches Err(s) && s@ == "LOAD failed: "@ + e@,
        },
{
    match r {
        Ok(()) => {
            let mut s: String = "✓ Loaded ".to_owned();
            push_dec(&mut s, p.main.len() as u128);
            s.push_str(" byte(s)");
            Ok(s)
        },
        Err(e) => Err(two("LOAD failed: ", e.as_str())),
    }
}

/// What is told once a program was run, with what it did, or why it could not be.
pub fn dispatch_executed(kinds: &ReportKinds, r: &Result<(ExecStatus, Vec<BusOp>), String>) -> (told: Result<
    Vec<String>,
    String,
>)
    ensures
        match *r {
            Ok((status, traces)) => told matches Ok(lines) && text::texts(lines@) == seq![
                "Exec status: "@ + session::status_name(status),
            ] + cli::op_lines(*kinds, traces@),
            Err(e) => told matches Err(s) && s@ == "EXEC failed: "@ + e@,
        },
{
    match r {
        Ok((status, traces)) => {
            let mut lines: Vec<String> = Vec::new();
            push_line(&mut lines, two("Exec status: ", exec_status_name(*status)));
            assert(text::texts(lines@) =~= seq![
                "Exec status: "@ + session::status_name(*status),
            ]);
            push_lines(&mut lines, list_bus_ops(kinds, traces));
            Ok(lines)
        },
        Err(e) => Err(two("EXEC failed: ", e.as_str())),
    }
}

/// What is told before reports are observed, where the program has handlers that send some.
pub fn dispatch_observes(p: &CompiledProgram) -> (line: Option<&'static str>)
    ensures
        line is Some == (p.irq_bytecodes@.len() > 0),
        line matches Some(s) ==> s@ == "\nObserving report events. Press Ctrl-C to stop."@,
{
    if p.irq_bytecodes.len() > 0 {
        Some("\nObserving report events. Press Ctrl-C to stop.")
    } else {
        None
    }
}

} // verus!
