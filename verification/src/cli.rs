//! What the command line asks for, and what is printed of it.
use crate::listing;
use crate::listing::{list_stmt, quote};
use crate::numbers;
use crate::numbers::parse_fire_spec;
use crate::program::{ParsedSource, Stmt};
use crate::report;
use crate::report::{format_report_meta, report_kind_label};
use crate::report::{BusOp, ReportKinds};
use crate::session::two;
use crate::text;
use crate::text::{dec_text, join, push_dec, push_hex, same_text};
use vstd::prelude::*;

verus! {

// ---- what is asked for

/// What is told in place of what was asked for, and the exit code.
#[derive(Debug, Clone, PartialEq, Eq)]
pub struct Refusal {
    pub message: String,
    pub code: i32,
}

/// What is done.
#[derive(Debug, Clone, Copy, PartialEq, Eq, Structural)]
pub enum CliMode {
    Replay,
    Control,
    Watch,
    Decompile,
    Compile,
}

/// What is given on the command line, as far as it decides what is done.
#[derive(Debug, Clone, Copy, PartialEq, Eq, Structural)]
pub struct CliFlags {
    pub replay: bool,
    pub stop: bool,
    pub reset_mcu: bool,
    pub ping: bool,
    pub watch: bool,
    pub decompile: bool,
    pub execute: bool,
    pub has_fire: bool,
    pub has_hex: bool,
    pub has_output: bool,
    pub has_manifest: bool,
    pub has_run: bool,
    pub files: usize,
    pub has_endpoint: bool,
}

/// What is done, or what is told in its place and with which exit code.
pub open spec fn mode_of(f: CliFlags) -> Result<CliMode, (Seq<char>, int)> {
    if f.replay {
        Ok(CliMode::Replay)
    } else if f.stop || f.reset_mcu || f.ping {
        if f.has_endpoint {
            Ok(CliMode::Control)
        } else {
            Err(("--stop/--reset-mcu/--ping require --serial <port> or --tcp <host:port>"@, 2))
        }
    } else if f.watch {
        if f.has_endpoint {
            Ok(CliMode::Watch)
        } else {
            Err(("--watch requires --serial <port> or --tcp <host:port>"@, 2))
        }
    } else if f.decompile {
        if f.has_manifest || f.has_run {
            Err(("--decompile cannot be combined with --manifest or --run"@, 1))
        } else if !f.has_hex && f.files != 1 {
            Err(
                (
                    "Please provide either one bytecode file with --file or a hex string with --hex"@,
                    1,
                ),
            )
        } else {
            Ok(CliMode::Decompile)
        }
    } else {
        Ok(CliMode::Compile)
    }
}

fn refuse(message: &str, code: i32) -> (r: Result<CliMode, Refusal>)
    ensures
        r matches Err(e) && e.message@ == message@ && e.code == code,
{
    Err(Refusal { message: message.to_owned(), code })
}

/// What is done, or what is told in its place.
pub fn choose_mode(f: CliFlags) -> (r: Result<CliMode, Refusal>)
    ensures
        (match r {
            Ok(m) => Ok(m),
            Err(e) => Err((e.message@, e.code as int)),
        }) == mode_of(f),
{
    if f.replay {
        return Ok(CliMode::Replay);
    }
    if f.stop || f.reset_mcu || f.ping {
        if f.has_endpoint {
            return Ok(CliMode::Control);
        }
        return refuse("--stop/--reset-mcu/--ping require --serial <port> or --tcp <host:port>", 2);
    }
    if f.watch {
        if f.has_endpoint {
            return Ok(CliMode::Watch);
        }
        return refuse("--watch requires --serial <port> or --tcp <host:port>", 2);
    }
    if f.decompile {
        if f.has_manifest || f.has_run {
            return refuse("--decompile cannot be combined with --manifest or --run", 1);
        }
        if !f.has_hex && f.files != 1 {
            return refuse(
                "Please provide either one bytecode file with --file or a hex string with --hex",
                1,
            );
        }
        return Ok(CliMode::Decompile);
    }
    Ok(CliMode::Compile)
}

/// Whether something was asked for that watching does not do.
pub fn watch_ignores_control_options(f: CliFlags) -> (r: bool)
    ensures
        r == (f.decompile || f.execute || f.has_fire || f.has_hex || f.has_output),
{
    f.decompile || f.execute || f.has_fire || f.has_hex || f.has_output
}

/// Why sources are not loaded, if they are not.
pub fn refuse_sources(f: CliFlags) -> (r: Option<&'static str>)
    ensures
        match r {
            Some(s) => (f.has_manifest && f.files > 0 && s@
                == "--manifest cannot be combined with --file"@) || (!f.has_manifest && f.has_run
                && s@ == "--run requires --manifest"@),
            None => !(f.has_manifest && f.files > 0) && !(!f.has_manifest && f.has_run),
        },
{
    if f.has_manifest {
        if f.files > 0 {
            Some("--manifest cannot be combined with --file")
        } else {
            None
        }
    } else if f.has_run {
        Some("--run requires --manifest")
    } else {
        None
    }
}

/// Where a device is reached.
#[derive(Debug, Clone, PartialEq, Eq)]
pub enum Endpoint {
    Serial(String),
    Tcp(String),
}

/// How a place where a device is reached is called.
pub open spec fn endpoint_label(e: Endpoint, baud: u32) -> Seq<char> {
    match e {
        Endpoint::Serial(path) => "serial "@ + path@ + " @ "@ + text::dec(baud as nat) + " baud"@,
        Endpoint::Tcp(addr) => "tcp "@ + addr@,
    }
}

impl Endpoint {
    /// How the place is called.
    pub fn label(&self, baud: u32) -> (s: String)
        ensures
            s@ == endpoint_label(*self, baud),
    {
        match self {
            Endpoint::Serial(path) => {
                let mut s: String = two("serial ", path.as_str());
                s.push_str(" @ ");
                push_dec(&mut s, baud as u128);
                s.push_str(" baud");
                s
            },
            Endpoint::Tcp(addr) => two("tcp ", addr.as_str()),
        }
    }

    /// The place that is asked for: a serial line before an address.
    pub fn from_options(serial: Option<&str>, tcp: Option<&str>) -> (e: Option<Endpoint>)
        ensures
            match e {
                Some(Endpoint::Serial(p)) => serial matches Some(s) && p@ == s@,
                Some(Endpoint::Tcp(a)) => serial is None && (tcp matches Some(t) && a@ == t@),
                None => serial is None && tcp is None,
            },
    {
        match serial {
            Some(s) => Some(Endpoint::Serial(s.to_owned())),
            None => match tcp {
                Some(t) => Some(Endpoint::Tcp(t.to_owned())),
                None => None,
            },
        }
    }
}

/// What is sent to a device that is to be controlled.
#[derive(Debug, Clone, Copy, PartialEq, Eq, Structural)]
pub enum ControlStep {
    Ping,
    Stop,
    Reset,
}

/// What is sent to a device, in order.
pub open spec fn control_steps(stop: bool, reset_mcu: bool, ping: bool) -> Seq<ControlStep> {
    let a = if ping {
        seq![ControlStep::Ping]
    } else {
        Seq::empty()
    };
    let b = if stop {
        a.push(ControlStep::Stop)
    } else {
        a
    };
    if reset_mcu {
        b.push(ControlStep::Reset)
    } else {
        b
    }
}

/// What is sent to a device, in order.
pub fn plan_control(stop: bool, reset_mcu: bool, ping: bool) -> (steps: Vec<ControlStep>)
    ensures
        steps@ == control_steps(stop, reset_mcu, ping),
{
    let mut steps: Vec<ControlStep> = Vec::new();
    if ping {
        steps.push(ControlStep::Ping);
        assert(steps@ =~= seq![ControlStep::Ping]);
    }
    if stop {
        steps.push(ControlStep::Stop);
    }
    if reset_mcu {
        steps.push(ControlStep::Reset);
    }
    steps
}

/// What is told once something was sent, or why it failed.
pub fn control_text(step: ControlStep, r: &Result<(), String>) -> (s: String)
    ensures
        s@ == (match r {
            Ok(_) => match step {
                ControlStep::Ping => "✓ PONG"@,
                ControlStep::Stop => "✓ Stopped background IRQ/report stream"@,
                ControlStep::Reset => "✓ Reset MCU rseq program state"@,
            },
            Err(e) => (match step {
                ControlStep::Ping => "PING failed: "@,
                ControlStep::Stop => "STOP failed: "@,
                ControlStep::Reset => "RESET failed: "@,
            }) + e@,
        }),
{
    match r {
        Ok(_) => match step {
            ControlStep::Ping => "✓ PONG".to_owned(),
            ControlStep::Stop => "✓ Stopped background IRQ/report stream".to_owned(),
            ControlStep::Reset => "✓ Reset MCU rseq program state".to_owned(),
        },
        Err(e) => {
            let what = match step {
                ControlStep::Ping => "PING failed: ",
                ControlStep::Stop => "STOP failed: ",
                ControlStep::Reset => "RESET failed: ",
            };
            two(what, e.as_str())
        },
    }
}

/// What reports are saved as.
#[derive(Debug, Clone, Copy, PartialEq, Eq, Structural)]
pub enum SaveKind {
    Nothing,
    Csv,
    Bin,
}

/// What reports are saved as, by the extension of the file, or why they are not.
pub fn choose_save_sink(path: Option<(&str, Option<&str>)>) -> (r: Result<SaveKind, String>)
    ensures
        match path {
            None => r == Ok::<SaveKind, String>(SaveKind::Nothing),
            Some((shown, Some(ext))) => if ext@ == "csv"@ {
                r == Ok::<SaveKind, String>(SaveKind::Csv)
            } else if ext@ == "bin"@ {
                r == Ok::<SaveKind, String>(SaveKind::Bin)
            } else {
                r matches Err(e) && e@ == "--save "@ + shown@ + " has unsupported extension '."@
                    + ext@ + "', expected .csv or .bin"@
            },
            Some((shown, None)) => r matches Err(e) && e@ == "--save "@ + shown@
                + " must end with .csv or .bin"@,
        },
{
    match path {
        None => Ok(SaveKind::Nothing),
        Some((shown, ext)) => match ext {
            Some(ext) => if same_text(ext, "csv") {
                Ok(SaveKind::Csv)
            } else if same_text(ext, "bin") {
                Ok(SaveKind::Bin)
            } else {
                let mut s: String = two("--save ", shown);
                s.push_str(" has unsupported extension '.");
                s.push_str(ext);
                s.push_str("', expected .csv or .bin");
                Err(s)
            },
            None => {
                let mut s: String = two("--save ", shown);
                s.push_str(" must end with .csv or .bin");
                Err(s)
            },
        },
    }
}

// ---- what is printed

pub(crate) fn push_line(lines: &mut Vec<String>, line: String)
    ensures
        text::texts(final(lines)@) == text::texts(old(lines)@).push(line@),
{
    lines.push(line);
    assert(text::texts(lines@) =~= text::texts(old(lines)@).push(line@));
}

/// The lines of a statement under the number of its step.
pub open spec fn step_lines(step: nat, stmt: Stmt) -> Seq<Seq<char>> {
    seq!["  Step "@ + text::dec(step) + ":"@] + listing::stmt_lines(stmt)
}

/// The lines of statements, the first being `step`.
pub open spec fn steps_lines(step: nat, stmts: Seq<Stmt>) -> Seq<Seq<char>>
    decreases stmts.len(),
{
    if stmts.len() == 0 {
        Seq::empty()
    } else {
        steps_lines(step, stmts.drop_last()) + step_lines(
            (step + stmts.len() - 1) as nat,
            stmts.last(),
        )
    }
}

/// How many statements sources have.
pub open spec fn stmt_count(sources: Seq<ParsedSource>) -> nat
    decreases sources.len(),
{
    if sources.len() == 0 {
        0
    } else {
        stmt_count(sources.drop_last()) + sources.last().stmts@.len()
    }
}

/// The lines of sources. They are named where there are several, and steps are counted through.
pub open spec fn sources_lines(sources: Seq<ParsedSource>, named: bool) -> Seq<Seq<char>>
    decreases sources.len(),
{
    if sources.len() == 0 {
        Seq::empty()
    } else {
        let rest = sources.drop_last();
        let head = if named {
            seq!["  Source: "@ + sources.last().name@]
        } else {
            Seq::empty()
        };
        sources_lines(rest, named) + head + steps_lines(
            stmt_count(rest) + 1,
            sources.last().stmts@,
        )
    }
}

pub(crate) fn push_lines(lines: &mut Vec<String>, more: Vec<String>)
    ensures
        text::texts(final(lines)@) == text::texts(old(lines)@) + text::texts(more@),
{
    let ghost before = text::texts(lines@);
    let ghost all = text::texts(more@);
    let mut i: usize = 0;
    assert(before + all.take(0) =~= before);
    while i < more.len()
        invariant
            i <= more.len(),
            all == text::texts(more@),
            text::texts(lines@) == before + all.take(i as int),
        decreases more.len() - i,
    {
        assert(all[i as int] == more@[i as int]@);
        push_line(lines, more[i].clone());
        assert(before + all.take(i + 1) =~= (before + all.take(i as int)).push(all[i as int]));
        i += 1;
    }
    assert(all.take(all.len() as int) =~= all);
}

fn push_steps(lines: &mut Vec<String>, step: u128, stmts: &[Stmt])
    requires
        step <= 0xffff_ffff_ffff_ffff_0000_0000_0000_0000,
    ensures
        text::texts(final(lines)@) == text::texts(old(lines)@) + steps_lines(step as nat, stmts@),
{
    let ghost before = text::texts(lines@);
    let mut i: usize = 0;
    assert(stmts@.take(0) =~= Seq::<Stmt>::empty());
    assert(before + steps_lines(step as nat, stmts@.take(0)) =~= before);
    while i < stmts.len()
        invariant
            i <= stmts.len(),
            step <= 0xffff_ffff_ffff_ffff_0000_0000_0000_0000,
            text::texts(lines@) == before + steps_lines(step as nat, stmts@.take(i as int)),
        decreases stmts.len() - i,
    {
        assert(stmts@.take(i + 1).drop_last() =~= stmts@.take(i as int));
        let mut s: String = "  Step ".to_owned();
        push_dec(&mut s, step + i as u128);
        s.push_str(":");
        push_line(lines, s);
        push_lines(lines, list_stmt(&stmts[i]));
        assert(text::texts(lines@) =~= before + steps_lines(step as nat, stmts@.take(i + 1)));
        i += 1;
    }
    assert(stmts@.take(stmts@.len() as int) =~= stmts@);
}

/// The statements of sources as they are listed.
pub fn list_sources(sources: &[ParsedSource]) -> (lines: Vec<String>)
    ensures
        text::texts(lines@) == sources_lines(sources@, sources@.len() > 1),
{
    let named: bool = sources.len() > 1;
    let mut lines: Vec<String> = Vec::new();
    let mut count: u128 = 0;
    let mut i: usize = 0;
    assert(sources@.take(0) =~= Seq::<ParsedSource>::empty());
    assert(text::texts(lines@) =~= sources_lines(sources@.take(0), named));
    while i < sources.len()
        invariant
            i <= sources.len(),
            count == stmt_count(sources@.take(i as int)),
            count <= i * 0xffff_ffff_ffff_ffff,
            text::texts(lines@) == sources_lines(sources@.take(i as int), named),
        decreases sources.len() - i,
    {
        let ghost before = text::texts(lines@);
        assert(sources@.take(i + 1).drop_last() =~= sources@.take(i as int));
        assert(i * 0xffff_ffff_ffff_ffff <= 0xffff_ffff_ffff_ffff * 0xffff_ffff_ffff_ffff) by (nonlinear_arith)
            requires
                i <= 0xffff_ffff_ffff_ffff,
        ;
        assert((i + 1) * 0xffff_ffff_ffff_ffff == i * 0xffff_ffff_ffff_ffff + 0xffff_ffff_ffff_ffff)
            by (nonlinear_arith);
        if named {
            push_line(&mut lines, two("  Source: ", sources[i].name.as_str()));
        }
        push_steps(&mut lines, count + 1, &sources[i].stmts);
        assert(text::texts(lines@) =~= sources_lines(sources@.take(i + 1), named));
        count += sources[i].stmts.len() as u128;
        i += 1;
    }
    assert(sources@.take(sources@.len() as int) =~= sources@);
    lines
}

/// An event of an interrupt: its name, its mask, and how many statements it runs.
#[derive(Debug, Clone, PartialEq, Eq)]
pub struct VectorArm {
    pub event: String,
    pub mask: u32,
    pub statements: usize,
}

/// An interrupt handler: its pin, the status that it reads, its events, and how many bytes it is
/// compiled to.
#[derive(Debug, Clone, PartialEq, Eq)]
pub struct IrqVector {
    pub pin: String,
    pub snapshot_addr: u32,
    pub snapshot_len: u8,
    pub read_clear: bool,
    pub arms: Vec<VectorArm>,
    pub bytecode: Option<usize>,
}

/// The lines of an event.
pub open spec fn arm_lines(a: VectorArm) -> Seq<Seq<char>> {
    seq![
        "    on("@ + a.event@ + ") when status & 0x"@ + text::hex(a.mask as nat, 1) + ":"@,
        "        inline body: "@ + text::dec(a.statements as nat) + " statement(s)"@,
    ]
}

/// The lines of events.
pub open spec fn arms_lines(arms: Seq<VectorArm>) -> Seq<Seq<char>>
    decreases arms.len(),
{
    if arms.len() == 0 {
        Seq::empty()
    } else {
        arms_lines(arms.drop_last()) + arm_lines(arms.last())
    }
}

/// The lines of an interrupt handler.
pub open spec fn vector_lines(v: IrqVector) -> Seq<Seq<char>> {
    let head = seq![
        "  irq!("@ + v.pin@ + ") — read "@ + text::dec(v.snapshot_len as nat) + " byte(s) @ 0x"@
            + text::hex(v.snapshot_addr as nat, 8) + (if v.read_clear {
            " (read-clears)"@
        } else {
            ""@
        }) + ":"@,
    ];
    let body = head + arms_lines(v.arms@);
    match v.bytecode {
        Some(n) => body.push("    Segment bytecode: "@ + text::dec(n as nat) + " bytes"@),
        None => body,
    }
}

/// An interrupt handler as it is listed.
pub fn list_vector(v: &IrqVector) -> (lines: Vec<String>)
    ensures
        text::texts(lines@) == vector_lines(*v),
{
    let mut lines: Vec<String> = Vec::new();
    assert(text::texts(lines@) =~= Seq::<Seq<char>>::empty());
    let mut s: String = two("  irq!(", v.pin.as_str());
    s.push_str(") — read ");
    push_dec(&mut s, v.snapshot_len as u128);
    s.push_str(" byte(s) @ 0x");
    push_hex(&mut s, v.snapshot_addr as u128, 8);
    s.push_str(
        if v.read_clear {
            " (read-clears)"
        } else {
            ""
        },
    );
    s.push_str(":");
    push_line(&mut lines, s);
    let ghost head = seq![s@];
    assert(text::texts(lines@) =~= head);
    let mut i: usize = 0;
    assert(v.arms@.take(0) =~= Seq::<VectorArm>::empty());
    assert(head =~= head + arms_lines(v.arms@.take(0)));
    while i < v.arms.len()
        invariant
            i <= v.arms.len(),
            text::texts(lines@) == head + arms_lines(v.arms@.take(i as int)),
        decreases v.arms.len() - i,
    {
        assert(v.arms@.take(i + 1).drop_last() =~= v.arms@.take(i as int));
        let a = &v.arms[i];
        let mut first: String = two("    on(", a.event.as_str());
        first.push_str(") when status & 0x");
        push_hex(&mut first, a.mask as u128, 1);
        first.push_str(":");
        push_line(&mut lines, first);
        let mut second: String = "        inline body: ".to_owned();
        push_dec(&mut second, a.statements as u128);
        second.push_str(" statement(s)");
        push_line(&mut lines, second);
        assert(text::texts(lines@) =~= head + arms_lines(v.arms@.take(i + 1)));
        i += 1;
    }
    assert(v.arms@.take(v.arms@.len() as int) =~= v.arms@);
    match v.bytecode {
        Some(n) => {
            let mut s: String = "    Segment bytecode: ".to_owned();
            push_dec(&mut s, n as u128);
            s.push_str(" bytes");
            push_line(&mut lines, s);
        },
        None => {},
    }
    lines
}

/// An interrupt that is made to happen: what is put where, and what is told.
#[derive(Debug, Clone, PartialEq, Eq)]
pub struct Injection {
    pub addr: u32,
    pub bytes: Vec<u8>,
    pub message: String,
}

/// The first handler of a pin.
pub open spec fn vector_of(vectors: Seq<IrqVector>, pin: Seq<char>) -> Option<IrqVector>
    decreases vectors.len(),
{
    if vectors.len() == 0 {
        None
    } else if vectors[0].pin@ == pin {
        Some(vectors[0])
    } else {
        vector_of(vectors.skip(1), pin)
    }
}

/// What is told of an interrupt that is made to happen.
pub open spec fn injection_text(v: IrqVector, status: nat) -> Seq<char> {
    "Injected irq!("@ + v.pin@ + ") snapshot 0x"@ + text::hex(status, 8) + " at 0x"@ + text::hex(
        v.snapshot_addr as nat,
        8,
    ) + " ("@ + text::dec(v.snapshot_len as nat) + " byte(s))"@
}

/// The interrupt that is to be made to happen, or why none is.
pub fn plan_injection(given: &str, vectors: &[IrqVector]) -> (r: Result<Injection, String>)
    requires
        numbers::fire_spec(given@) matches Ok((pin, _)) ==> (vector_of(vectors@, pin) matches Some(v)
            ==> v.snapshot_len <= 4),
    ensures
        match numbers::fire_spec(given@) {
            Err(e) => r matches Err(s) && s@ == e,
            Ok((pin, status)) => match vector_of(vectors@, pin) {
                None => r matches Err(s) && s@ == "--fire references unknown irq pin '"@ + pin
                    + "'"@,
                Some(v) => r matches Ok(j) && {
                    &&& j.addr == v.snapshot_addr
                    &&& j.bytes@ == crate::le::le32(status as u32).take(v.snapshot_len as int)
                    &&& j.message@ == injection_text(v, status)
                },
            },
        },
{
    let (pin, status): (String, u32) = match parse_fire_spec(given) {
        Ok(p) => p,
        Err(e) => {
            return Err(e);
        },
    };
    let mut i: usize = 0;
    assert(vectors@.skip(0) =~= vectors@);
    while i < vectors.len()
        invariant
            i <= vectors.len(),
            vector_of(vectors@, pin@) matches Some(v) ==> v.snapshot_len <= 4,
            numbers::fire_spec(given@) == Ok::<(Seq<char>, nat), Seq<char>>((pin@, status as nat)),
            vector_of(vectors@, pin@) == vector_of(vectors@.skip(i as int), pin@),
        decreases vectors.len() - i,
    {
        assert(vectors@.skip(i as int)[0] == vectors@[i as int]);
        assert(vectors@.skip(i as int).skip(1) =~= vectors@.skip(i + 1));
        let v = &vectors[i];
        if same_text(v.pin.as_str(), pin.as_str()) {
            assert(vectors@[i as int].snapshot_len <= 4);
            let all: Vec<u8> = status_bytes(status);
            let bytes: Vec<u8> = crate::le::copy_range(&all, 0, v.snapshot_len as usize);
            assert(bytes@ =~= crate::le::le32(status).take(v.snapshot_len as int));
            let mut s: String = two("Injected irq!(", v.pin.as_str());
            s.push_str(") snapshot 0x");
            push_hex(&mut s, status as u128, 8);
            s.push_str(" at 0x");
            push_hex(&mut s, v.snapshot_addr as u128, 8);
            s.push_str(" (");
            push_dec(&mut s, v.snapshot_len as u128);
            s.push_str(" byte(s))");
            return Ok(Injection { addr: v.snapshot_addr, bytes, message: s });
        }
        i += 1;
    }
    let mut s: String = two("--fire references unknown irq pin '", pin.as_str());
    s.push_str("'");
    Err(s)
}

fn status_bytes(status: u32) -> (v: Vec<u8>)
    ensures
        v@ == crate::le::le32(status),
{
    let mut v: Vec<u8> = Vec::new();
    crate::le::push_u32(&mut v, status);
    assert(v@ =~= crate::le::le32(status));
    v
}

/// Bytes as they are listed.
pub open spec fn listed_bytes(data: Seq<u8>) -> Seq<char> {
    text::joined(data.map_values(|b: u8| "0x"@ + text::hex(b as nat, 2)), ", "@)
}

fn list_bytes(data: &[u8]) -> (s: String)
    ensures
        s@ == listed_bytes(data@),
{
    let ghost all = data@.map_values(|b: u8| "0x"@ + text::hex(b as nat, 2));
    let mut parts: Vec<String> = Vec::new();
    let mut i: usize = 0;
    while i < data.len()
        invariant
            i <= data.len(),
            all == data@.map_values(|b: u8| "0x"@ + text::hex(b as nat, 2)),
            text::texts(parts@) == all.take(i as int),
        decreases data.len() - i,
    {
        let mut p: String = "0x".to_owned();
        push_hex(&mut p, data[i] as u128, 2);
        push_line(&mut parts, p);
        assert(all.take(i + 1) =~= all.take(i as int).push(all[i as int]));
        i += 1;
    }
    assert(all.take(all.len() as int) =~= all);
    join(&parts, ", ")
}

/// What is listed of an operation.
pub open spec fn op_text(kinds: ReportKinds, op: BusOp) -> Seq<char> {
    match op {
        BusOp::BusSelect { bus, arg } => "Select "@ + bus@ + " bus"@ + (if arg == 0 {
            ""@
        } else {
            " arg=0x"@ + text::hex(arg as nat, 1)
        }),
        BusOp::Write { addr, data } => "Write ["@ + listed_bytes(data@) + "] → 0x"@ + text::hex(
            addr as nat,
            8,
        ),
        BusOp::Read { addr, data } => "Read "@ + text::dec(data@.len()) + " bytes from 0x"@
            + text::hex(addr as nat, 8) + " → ["@ + listed_bytes(data@) + "]"@,
        BusOp::Delay { us } => "Delay "@ + text::dec(us as nat) + " μs"@,
        BusOp::Log { msg } => "print "@ + listing::quoted(msg@),
        BusOp::Irq { pin } => "IRQ pin "@ + text::dec(pin as nat) + " fired"@,
        BusOp::Report { meta, kind, args } => "Report "@ + report::kind_label(kinds.names@, kind)
            + report::meta_text(meta) + " args ["@ + crate::watch_text::watch_args(
            report::arg_views(args@),
        ) + "]"@,
    }
}

/// The lines of operations.
pub open spec fn op_lines(kinds: ReportKinds, ops: Seq<BusOp>) -> Seq<Seq<char>> {
    if ops.len() == 0 {
        seq!["No bus operations recorded"@]
    } else {
        seq!["Bus operations (in execution order):"@] + Seq::new(
            ops.len(),
            |i: int| "  Step "@ + text::dec((i + 1) as nat) + ": "@ + op_text(kinds, ops[i]),
        )
    }
}

fn format_op(kinds: &ReportKinds, op: &BusOp) -> (s: String)
    ensures
        s@ == op_text(*kinds, *op),
{
    match op {
        BusOp::BusSelect { bus, arg } => {
            let mut s: String = two("Select ", bus.as_str());
            s.push_str(" bus");
            let ghost before = s@;
            if *arg == 0 {
                s.push_str("");
            } else {
                let mut a: String = " arg=0x".to_owned();
                push_hex(&mut a, *arg as u128, 1);
                s.push_str(a.as_str());
            }
            s
        },
        BusOp::Write { addr, data } => {
            let mut s: String = two("Write [", list_bytes(data).as_str());
            s.push_str("] → 0x");
            push_hex(&mut s, *addr as u128, 8);
            s
        },
        BusOp::Read { addr, data } => {
            let mut s: String = two("Read ", dec_text(data.len() as u128).as_str());
            s.push_str(" bytes from 0x");
            push_hex(&mut s, *addr as u128, 8);
            s.push_str(" → [");
            s.push_str(list_bytes(data).as_str());
            s.push_str("]");
            s
        },
        BusOp::Delay { us } => {
            let mut s: String = two("Delay ", dec_text(*us as u128).as_str());
            s.push_str(" μs");
            s
        },
        BusOp::Log { msg } => two("print ", quote(msg.as_str()).as_str()),
        BusOp::Irq { pin } => {
            let mut s: String = two("IRQ pin ", dec_text(*pin as u128).as_str());
            s.push_str(" fired");
            s
        },
        BusOp::Report { meta, kind, args } => {
            let mut s: String = two("Report ", report_kind_label(kinds, *kind).as_str());
            s.push_str(format_report_meta(*meta).as_str());
            s.push_str(" args [");
            s.push_str(crate::watch_text::format_watch_args(args).as_str());
            s.push_str("]");
            s
        },
    }
}

/// Operations as they are listed.
pub fn list_bus_ops(kinds: &ReportKinds, ops: &[BusOp]) -> (lines: Vec<String>)
    ensures
        text::texts(lines@) == op_lines(*kinds, ops@),
{
    let mut lines: Vec<String> = Vec::new();
    assert(text::texts(lines@) =~= Seq::<Seq<char>>::empty());
    if ops.len() == 0 {
        push_line(&mut lines, "No bus operations recorded".to_owned());
        assert(text::texts(lines@) =~= op_lines(*kinds, ops@));
        return lines;
    }
    let first = "Bus operations (in execution order):";
    push_line(&mut lines, first.to_owned());
    let ghost all = Seq::new(
        ops@.len(),
        |i: int| "  Step "@ + text::dec((i + 1) as nat) + ": "@ + op_text(*kinds, ops@[i]),
    );
    let mut i: usize = 0;
    assert(text::texts(lines@) =~= seq![first@] + all.take(0));
    while i < ops.len()
        invariant
            i <= ops.len(),
            all == Seq::new(
                ops@.len(),
                |i: int| "  Step "@ + text::dec((i + 1) as nat) + ": "@ + op_text(*kinds, ops@[i]),
            ),
            text::texts(lines@) == seq![first@] + all.take(i as int),
        decreases ops.len() - i,
    {
        let mut s: String = "  Step ".to_owned();
        push_dec(&mut s, i as u128 + 1);
        s.push_str(": ");
        s.push_str(format_op(kinds, &ops[i]).as_str());
        push_line(&mut lines, s);
        assert(seq![first@] + all.take(i + 1) =~= (seq![first@] + all.take(i as int)).push(
            all[i as int],
        ));
        i += 1;
    }
    assert(all.take(all.len() as int) =~= all);
    lines
}

} // verus!
