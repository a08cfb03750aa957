//! Sequences as statements, and what they declare.
use crate::decoder;
use crate::decoder::DecoderView;
use crate::decoder_options;
use crate::decoder_options::{build_report_decoder, ReportOption};
use crate::samples::ReportDecoderRegistry;
use crate::text;
use crate::text::same_text;
use vstd::prelude::*;

verus! {

/// A value in a statement.
#[derive(Debug, PartialEq, Eq)]
pub enum Value {
    Number(u32),
    Ident(String),
    Array(Vec<Value>),
    FieldMap(Vec<(String, u32)>),
}

/// An expression in a statement.
#[derive(Debug, PartialEq, Eq)]
pub enum Expr {
    Read { addr: Value, len: Value, delay_us: Option<u32> },
    Number(u32),
    Ident(String),
    Binary { op: String, lhs: Box<Expr>, rhs: Box<Expr> },
    Unary { op: String, expr: Box<Expr> },
}

/// What is done on one event of an interrupt.
#[derive(Debug, PartialEq, Eq)]
pub struct IrqArm {
    pub event: String,
    pub body: Vec<Stmt>,
}

/// A statement. Of a report format, `shown` is how the values of the options are written.
#[allow(inconsistent_fields)]
#[derive(Debug, PartialEq, Eq)]
pub enum Stmt {
    Chip { path: String },
    Bus { kind: String, arg: Option<u32> },
    BusProbe { kind: String, options: Vec<(String, Value)> },
    Let { name: String, expr: Expr },
    Write { addr: Value, val: Value, delay_us: Option<u32> },
    Update { target: String, val: Value, delay_us: Option<u32> },
    Irq { pin: String, arms: Vec<IrqArm> },
    Wait { pin: String, timeout_ms: u32 },
    Repeat { count: u32, body: Vec<Stmt> },
    Read { addr: Value, len: Value, delay_us: Option<u32> },
    If { cond: Expr, then_: Vec<Stmt>, else_: Vec<Stmt> },
    Print { msg: String, vars: Vec<String> },
    Report { kind: Value, values: Vec<Expr> },
    ReportFormat { kind: Value, decoder: String, options: Vec<ReportOption>, shown: Vec<String> },
}

// ---- chip descriptions

/// The chip descriptions that statements name, in order, those in nested statements too.
pub open spec fn chip_paths(stmts: Seq<Stmt>) -> Seq<Seq<char>>
    decreases stmts,
{
    if stmts.len() == 0 {
        Seq::empty()
    } else {
        stmt_chip_paths(stmts[0]) + chip_paths(stmts.skip(1))
    }
}

/// The chip descriptions that a statement names.
pub open spec fn stmt_chip_paths(stmt: Stmt) -> Seq<Seq<char>>
    decreases stmt,
{
    match stmt {
        Stmt::Chip { path } => seq![path@],
        Stmt::Irq { arms, .. } => arms_chip_paths(arms@),
        Stmt::Repeat { body, .. } => chip_paths(body@),
        Stmt::If { then_, else_, .. } => chip_paths(then_@) + chip_paths(else_@),
        _ => Seq::empty(),
    }
}

/// The chip descriptions that the arms of an interrupt name.
pub open spec fn arms_chip_paths(arms: Seq<IrqArm>) -> Seq<Seq<char>>
    decreases arms,
{
    if arms.len() == 0 {
        Seq::empty()
    } else {
        chip_paths(arms[0].body@) + arms_chip_paths(arms.skip(1))
    }
}

proof fn lemma_texts_push(v: Seq<String>, s: String)
    ensures
        text::texts(v.push(s)) == text::texts(v).push(s@),
{
    assert(text::texts(v.push(s)) =~= text::texts(v).push(s@));
}

/// Appends the chip descriptions that statements name.
pub fn collect_chip_paths(stmts: &[Stmt], paths: &mut Vec<String>)
    ensures
        text::texts(final(paths)@) == text::texts(old(paths)@) + chip_paths(stmts@),
    decreases stmts@,
{
    let ghost start = text::texts(paths@);
    let mut i: usize = 0;
    proof {
        assert(stmts@.skip(0) =~= stmts@);
        assert(start + chip_paths(stmts@) =~= text::texts(paths@) + chip_paths(stmts@.skip(0)));
    }
    while i < stmts.len()
        invariant
            i <= stmts.len(),
            start + chip_paths(stmts@) == text::texts(paths@) + chip_paths(stmts@.skip(i as int)),
        decreases stmts.len() - i,
    {
        let ghost before = text::texts(paths@);
        let ghost here = stmt_chip_paths(stmts@[i as int]);
        let ghost rest = chip_paths(stmts@.skip(i + 1));
        proof {
            assert(stmts@.skip(i as int)[0] == stmts@[i as int]);
            assert(stmts@.skip(i as int).skip(1) =~= stmts@.skip(i + 1));
            assert(before + (here + rest) =~= (before + here) + rest);
        }
        collect_stmt_chip_paths(&stmts[i], paths);
        i += 1;
    }
    assert(text::texts(paths@) + Seq::<Seq<char>>::empty() =~= text::texts(paths@));
}

fn collect_stmt_chip_paths(stmt: &Stmt, paths: &mut Vec<String>)
    ensures
        text::texts(final(paths)@) == text::texts(old(paths)@) + stmt_chip_paths(*stmt),
    decreases stmt,
{
    let ghost start = text::texts(paths@);
    match stmt {
        Stmt::Chip { path } => {
            let p = path.clone();
            proof {
                lemma_texts_push(paths@, p);
            }
            paths.push(p);
            assert(text::texts(paths@) =~= start + seq![path@]);
        },
        Stmt::Irq { arms, .. } => {
            collect_arms_chip_paths(arms, paths);
        },
        Stmt::Repeat { body, .. } => {
            collect_chip_paths(body, paths);
        },
        Stmt::If { then_, else_, .. } => {
            collect_chip_paths(then_, paths);
            collect_chip_paths(else_, paths);
            assert(text::texts(paths@) =~= start + (chip_paths(then_@) + chip_paths(else_@)));
        },
        _ => {
            assert(start + Seq::<Seq<char>>::empty() =~= start);
        },
    }
}

fn collect_arms_chip_paths(arms: &[IrqArm], paths: &mut Vec<String>)
    ensures
        text::texts(final(paths)@) == text::texts(old(paths)@) + arms_chip_paths(arms@),
    decreases arms@,
{
    let ghost start = text::texts(paths@);
    let mut i: usize = 0;
    proof {
        assert(arms@.skip(0) =~= arms@);
    }
    while i < arms.len()
        invariant
            i <= arms.len(),
            start + arms_chip_paths(arms@) == text::texts(paths@) + arms_chip_paths(
                arms@.skip(i as int),
            ),
        decreases arms.len() - i,
    {
        let ghost before = text::texts(paths@);
        let ghost here = chip_paths(arms@[i as int].body@);
        let ghost rest = arms_chip_paths(arms@.skip(i + 1));
        proof {
            assert(arms@.skip(i as int)[0] == arms@[i as int]);
            assert(arms@.skip(i as int).skip(1) =~= arms@.skip(i + 1));
            assert(before + (here + rest) =~= (before + here) + rest);
        }
        collect_chip_paths(&arms[i].body, paths);
        i += 1;
    }
    assert(text::texts(paths@) + Seq::<Seq<char>>::empty() =~= text::texts(paths@));
}

/// Where a chip description was found, if it was: the first entry of the table.
pub open spec fn found_at(table: Seq<(String, String)>, path: Seq<char>) -> Option<Seq<char>>
    decreases table.len(),
{
    if table.len() == 0 {
        None
    } else if table[0].0@ == path {
        Some(table[0].1@)
    } else {
        found_at(table.skip(1), path)
    }
}

/// The path under which a chip description is used: where it was found, else as it was named.
pub open spec fn resolved(table: Seq<(String, String)>, path: Seq<char>) -> Seq<char> {
    match found_at(table, path) {
        Some(p) => p,
        None => path,
    }
}

/// Whether `b` is `a` with the chip descriptions used under the paths where they were found.
pub open spec fn stmts_resolved(
    a: Seq<Stmt>,
    b: Seq<Stmt>,
    table: Seq<(String, String)>,
) -> bool
    decreases a,
{
    &&& a.len() == b.len()
    &&& a.len() > 0 ==> {
        &&& stmt_resolved(a[0], b[0], table)
        &&& stmts_resolved(a.skip(1), b.skip(1), table)
    }
}

/// Whether `b` is the statement `a` with the paths where chip descriptions were found.
pub open spec fn stmt_resolved(a: Stmt, b: Stmt, table: Seq<(String, String)>) -> bool
    decreases a,
{
    match a {
        Stmt::Chip { path } => b matches Stmt::Chip { path: q } && q@ == resolved(table, path@),
        Stmt::Irq { pin, arms } => b matches Stmt::Irq { pin: p, arms: r } && p == pin
            && arms_resolved(arms@, r@, table),
        Stmt::Repeat { count, body } => b matches Stmt::Repeat { count: c, body: r } && c == count
            && stmts_resolved(body@, r@, table),
        Stmt::If { cond, then_, else_ } => b matches Stmt::If { cond: c, then_: t, else_: e } && c
            == cond && stmts_resolved(then_@, t@, table) && stmts_resolved(else_@, e@, table),
        _ => b == a,
    }
}

/// Whether `b` are the arms `a` with the paths where chip descriptions were found.
pub open spec fn arms_resolved(a: Seq<IrqArm>, b: Seq<IrqArm>, table: Seq<(String, String)>) -> bool
    decreases a,
{
    &&& a.len() == b.len()
    &&& a.len() > 0 ==> {
        &&& a[0].event == b[0].event
        &&& stmts_resolved(a[0].body@, b[0].body@, table)
        &&& arms_resolved(a.skip(1), b.skip(1), table)
    }
}

fn lookup(table: &[(String, String)], path: &str) -> (r: Option<String>)
    ensures
        (match r {
            Some(p) => Some(p@),
            None => None,
        }) == found_at(table@, path@),
{
    let mut i: usize = 0;
    assert(table@.skip(0) =~= table@);
    while i < table.len()
        invariant
            i <= table.len(),
            found_at(table@, path@) == found_at(table@.skip(i as int), path@),
        decreases table.len() - i,
    {
        assert(table@.skip(i as int)[0] == table@[i as int]);
        assert(table@.skip(i as int).skip(1) =~= table@.skip(i + 1));
        if same_text(table[i].0.as_str(), path) {
            return Some(table[i].1.clone());
        }
        i += 1;
    }
    None
}

/// Replaces the paths of chip descriptions by those where they were found.
pub fn resolve_program_chip_paths(stmts: &mut Vec<Stmt>, table: &[(String, String)])
    ensures
        stmts_resolved(old(stmts)@, final(stmts)@, table@),
    decreases old(stmts)@,
{
    let ghost start = stmts@;
    let n: usize = stmts.len();
    let mut i: usize = n;
    assert(stmts_resolved(start.skip(n as int), stmts@.skip(n as int), table@));
    while i > 0
        invariant
            i <= n,
            n == stmts@.len() == start.len(),
            start == old(stmts)@,
            stmts@.take(i as int) == start.take(i as int),
            stmts_resolved(start.skip(i as int), stmts@.skip(i as int), table@),
        decreases i,
    {
        i -= 1;
        let ghost before = stmts@;
        assert(stmts@[i as int] == stmts@.take(i + 1)[i as int]);
        assert(start[i as int] == start.take(i + 1)[i as int]);
        let stmt = &mut stmts[i];
        resolve_stmt(stmt, table);
        proof {
            let a = start.skip(i as int);
            let b = stmts@.skip(i as int);
            assert(a.skip(1) =~= start.skip(i + 1));
            assert(b.skip(1) =~= before.skip(i + 1));
            assert(stmts@.take(i as int) =~= start.take(i as int)) by {
                assert(before.take(i + 1).take(i as int) =~= before.take(i as int));
                assert(start.take(i + 1).take(i as int) =~= start.take(i as int));
            }
        }
    }
    assert(start.skip(0) =~= start);
    assert(stmts@.skip(0) =~= stmts@);
}

fn resolve_stmt(stmt: &mut Stmt, table: &[(String, String)])
    ensures
        stmt_resolved(*old(stmt), *final(stmt), table@),
    decreases *old(stmt),
{
    match stmt {
        Stmt::Chip { path } => {
            match lookup(table, path.as_str()) {
                Some(p) => {
                    *path = p;
                },
                None => {},
            }
        },
        Stmt::Irq { arms, .. } => {
            resolve_arms(arms, table);
        },
        Stmt::Repeat { body, .. } => {
            resolve_program_chip_paths(body, table);
        },
        Stmt::If { then_, else_, .. } => {
            resolve_program_chip_paths(then_, table);
            resolve_program_chip_paths(else_, table);
        },
        _ => {},
    }
}

fn resolve_arms(arms: &mut Vec<IrqArm>, table: &[(String, String)])
    ensures
        arms_resolved(old(arms)@, final(arms)@, table@),
    decreases old(arms)@,
{
    let ghost start = arms@;
    let n: usize = arms.len();
    let mut i: usize = n;
    while i > 0
        invariant
            i <= n,
            n == arms@.len() == start.len(),
            start == old(arms)@,
            arms@.take(i as int) == start.take(i as int),
            arms_resolved(start.skip(i as int), arms@.skip(i as int), table@),
        decreases i,
    {
        i -= 1;
        let ghost before = arms@;
        assert(arms@[i as int] == arms@.take(i + 1)[i as int]);
        assert(start[i as int] == start.take(i + 1)[i as int]);
        let arm = &mut arms[i];
        resolve_program_chip_paths(&mut arm.body, table);
        proof {
            let a = start.skip(i as int);
            let b = arms@.skip(i as int);
            assert(a.skip(1) =~= start.skip(i + 1));
            assert(b.skip(1) =~= before.skip(i + 1));
            assert(arms@.take(i as int) =~= start.take(i as int)) by {
                assert(before.take(i + 1).take(i as int) =~= before.take(i as int));
                assert(start.take(i + 1).take(i as int) =~= start.take(i as int));
            }
        }
    }
    assert(start.skip(0) =~= start);
    assert(arms@.skip(0) =~= arms@);
}

/// The paths under which the chip descriptions are used.
pub open spec fn all_resolved(table: Seq<(String, String)>, paths: Seq<Seq<char>>) -> Seq<Seq<char>> {
    paths.map_values(|p: Seq<char>| resolved(table, p))
}

/// Statements whose paths were replaced name the same chip descriptions in the same order,
/// each under the path where it was found.
pub proof fn law_resolved_paths(a: Seq<Stmt>, b: Seq<Stmt>, table: Seq<(String, String)>)
    requires
        stmts_resolved(a, b, table),
    ensures
        chip_paths(b) == all_resolved(table, chip_paths(a)),
    decreases a,
{
    if a.len() > 0 {
        lemma_stmt_resolved_paths(a[0], b[0], table);
        law_resolved_paths(a.skip(1), b.skip(1), table);
    }
    assert(chip_paths(b) =~= all_resolved(table, chip_paths(a)));
}

proof fn lemma_stmt_resolved_paths(a: Stmt, b: Stmt, table: Seq<(String, String)>)
    requires
        stmt_resolved(a, b, table),
    ensures
        stmt_chip_paths(b) == all_resolved(table, stmt_chip_paths(a)),
    decreases a,
{
    match (a, b) {
        (Stmt::Irq { arms, .. }, Stmt::Irq { arms: r, .. }) => {
            lemma_arms_resolved_paths(arms@, r@, table);
        },
        (Stmt::Repeat { body, .. }, Stmt::Repeat { body: r, .. }) => {
            law_resolved_paths(body@, r@, table);
        },
        (Stmt::If { then_, else_, .. }, Stmt::If { then_: t, else_: e, .. }) => {
            law_resolved_paths(then_@, t@, table);
            law_resolved_paths(else_@, e@, table);
        },
        _ => {},
    }
    assert(stmt_chip_paths(b) =~= all_resolved(table, stmt_chip_paths(a)));
}

proof fn lemma_arms_resolved_paths(a: Seq<IrqArm>, b: Seq<IrqArm>, table: Seq<(String, String)>)
    requires
        arms_resolved(a, b, table),
    ensures
        arms_chip_paths(b) == all_resolved(table, arms_chip_paths(a)),
    decreases a,
{
    if a.len() > 0 {
        law_resolved_paths(a[0].body@, b[0].body@, table);
        lemma_arms_resolved_paths(a.skip(1), b.skip(1), table);
    }
    assert(arms_chip_paths(b) =~= all_resolved(table, arms_chip_paths(a)));
}

// ---- report decoders

/// The kind that a name stands for: the first entry of the table.
pub open spec fn kind_named(values: Seq<(String, u32)>, name: Seq<char>) -> Option<u32>
    decreases values.len(),
{
    if values.len() == 0 {
        None
    } else if values[0].0@ == name {
        Some(values[0].1)
    } else {
        kind_named(values.skip(1), name)
    }
}

/// The kind of report that a value gives.
pub open spec fn kind_of(values: Seq<(String, u32)>, kind: Value) -> Result<u32, Seq<char>> {
    match kind {
        Value::Number(n) => Ok(n),
        Value::Ident(name) => match kind_named(values, name@) {
            Some(n) => Ok(n),
            None => Err("unknown report kind '"@ + name@ + "'"@),
        },
        _ => Err("report_format! kind must be a number or built-in report kind name"@),
    }
}

fn find_kind(values: &[(String, u32)], name: &str) -> (r: Option<u32>)
    ensures
        r == kind_named(values@, name@),
{
    let mut i: usize = 0;
    assert(values@.skip(0) =~= values@);
    while i < values.len()
        invariant
            i <= values.len(),
            kind_named(values@, name@) == kind_named(values@.skip(i as int), name@),
        decreases values.len() - i,
    {
        assert(values@.skip(i as int)[0] == values@[i as int]);
        assert(values@.skip(i as int).skip(1) =~= values@.skip(i + 1));
        if same_text(values[i].0.as_str(), name) {
            return Some(values[i].1);
        }
        i += 1;
    }
    None
}

/// The kind of report that a value gives.
pub fn report_kind_from_value(values: &[(String, u32)], kind: &Value) -> (r: Result<u32, String>)
    ensures
        (match r {
            Ok(n) => Ok(n),
            Err(e) => Err(e@),
        }) == kind_of(values@, *kind),
{
    match kind {
        Value::Number(n) => Ok(*n),
        Value::Ident(name) => match find_kind(values, name.as_str()) {
            Some(n) => Ok(n),
            None => {
                let mut e: String = "unknown report kind '".to_owned();
                e.push_str(name.as_str());
                e.push_str("'");
                Err(e)
            },
        },
        _ => Err(
            "report_format! kind must be a number or built-in report kind name".to_owned(),
        ),
    }
}

/// The decoders collected so far, and why no more are collected, if so.
pub struct Collected {
    pub decoders: Map<u32, DecoderView>,
    pub error: Option<Seq<char>>,
}

/// What is collected after a declaration.
pub open spec fn after_declaration(
    values: Seq<(String, u32)>,
    kind: Value,
    decoder: Seq<char>,
    options: Seq<ReportOption>,
    c: Collected,
) -> Collected {
    match kind_of(values, kind) {
        Err(e) => Collected { error: Some(e), ..c },
        Ok(k) => match decoder_options::declared(decoder, options) {
            Err(e) => Collected { error: Some(e), ..c },
            Ok(d) => Collected { decoders: c.decoders.insert(k, d), ..c },
        },
    }
}

/// What is collected after statements: a later declaration for a kind overrides an
/// earlier one, and the first that does not fit ends it.
pub open spec fn after_stmts(values: Seq<(String, u32)>, stmts: Seq<Stmt>, c: Collected) -> Collected
    decreases stmts,
{
    if c.error is Some || stmts.len() == 0 {
        c
    } else {
        after_stmts(values, stmts.skip(1), after_stmt(values, stmts[0], c))
    }
}

/// What is collected after a statement.
pub open spec fn after_stmt(values: Seq<(String, u32)>, stmt: Stmt, c: Collected) -> Collected
    decreases stmt,
{
    match stmt {
        Stmt::ReportFormat { kind, decoder, options, .. } => after_declaration(
            values,
            kind,
            decoder@,
            options@,
            c,
        ),
        Stmt::Irq { arms, .. } => after_arms(values, arms@, c),
        Stmt::Repeat { body, .. } => after_stmts(values, body@, c),
        Stmt::If { then_, else_, .. } => after_stmts(
            values,
            else_@,
            after_stmts(values, then_@, c),
        ),
        _ => c,
    }
}

/// What is collected after the arms of an interrupt.
pub open spec fn after_arms(values: Seq<(String, u32)>, arms: Seq<IrqArm>, c: Collected) -> Collected
    decreases arms,
{
    if c.error is Some || arms.len() == 0 {
        c
    } else {
        after_arms(values, arms.skip(1), after_stmts(values, arms[0].body@, c))
    }
}

/// What a registry and an outcome stand for.
pub open spec fn collected(registry: ReportDecoderRegistry, r: Result<(), String>) -> Collected {
    Collected {
        decoders: crate::samples::decoder_views(registry@),
        error: decoder::reason(r),
    }
}

/// A registry where nothing has gone wrong.
pub open spec fn so_far(registry: ReportDecoderRegistry) -> Collected {
    Collected { decoders: crate::samples::decoder_views(registry@), error: None }
}

/// Collects the report decoders that statements declare, those in nested statements too.
pub fn collect_report_decoders(
    values: &[(String, u32)],
    stmts: &[Stmt],
    registry: &mut ReportDecoderRegistry,
) -> (r: Result<(), String>)
    ensures
        collected(*final(registry), r) == after_stmts(values@, stmts@, so_far(*old(registry))),
    decreases stmts@,
{
    let ghost start = so_far(*registry);
    let mut i: usize = 0;
    assert(stmts@.skip(0) =~= stmts@);
    while i < stmts.len()
        invariant
            i <= stmts.len(),
            start == so_far(*old(registry)),
            after_stmts(values@, stmts@, start) == after_stmts(
                values@,
                stmts@.skip(i as int),
                so_far(*registry),
            ),
        decreases stmts.len() - i,
    {
        assert(stmts@.skip(i as int)[0] == stmts@[i as int]);
        assert(stmts@.skip(i as int).skip(1) =~= stmts@.skip(i + 1));
        let ghost next = after_stmt(values@, stmts@[i as int], so_far(*registry));
        match collect_stmt(values, &stmts[i], registry) {
            Ok(()) => {},
            Err(e) => {
                assert(after_stmts(values@, stmts@.skip(i + 1), next) == next);
                return Err(e);
            },
        }
        i += 1;
    }
    Ok(())
}

fn collect_stmt(
    values: &[(String, u32)],
    stmt: &Stmt,
    registry: &mut ReportDecoderRegistry,
) -> (r: Result<(), String>)
    ensures
        collected(*final(registry), r) == after_stmt(values@, *stmt, so_far(*old(registry))),
    decreases stmt,
{
    match stmt {
        Stmt::ReportFormat { kind, decoder, options, .. } => {
            let k: u32 = match report_kind_from_value(values, kind) {
                Ok(k) => k,
                Err(e) => return Err(e),
            };
            match build_report_decoder(decoder.as_str(), options) {
                Err(e) => Err(e),
                Ok(d) => {
                    registry.insert(k, d);
                    assert(crate::samples::decoder_views(registry@)
                        =~= crate::samples::decoder_views(old(registry)@).insert(k, d.view()));
                    Ok(())
                },
            }
        },
        Stmt::Irq { arms, .. } => collect_arms(values, arms, registry),
        Stmt::Repeat { body, .. } => collect_report_decoders(values, body, registry),
        Stmt::If { then_, else_, .. } => {
            match collect_report_decoders(values, then_, registry) {
                Ok(()) => collect_report_decoders(values, else_, registry),
                Err(e) => Err(e),
            }
        },
        _ => Ok(()),
    }
}

fn collect_arms(
    values: &[(String, u32)],
    arms: &[IrqArm],
    registry: &mut ReportDecoderRegistry,
) -> (r: Result<(), String>)
    ensures
        collected(*final(registry), r) == after_arms(values@, arms@, so_far(*old(registry))),
    decreases arms@,
{
    let ghost start = so_far(*registry);
    let mut i: usize = 0;
    assert(arms@.skip(0) =~= arms@);
    while i < arms.len()
        invariant
            i <= arms.len(),
            start == so_far(*old(registry)),
            after_arms(values@, arms@, start) == after_arms(
                values@,
                arms@.skip(i as int),
                so_far(*registry),
            ),
        decreases arms.len() - i,
    {
        assert(arms@.skip(i as int)[0] == arms@[i as int]);
        assert(arms@.skip(i as int).skip(1) =~= arms@.skip(i + 1));
        let ghost next = after_stmts(values@, arms@[i as int].body@, so_far(*registry));
        match collect_report_decoders(values, &arms[i].body, registry) {
            Ok(()) => {},
            Err(e) => {
                assert(after_arms(values@, arms@.skip(i + 1), next) == next);
                return Err(e);
            },
        }
        i += 1;
    }
    Ok(())
}

/// A source: what it is called, its text, the directory that paths in it start from, and its
/// statements.
#[derive(Debug, PartialEq, Eq)]
pub struct ParsedSource {
    pub name: String,
    pub source: String,
    pub base_dir: Option<String>,
    pub stmts: Vec<Stmt>,
}

/// What is collected after sources. A reason is given with the name of the source.
pub open spec fn after_sources(
    values: Seq<(String, u32)>,
    sources: Seq<ParsedSource>,
    c: Collected,
) -> Collected
    decreases sources.len(),
{
    if c.error is Some || sources.len() == 0 {
        c
    } else {
        let next = after_stmts(values, sources[0].stmts@, c);
        after_sources(
            values,
            sources.skip(1),
            match next.error {
                Some(e) => Collected { error: Some(sources[0].name@ + ": "@ + e), ..next },
                None => next,
            },
        )
    }
}

/// The report decoders that sources declare.
pub open spec fn source_decoders(values: Seq<(String, u32)>, sources: Seq<ParsedSource>) -> Result<
    Map<u32, DecoderView>,
    Seq<char>,
> {
    let c = after_sources(
        values,
        sources,
        Collected { decoders: Map::empty(), error: None },
    );
    match c.error {
        Some(e) => Err(e),
        None => Ok(c.decoders),
    }
}

/// The report decoders that sources declare.
pub fn report_decoders_from_sources(values: &[(String, u32)], sources: &[ParsedSource]) -> (r: Result<
    ReportDecoderRegistry,
    String,
>)
    ensures
        (match r {
            Ok(registry) => Ok(crate::samples::decoder_views(registry@)),
            Err(e) => Err(e@),
        }) == source_decoders(values@, sources@),
{
    let mut registry = ReportDecoderRegistry::default();
    assert(crate::samples::decoder_views(registry@) =~= Map::<u32, DecoderView>::empty());
    let ghost start = Collected { decoders: Map::<u32, DecoderView>::empty(), error: None };
    let ghost whole = after_sources(values@, sources@, start);
    let mut i: usize = 0;
    assert(sources@.skip(0) =~= sources@);
    while i < sources.len()
        invariant
            i <= sources.len(),
            whole == after_sources(values@, sources@.skip(i as int), so_far(registry)),
            whole == after_sources(
                values@,
                sources@,
                Collected { decoders: Map::<u32, DecoderView>::empty(), error: None },
            ),
        decreases sources.len() - i,
    {
        assert(sources@.skip(i as int)[0] == sources@[i as int]);
        assert(sources@.skip(i as int).skip(1) =~= sources@.skip(i + 1));
        let ghost next = after_stmts(values@, sources@[i as int].stmts@, so_far(registry));
        match collect_report_decoders(values, &sources[i].stmts, &mut registry) {
            Ok(()) => {},
            Err(e) => {
                let ghost named = Collected {
                    error: Some(sources@[i as int].name@ + ": "@ + e@),
                    ..next
                };
                assert(after_sources(values@, sources@.skip(i + 1), named) == named);
                let mut s: String = sources[i].name.clone();
                s.push_str(": ");
                s.push_str(e.as_str());
                return Err(s);
            },
        }
        i += 1;
    }
    Ok(registry)
}

/// Every collected decoder is usable.
pub proof fn law_collected_are_usable(values: Seq<(String, u32)>, stmts: Seq<Stmt>, c: Collected)
    requires
        usable(c.decoders),
    ensures
        usable(after_stmts(values, stmts, c).decoders),
    decreases stmts,
{
    if c.error is None && stmts.len() > 0 {
        lemma_stmt_usable(values, stmts[0], c);
        law_collected_are_usable(values, stmts.skip(1), after_stmt(values, stmts[0], c));
    }
}

/// Whether nothing is wrong with any of the decoders.
pub open spec fn usable(decoders: Map<u32, DecoderView>) -> bool {
    forall|k: u32| #[trigger]
        decoders.dom().contains(k) ==> decoder::decoder_fault(decoders[k]) is None
}

proof fn lemma_stmt_usable(values: Seq<(String, u32)>, stmt: Stmt, c: Collected)
    requires
        usable(c.decoders),
    ensures
        usable(after_stmt(values, stmt, c).decoders),
    decreases stmt,
{
    match stmt {
        Stmt::ReportFormat { decoder, options, .. } => {
            decoder_options::law_declared_is_usable(decoder@, options@);
        },
        Stmt::Irq { arms, .. } => {
            lemma_arms_usable(values, arms@, c);
        },
        Stmt::Repeat { body, .. } => {
            law_collected_are_usable(values, body@, c);
        },
        Stmt::If { then_, else_, .. } => {
            law_collected_are_usable(values, then_@, c);
            law_collected_are_usable(values, else_@, after_stmts(values, then_@, c));
        },
        _ => {},
    }
}

proof fn lemma_arms_usable(values: Seq<(String, u32)>, arms: Seq<IrqArm>, c: Collected)
    requires
        usable(c.decoders),
    ensures
        usable(after_arms(values, arms, c).decoders),
    decreases arms,
{
    if c.error is None && arms.len() > 0 {
        law_collected_are_usable(values, arms[0].body@, c);
        lemma_arms_usable(values, arms.skip(1), after_stmts(values, arms[0].body@, c));
    }
}

} // verus!
