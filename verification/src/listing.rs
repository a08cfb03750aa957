//! Statements as they are listed for a reader.
use crate::program::{Expr, IrqArm, Stmt, Value};
use crate::text;
use crate::text::{chars_of, join, push_dec, push_hex};
use vstd::prelude::*;

verus! {

/// A text between quotation marks, with escapes.
pub uninterp spec fn quoted(s: Seq<char>) -> Seq<char>;

/// How std's `Debug` writes a string slice: between quotation marks, with escapes for
/// what cannot be shown. The text depends on the slice alone; which characters count as
/// not showable is left unsaid.
#[verifier::external_body]
pub(crate) fn quote(s: &str) -> (q: String)
    ensures
        q@ == quoted(s@),
{
    format!("{:?}", s)
}

// ---- values and expressions

/// A number as it is listed.
pub open spec fn hex_number(n: u32) -> Seq<char> {
    "0x"@ + text::hex(n as nat, 1)
}

fn hex_number_text(n: u32) -> (s: String)
    ensures
        s@ == hex_number(n),
{
    let mut s: String = "0x".to_owned();
    push_hex(&mut s, n as u128, 1);
    s
}

/// A number or a name as it is listed.
pub open spec fn simple_text(v: Value) -> Seq<char> {
    match v {
        Value::Number(n) => hex_number(n),
        Value::Ident(s) => s@,
        _ => "unknown"@,
    }
}

fn format_simple(v: &Value) -> (s: String)
    ensures
        s@ == simple_text(*v),
{
    match v {
        Value::Number(n) => hex_number_text(*n),
        Value::Ident(s) => s.clone(),
        _ => "unknown".to_owned(),
    }
}

/// The entries of a field map as they are listed.
pub open spec fn entry_texts(
    entries: Seq<(String, u32)>,
    between: Seq<char>,
    hex: bool,
) -> Seq<Seq<char>> {
    entries.map_values(
        |e: (String, u32)|
            e.0@ + between + (if hex {
                text::hex(e.1 as nat, 1)
            } else {
                text::dec(e.1 as nat)
            }),
    )
}

fn format_entries(entries: &[(String, u32)], between: &str, hex: bool) -> (v: Vec<String>)
    ensures
        text::texts(v@) == entry_texts(entries@, between@, hex),
{
    let mut v: Vec<String> = Vec::new();
    let mut i: usize = 0;
    while i < entries.len()
        invariant
            i <= entries.len(),
            v@.len() == i,
            forall|k: int|
                0 <= k < i ==> (#[trigger] v@[k])@ == entry_texts(entries@, between@, hex)[k],
        decreases entries.len() - i,
    {
        let mut s: String = entries[i].0.clone();
        s.push_str(between);
        if hex {
            push_hex(&mut s, entries[i].1 as u128, 1);
        } else {
            push_dec(&mut s, entries[i].1 as u128);
        }
        v.push(s);
        i += 1;
    }
    assert(text::texts(v@) =~= entry_texts(entries@, between@, hex));
    v
}

/// A value as it is listed.
pub open spec fn value_text(v: Value) -> Seq<char>
    decreases v,
{
    match v {
        Value::Number(n) => hex_number(n),
        Value::Ident(s) => s@,
        Value::Array(values) => "["@ + text::joined(value_texts(values@), ", "@) + "]"@,
        Value::FieldMap(entries) => "{"@ + text::joined(
            entry_texts(entries@, ": 0x"@, true),
            ", "@,
        ) + "}"@,
    }
}

/// Values as they are listed.
pub open spec fn value_texts(values: Seq<Value>) -> Seq<Seq<char>>
    decreases values,
{
    if values.len() == 0 {
        Seq::empty()
    } else {
        value_texts(values.drop_last()).push(value_text(values.last()))
    }
}

/// A value as it is listed.
pub fn format_value(value: &Value) -> (s: String)
    ensures
        s@ == value_text(*value),
    decreases value,
{
    match value {
        Value::Number(n) => hex_number_text(*n),
        Value::Ident(name) => name.clone(),
        Value::Array(values) => {
            let mut s: String = "[".to_owned();
            s.push_str(join(&format_values(values), ", ").as_str());
            s.push_str("]");
            s
        },
        Value::FieldMap(entries) => {
            let mut s: String = "{".to_owned();
            s.push_str(join(&format_entries(entries, ": 0x", true), ", ").as_str());
            s.push_str("}");
            s
        },
    }
}

fn format_values(values: &[Value]) -> (v: Vec<String>)
    ensures
        text::texts(v@) == value_texts(values@),
    decreases values@,
{
    let mut v: Vec<String> = Vec::new();
    let mut i: usize = 0;
    assert(text::texts(v@) =~= value_texts(values@.take(0)));
    while i < values.len()
        invariant
            i <= values.len(),
            text::texts(v@) == value_texts(values@.take(i as int)),
        decreases values.len() - i,
    {
        assert(values@.take(i + 1).drop_last() =~= values@.take(i as int));
        let ghost before = text::texts(v@);
        let s = format_value(&values[i]);
        v.push(s);
        assert(text::texts(v@) =~= before.push(s@));
        i += 1;
    }
    assert(values@.take(values@.len() as int) =~= values@);
    v
}

/// A length as it is listed.
pub open spec fn len_text(v: Value, names: bool) -> Seq<char> {
    match v {
        Value::Number(n) => text::dec(n as nat),
        Value::Ident(s) => if names {
            s@
        } else {
            "unknown"@
        },
        _ => "unknown"@,
    }
}

fn format_len(v: &Value, names: bool) -> (s: String)
    ensures
        s@ == len_text(*v, names),
{
    match v {
        Value::Number(n) => text::dec_text(*n as u128),
        Value::Ident(s) => if names {
            s.clone()
        } else {
            "unknown".to_owned()
        },
        _ => "unknown".to_owned(),
    }
}

/// An expression as it is listed.
pub open spec fn expr_text(e: Expr) -> Seq<char>
    decreases e,
{
    match e {
        Expr::Read { addr, len, delay_us } => {
            let head = "read!("@ + simple_text(addr) + ", "@ + len_text(len, true);
            match delay_us {
                Some(d) => head + ", "@ + text::dec(d as nat) + ")"@,
                None => head + ")"@,
            }
        },
        Expr::Number(n) => hex_number(n),
        Expr::Ident(name) => name@,
        Expr::Binary { op, lhs, rhs } => "("@ + expr_text(*lhs) + " "@ + op@ + " "@ + expr_text(*rhs)
            + ")"@,
        Expr::Unary { op, expr } => op@ + expr_text(*expr),
    }
}

/// An expression as it is listed.
pub fn format_expr(e: &Expr) -> (s: String)
    ensures
        s@ == expr_text(*e),
    decreases e,
{
    match e {
        Expr::Read { addr, len, delay_us } => {
            let mut s: String = "read!(".to_owned();
            s.push_str(format_simple(addr).as_str());
            s.push_str(", ");
            s.push_str(format_len(len, true).as_str());
            match delay_us {
                Some(d) => {
                    s.push_str(", ");
                    push_dec(&mut s, *d as u128);
                },
                None => {},
            }
            s.push_str(")");
            s
        },
        Expr::Number(n) => hex_number_text(*n),
        Expr::Ident(name) => name.clone(),
        Expr::Binary { op, lhs, rhs } => {
            let mut s: String = "(".to_owned();
            s.push_str(format_expr(lhs).as_str());
            s.push_str(" ");
            s.push_str(op.as_str());
            s.push_str(" ");
            s.push_str(format_expr(rhs).as_str());
            s.push_str(")");
            s
        },
        Expr::Unary { op, expr } => {
            let mut s: String = op.clone();
            s.push_str(format_expr(expr).as_str());
            s
        },
    }
}

/// Expressions as they are listed.
pub open spec fn expr_texts(values: Seq<Expr>) -> Seq<Seq<char>> {
    values.map_values(|e: Expr| expr_text(e))
}

fn format_exprs(values: &[Expr]) -> (v: Vec<String>)
    ensures
        text::texts(v@) == expr_texts(values@),
{
    let mut v: Vec<String> = Vec::new();
    let mut i: usize = 0;
    while i < values.len()
        invariant
            i <= values.len(),
            v@.len() == i,
            forall|k: int| 0 <= k < i ==> (#[trigger] v@[k])@ == expr_text(values@[k]),
        decreases values.len() - i,
    {
        v.push(format_expr(&values[i]));
        i += 1;
    }
    assert(text::texts(v@) =~= expr_texts(values@));
    v
}

// ---- statements

/// The data of a write as they are listed.
pub open spec fn write_text(v: Value) -> Seq<char> {
    match v {
        Value::Number(n) => "0x"@ + text::hex(n as nat, 2),
        Value::Array(values) => "["@ + text::joined(item_texts(values@), ", "@) + "]"@,
        Value::Ident(s) => s@,
        Value::FieldMap(_) => "unknown"@,
    }
}

/// The items of a write as they are listed.
pub open spec fn item_texts(values: Seq<Value>) -> Seq<Seq<char>> {
    values.map_values(
        |v: Value|
            match v {
                Value::Number(n) => "0x"@ + text::hex(n as nat, 2),
                _ => "unknown"@,
            },
    )
}

fn format_write(v: &Value) -> (s: String)
    ensures
        s@ == write_text(*v),
{
    match v {
        Value::Number(n) => {
            let mut s: String = "0x".to_owned();
            push_hex(&mut s, *n as u128, 2);
            s
        },
        Value::Array(values) => {
            let mut s: String = "[".to_owned();
            s.push_str(join(&format_items(values), ", ").as_str());
            s.push_str("]");
            s
        },
        Value::Ident(s) => s.clone(),
        Value::FieldMap(_) => "unknown".to_owned(),
    }
}

fn format_items(values: &[Value]) -> (v: Vec<String>)
    ensures
        text::texts(v@) == item_texts(values@),
{
    let mut v: Vec<String> = Vec::new();
    let mut i: usize = 0;
    while i < values.len()
        invariant
            i <= values.len(),
            v@.len() == i,
            forall|k: int| 0 <= k < i ==> (#[trigger] v@[k])@ == item_texts(values@)[k],
        decreases values.len() - i,
    {
        match &values[i] {
            Value::Number(n) => {
                let mut s: String = "0x".to_owned();
                push_hex(&mut s, *n as u128, 2);
                v.push(s);
            },
            _ => {
                v.push("unknown".to_owned());
            },
        }
        i += 1;
    }
    assert(text::texts(v@) =~= item_texts(values@));
    v
}

/// The options of a probe as they are listed.
pub open spec fn option_texts(options: Seq<(String, Value)>) -> Seq<Seq<char>> {
    options.map_values(|o: (String, Value)| o.0@ + "="@ + value_text(o.1))
}

fn format_options(options: &[(String, Value)]) -> (v: Vec<String>)
    ensures
        text::texts(v@) == option_texts(options@),
{
    let mut v: Vec<String> = Vec::new();
    let mut i: usize = 0;
    while i < options.len()
        invariant
            i <= options.len(),
            v@.len() == i,
            forall|k: int| 0 <= k < i ==> (#[trigger] v@[k])@ == option_texts(options@)[k],
        decreases options.len() - i,
    {
        let mut s: String = options[i].0.clone();
        s.push_str("=");
        s.push_str(format_value(&options[i].1).as_str());
        v.push(s);
        i += 1;
    }
    assert(text::texts(v@) =~= option_texts(options@));
    v
}

/// The options of a decoder as they are listed, the values being written as in `shown`.
pub open spec fn shown_texts(
    options: Seq<crate::decoder_options::ReportOption>,
    shown: Seq<String>,
) -> Seq<Seq<char>> {
    Seq::new(
        if options.len() < shown.len() {
            options.len()
        } else {
            shown.len()
        },
        |i: int| options[i].0@ + "="@ + shown[i]@,
    )
}

fn format_shown(options: &[crate::decoder_options::ReportOption], shown: &[String]) -> (v: Vec<
    String,
>)
    ensures
        text::texts(v@) == shown_texts(options@, shown@),
{
    let mut v: Vec<String> = Vec::new();
    let mut i: usize = 0;
    while i < options.len() && i < shown.len()
        invariant
            i <= options.len(),
            i <= shown.len(),
            v@.len() == i,
            forall|k: int| 0 <= k < i ==> (#[trigger] v@[k])@ == shown_texts(options@, shown@)[k],
        decreases options.len() - i,
    {
        let mut s: String = options[i].0.clone();
        s.push_str("=");
        s.push_str(shown[i].as_str());
        v.push(s);
        i += 1;
    }
    assert(text::texts(v@) =~= shown_texts(options@, shown@));
    v
}

/// The events of an interrupt.
pub open spec fn event_texts(arms: Seq<IrqArm>) -> Seq<Seq<char>> {
    arms.map_values(|a: IrqArm| a.event@)
}

fn arm_events(arms: &[IrqArm]) -> (v: Vec<String>)
    ensures
        text::texts(v@) == event_texts(arms@),
{
    let mut v: Vec<String> = Vec::new();
    let mut i: usize = 0;
    while i < arms.len()
        invariant
            i <= arms.len(),
            v@.len() == i,
            forall|k: int| 0 <= k < i ==> (#[trigger] v@[k])@ == arms@[k].event@,
        decreases arms.len() - i,
    {
        v.push(arms[i].event.clone());
        i += 1;
    }
    assert(text::texts(v@) =~= event_texts(arms@));
    v
}

/// What a print statement is listed as, its text being written as `msg`.
pub open spec fn print_text(msg: Seq<char>, vars: Seq<Seq<char>>) -> Seq<char> {
    if vars.len() == 0 {
        "    Action: Print "@ + msg
    } else {
        "    Action: Print "@ + msg + " vars("@ + text::joined(vars, ", "@) + ")"@
    }
}

/// What a print statement is listed as, its text being written as `msg`.
pub fn format_print(msg: &str, vars: &[String]) -> (s: String)
    ensures
        s@ == print_text(msg@, text::texts(vars@)),
{
    let mut s: String = "    Action: Print ".to_owned();
    s.push_str(msg);
    if vars.len() > 0 {
        s.push_str(" vars(");
        s.push_str(join(vars, ", ").as_str());
        s.push_str(")");
    }
    s
}

/// The first line that a statement is listed with.
pub open spec fn action_text(stmt: Stmt) -> Seq<char> {
    match stmt {
        Stmt::Chip { path } => "    Action: Load chip dictionary from "@ + path@,
        Stmt::Bus { kind, arg } => match arg {
            Some(a) => "    Action: Select "@ + kind@ + " bus arg=0x"@ + text::hex(a as nat, 1),
            None => "    Action: Select "@ + kind@ + " bus"@,
        },
        Stmt::BusProbe { kind, options } => "    Action: Probe "@ + kind@ + " bus ("@ + text::joined(
            option_texts(options@),
            ", "@,
        ) + ")"@,
        Stmt::Let { name, expr } => "    Action: Bind "@ + name@ + " = "@ + expr_text(expr),
        Stmt::Write { addr, val, .. } => "    Action: Write "@ + write_text(val) + " to address "@
            + simple_text(addr),
        Stmt::Update { target, val, .. } => match val {
            Value::Number(n) => "    Action: Update "@ + target@ + " = "@ + text::dec(n as nat)
                + " (read-modify-write)"@,
            Value::FieldMap(entries) => "    Action: Update "@ + target@ + " {"@ + text::joined(
                entry_texts(entries@, "="@, false),
                ", "@,
            ) + "} (read-modify-write)"@,
            _ => "    Action: Update "@ + target@ + " (read-modify-write)"@,
        },
        Stmt::Irq { pin, arms } => "    Action: Interrupt handler on "@ + pin@ + " dispatching "@
            + text::dec(arms@.len()) + " event(s): "@ + text::joined(event_texts(arms@), ", "@),
        Stmt::Wait { pin, timeout_ms } => "    Action: Wait for interrupt on "@ + pin@ + " ("@
            + text::dec(timeout_ms as nat) + " ms)"@,
        Stmt::Repeat { count, body } => "    Action: Repeat body ("@ + text::dec(body@.len())
            + " statement(s)) "@ + text::dec(count as nat) + " time(s)"@,
        Stmt::Read { addr, len, .. } => "    Action: Read "@ + len_text(len, false)
            + " byte(s) from "@ + simple_text(addr),
        Stmt::If { cond, then_, .. } => "    Action: If ("@ + expr_text(cond) + ") → "@ + text::dec(
            then_@.len(),
        ) + " stmt(s)"@,
        Stmt::Print { msg, vars } => print_text(quoted(msg@), text::texts(vars@)),
        Stmt::Report { kind, values } => {
            let head = "    Action: Report event kind="@ + simple_text(kind);
            let args = text::joined(expr_texts(values@), ", "@);
            if args.len() == 0 {
                head
            } else {
                head + " args("@ + args + ")"@
            }
        },
        Stmt::ReportFormat { kind, decoder, options, shown } => {
            let head = "    Action: Report format kind="@ + simple_text(kind) + " decoder="@
                + decoder@;
            let opts = text::joined(shown_texts(options@, shown@), ", "@);
            if opts.len() == 0 {
                head
            } else {
                head + " options("@ + opts + ")"@
            }
        },
    }
}

/// How a delay behind something is listed.
pub open spec fn delay_text(us: u32, what: Seq<char>) -> Seq<char> {
    "    Delay: "@ + text::dec(us as nat) + " μs after "@ + what
}

/// The second line that a statement is listed with, if it has one.
pub open spec fn detail_text(stmt: Stmt) -> Option<Seq<char>> {
    match stmt {
        Stmt::Let { expr: Expr::Read { delay_us: Some(d), .. }, .. } => Some(
            delay_text(d, "read"@),
        ),
        Stmt::Write { delay_us: Some(d), .. } => Some(delay_text(d, "write"@)),
        Stmt::Update { delay_us: Some(d), .. } => Some(delay_text(d, "update"@)),
        Stmt::Read { delay_us: Some(d), .. } => Some(delay_text(d, "read"@)),
        Stmt::If { else_, .. } => if else_@.len() > 0 {
            Some("      Else: "@ + text::dec(else_@.len()) + " stmt(s)"@)
        } else {
            None
        },
        _ => None,
    }
}

fn format_delay(us: u32, what: &str) -> (s: String)
    ensures
        s@ == delay_text(us, what@),
{
    let mut s: String = "    Delay: ".to_owned();
    push_dec(&mut s, us as u128);
    s.push_str(" μs after ");
    s.push_str(what);
    s
}

fn format_detail(stmt: &Stmt) -> (s: Option<String>)
    ensures
        (match s {
            Some(t) => Some(t@),
            None => None,
        }) == detail_text(*stmt),
{
    match stmt {
        Stmt::Let { expr, .. } => match expr {
            Expr::Read { delay_us: Some(d), .. } => Some(format_delay(*d, "read")),
            _ => None,
        },
        Stmt::Write { delay_us: Some(d), .. } => Some(format_delay(*d, "write")),
        Stmt::Update { delay_us: Some(d), .. } => Some(format_delay(*d, "update")),
        Stmt::Read { delay_us: Some(d), .. } => Some(format_delay(*d, "read")),
        Stmt::If { else_, .. } => if else_.len() > 0 {
            let mut s: String = "      Else: ".to_owned();
            push_dec(&mut s, else_.len() as u128);
            s.push_str(" stmt(s)");
            Some(s)
        } else {
            None
        },
        _ => None,
    }
}

fn format_update(target: &str, val: &Value) -> (s: String)
    ensures
        s@ == (match *val {
            Value::Number(n) => "    Action: Update "@ + target@ + " = "@ + text::dec(n as nat)
                + " (read-modify-write)"@,
            Value::FieldMap(entries) => "    Action: Update "@ + target@ + " {"@ + text::joined(
                entry_texts(entries@, "="@, false),
                ", "@,
            ) + "} (read-modify-write)"@,
            _ => "    Action: Update "@ + target@ + " (read-modify-write)"@,
        }),
{
    let mut s: String = "    Action: Update ".to_owned();
    s.push_str(target);
    match val {
        Value::Number(n) => {
            s.push_str(" = ");
            push_dec(&mut s, *n as u128);
            s.push_str(" (read-modify-write)");
        },
        Value::FieldMap(entries) => {
            s.push_str(" {");
            s.push_str(join(&format_entries(entries, "=", false), ", ").as_str());
            s.push_str("} (read-modify-write)");
        },
        _ => {
            s.push_str(" (read-modify-write)");
        },
    }
    s
}

fn with_list(head: String, before: &str, list: &[String]) -> (s: String)
    ensures
        s@ == (if text::joined(text::texts(list@), ", "@).len() == 0 {
            head@
        } else {
            head@ + before@ + text::joined(text::texts(list@), ", "@) + ")"@
        }),
{
    let mut s = head;
    let all = join(list, ", ");
    if chars_of(all.as_str()).len() > 0 {
        s.push_str(before);
        s.push_str(all.as_str());
        s.push_str(")");
    }
    s
}

fn format_action(stmt: &Stmt) -> (s: String)
    ensures
        s@ == action_text(*stmt),
{
    match stmt {
        Stmt::Chip { path } => {
            let mut s: String = "    Action: Load chip dictionary from ".to_owned();
            s.push_str(path.as_str());
            s
        },
        Stmt::Bus { kind, arg } => {
            let mut s: String = "    Action: Select ".to_owned();
            s.push_str(kind.as_str());
            match arg {
                Some(a) => {
                    s.push_str(" bus arg=0x");
                    push_hex(&mut s, *a as u128, 1);
                },
                None => {
                    s.push_str(" bus");
                },
            }
            s
        },
        Stmt::BusProbe { kind, options } => {
            let mut s: String = "    Action: Probe ".to_owned();
            s.push_str(kind.as_str());
            s.push_str(" bus (");
            s.push_str(join(&format_options(options), ", ").as_str());
            s.push_str(")");
            s
        },
        Stmt::Let { name, expr } => {
            let mut s: String = "    Action: Bind ".to_owned();
            s.push_str(name.as_str());
            s.push_str(" = ");
            s.push_str(format_expr(expr).as_str());
            s
        },
        Stmt::Write { addr, val, .. } => {
            let mut s: String = "    Action: Write ".to_owned();
            s.push_str(format_write(val).as_str());
            s.push_str(" to address ");
            s.push_str(format_simple(addr).as_str());
            s
        },
        Stmt::Update { target, val, .. } => format_update(target.as_str(), val),
        Stmt::Irq { pin, arms } => {
            let mut s: String = "    Action: Interrupt handler on ".to_owned();
            s.push_str(pin.as_str());
            s.push_str(" dispatching ");
            push_dec(&mut s, arms.len() as u128);
            s.push_str(" event(s): ");
            s.push_str(join(&arm_events(arms), ", ").as_str());
            s
        },
        Stmt::Wait { pin, timeout_ms } => {
            let mut s: String = "    Action: Wait for interrupt on ".to_owned();
            s.push_str(pin.as_str());
            s.push_str(" (");
            push_dec(&mut s, *timeout_ms as u128);
            s.push_str(" ms)");
            s
        },
        Stmt::Repeat { count, body } => {
            let mut s: String = "    Action: Repeat body (".to_owned();
            push_dec(&mut s, body.len() as u128);
            s.push_str(" statement(s)) ");
            push_dec(&mut s, *count as u128);
            s.push_str(" time(s)");
            s
        },
        Stmt::Read { addr, len, .. } => {
            let mut s: String = "    Action: Read ".to_owned();
            s.push_str(format_len(len, false).as_str());
            s.push_str(" byte(s) from ");
            s.push_str(format_simple(addr).as_str());
            s
        },
        Stmt::If { cond, then_, .. } => {
            let mut s: String = "    Action: If (".to_owned();
            s.push_str(format_expr(cond).as_str());
            s.push_str(") → ");
            push_dec(&mut s, then_.len() as u128);
            s.push_str(" stmt(s)");
            s
        },
        Stmt::Print { msg, vars } => format_print(quote(msg.as_str()).as_str(), vars),
        Stmt::Report { kind, values } => {
            let mut s: String = "    Action: Report event kind=".to_owned();
            s.push_str(format_simple(kind).as_str());
            with_list(s, " args(", &format_exprs(values))
        },
        Stmt::ReportFormat { kind, decoder, options, shown } => {
            let mut s: String = "    Action: Report format kind=".to_owned();
            s.push_str(format_simple(kind).as_str());
            s.push_str(" decoder=");
            s.push_str(decoder.as_str());
            with_list(s, " options(", &format_shown(options, shown))
        },
    }
}

/// The lines that a statement is listed with.
pub open spec fn stmt_lines(stmt: Stmt) -> Seq<Seq<char>> {
    match detail_text(stmt) {
        Some(d) => seq![action_text(stmt), d],
        None => seq![action_text(stmt)],
    }
}

/// The lines that a statement is listed with.
pub fn list_stmt(stmt: &Stmt) -> (lines: Vec<String>)
    ensures
        text::texts(lines@) == stmt_lines(*stmt),
{
    let mut lines: Vec<String> = Vec::new();
    let action = format_action(stmt);
    lines.push(action);
    match format_detail(stmt) {
        Some(d) => {
            lines.push(d);
            assert(text::texts(lines@) =~= seq![action@, d@]);
        },
        None => {
            assert(text::texts(lines@) =~= seq![action@]);
        },
    }
    lines
}

} // verus!
