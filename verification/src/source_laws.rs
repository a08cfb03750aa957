//! What programs, blocks and typed texts stand for.

use vstd::prelude::*;

use crate::blocks;
use crate::blocks::EditorView;
use crate::catalog;
use crate::catalog::RegView;
use crate::decoder_options;
use crate::decoder_options::ReportOption;
use crate::input;
use crate::numbers;
use crate::program;
use crate::program::{Collected, IrqArm, ParsedSource, Stmt, Value};
use crate::scan_laws;
use crate::split;
use crate::text;
use crate::text_laws;
use crate::visual;
use crate::visual::{Found, LineView, SequenceView, StepView, VisualStepKind};
use crate::visual_source;

verus! {

// ---- programs

/// The chip descriptions that statements name come in the order of the statements, those of nested
/// statements in the place of the statement that holds them.
pub proof fn law_chip_paths(a: Seq<Stmt>, b: Seq<Stmt>)
    ensures
        program::chip_paths(Seq::empty()).len() == 0,
        program::chip_paths(a + b) == program::chip_paths(a) + program::chip_paths(b),
    decreases a.len(),
{
    if a.len() == 0 {
        assert(a + b =~= b);
        assert(program::chip_paths(a) + program::chip_paths(b) =~= program::chip_paths(b));
    } else {
        assert((a + b).skip(1) =~= a.skip(1) + b);
        law_chip_paths(a.skip(1), b);
        assert(program::chip_paths(a + b) =~= program::chip_paths(a) + program::chip_paths(b));
    }
}

/// What a statement names: a chip statement its path, and a statement that holds others what those
/// name, both branches of a condition in their order.
pub proof fn law_chip_paths_of_a_statement(s: Stmt)
    ensures
        s matches Stmt::Chip { path } ==> program::stmt_chip_paths(s) == seq![path@],
        s matches Stmt::Repeat { body, .. } ==> program::stmt_chip_paths(s) == program::chip_paths(
            body@,
        ),
        s matches Stmt::If { then_, else_, .. } ==> program::stmt_chip_paths(s)
            == program::chip_paths(then_@) + program::chip_paths(else_@),
        s matches Stmt::Irq { arms, .. } ==> program::stmt_chip_paths(s)
            == program::arms_chip_paths(arms@),
        !(s is Chip || s is Repeat || s is If || s is Irq) ==> program::stmt_chip_paths(s).len()
            == 0,
{
}

/// What the arms of an interrupt name, arm by arm.
pub proof fn law_chip_paths_of_arms(arms: Seq<IrqArm>)
    ensures
        arms.len() == 0 ==> program::arms_chip_paths(arms).len() == 0,
        arms.len() > 0 ==> program::arms_chip_paths(arms) == program::chip_paths(arms[0].body@)
            + program::arms_chip_paths(arms.skip(1)),
{
}

/// A path is replaced by what the first entry for it says, and stays where there is none.
pub proof fn law_resolved_path(table: Seq<(String, String)>, path: Seq<char>, k: int)
    ensures
        0 <= k < table.len() && table[k].0@ == path && (forall|j: int|
            0 <= j < k ==> (#[trigger] table[j]).0@ != path) ==> program::resolved(table, path)
            == table[k].1@ && program::found_at(table, path) == Some(table[k].1@),
        (forall|j: int| 0 <= j < table.len() ==> (#[trigger] table[j]).0@ != path)
            ==> program::resolved(table, path) == path && program::found_at(table, path) is None,
    decreases table.len(),
{
    if table.len() > 0 {
        let rest = table.skip(1);
        assert(forall|j: int| 0 <= j < rest.len() ==> rest[j] == table[j + 1]);
        law_resolved_path(rest, path, k - 1);
    }
}

/// Where paths are replaced, statements stay what they are: as many, in their order, each of its
/// kind and with its other quantities.
pub proof fn law_resolved_statements(
    a: Seq<Stmt>,
    b: Seq<Stmt>,
    table: Seq<(String, String)>,
    i: int,
)
    requires
        program::stmts_resolved(a, b, table),
        0 <= i < a.len(),
    ensures
        a.len() == b.len(),
        a[i] matches Stmt::Chip { path } ==> b[i] matches Stmt::Chip { path: q } && q@
            == program::resolved(table, path@),
        a[i] matches Stmt::Irq { pin, arms } ==> b[i] matches Stmt::Irq { pin: p, arms: r } && p
            == pin && program::arms_resolved(arms@, r@, table),
        a[i] matches Stmt::Repeat { count, body } ==> b[i] matches Stmt::Repeat { count: c, body: r }
            && c == count && program::stmts_resolved(body@, r@, table),
        a[i] matches Stmt::If { cond, then_, else_ } ==> b[i] matches Stmt::If {
            cond: c,
            then_: t,
            else_: e,
        } && c == cond && program::stmts_resolved(then_@, t@, table) && program::stmts_resolved(
            else_@,
            e@,
            table,
        ),
        !(a[i] is Chip || a[i] is Irq || a[i] is Repeat || a[i] is If) ==> b[i] == a[i],
    decreases a.len(),
{
    reveal_with_fuel(program::stmts_resolved, 2);
    reveal_with_fuel(program::stmt_resolved, 2);
    if i > 0 {
        assert(a.skip(1)[i - 1] == a[i]);
        assert(b.skip(1)[i - 1] == b[i]);
        law_resolved_statements(a.skip(1), b.skip(1), table, i - 1);
    }
}

/// Where paths are replaced, the arms of an interrupt stay as many, each for its event.
pub proof fn law_resolved_arms(
    a: Seq<IrqArm>,
    b: Seq<IrqArm>,
    table: Seq<(String, String)>,
    i: int,
)
    requires
        program::arms_resolved(a, b, table),
        0 <= i < a.len(),
    ensures
        a.len() == b.len(),
        a[i].event == b[i].event,
        program::stmts_resolved(a[i].body@, b[i].body@, table),
    decreases a.len(),
{
    if i > 0 {
        assert(a.skip(1)[i - 1] == a[i]);
        assert(b.skip(1)[i - 1] == b[i]);
        law_resolved_arms(a.skip(1), b.skip(1), table, i - 1);
    }
}

/// The kind that a name stands for is that of the first entry of the name; a number stands for
/// itself.
pub proof fn law_kind_of_a_name(values: Seq<(String, u32)>, name: String, n: u32, k: int)
    ensures
        program::kind_of(values, Value::Number(n)) == Ok::<u32, Seq<char>>(n),
        0 <= k < values.len() && values[k].0@ == name@ && (forall|j: int|
            0 <= j < k ==> (#[trigger] values[j]).0@ != name@) ==> program::kind_of(
            values,
            Value::Ident(name),
        ) == Ok::<u32, Seq<char>>(values[k].1),
        (forall|j: int| 0 <= j < values.len() ==> (#[trigger] values[j]).0@ != name@)
            ==> program::kind_of(values, Value::Ident(name)) == Err::<u32, Seq<char>>(
            "unknown report kind '"@ + name@ + "'"@,
        ),
    decreases values.len(),
{
    if values.len() > 0 {
        let rest = values.skip(1);
        assert(forall|j: int| 0 <= j < rest.len() ==> rest[j] == values[j + 1]);
        law_kind_of_a_name(rest, name, n, k - 1);
    }
}

/// A declaration enters its decoder under its kind; one that names no kind or no usable decoder is a
/// fault and enters nothing.
pub proof fn law_declaration(
    values: Seq<(String, u32)>,
    kind: Value,
    name: Seq<char>,
    options: Seq<ReportOption>,
    c: Collected,
)
    requires
        c.error is None,
    ensures
        ({
            let after = program::after_declaration(values, kind, name, options, c);
            let k = program::kind_of(values, kind);
            let d = decoder_options::declared(name, options);
            &&& after.error is None <==> k is Ok && d is Ok
            &&& after.error is None ==> after.decoders == c.decoders.insert(k->Ok_0, d->Ok_0)
            &&& after.error is Some ==> after.decoders == c.decoders
            &&& k matches Err(e) ==> after.error == Some(e)
            &&& k is Ok ==> (d matches Err(e) ==> after.error == Some(e))
        }),
{
}

/// Declarations are collected statement by statement, up to the first fault.
pub proof fn law_collected_statements(
    values: Seq<(String, u32)>,
    a: Seq<Stmt>,
    b: Seq<Stmt>,
    c: Collected,
)
    ensures
        program::after_stmts(values, Seq::empty(), c) == c,
        c.error is Some ==> program::after_stmts(values, a, c) == c,
        program::after_stmts(values, a + b, c) == program::after_stmts(
            values,
            b,
            program::after_stmts(values, a, c),
        ),
    decreases a.len(),
{
    if a.len() == 0 {
        assert(a + b =~= b);
    } else if c.error is None {
        assert((a + b).skip(1) =~= a.skip(1) + b);
        law_collected_statements(
            values,
            a.skip(1),
            b,
            program::after_stmt(values, a[0], c),
        );
    } else {
        assert(program::after_stmts(values, b, c) == c);
    }
}

/// Which statements hold declarations: formats themselves, and those that hold other statements.
pub proof fn law_collected_statement(values: Seq<(String, u32)>, s: Stmt, c: Collected)
    ensures
        s matches Stmt::ReportFormat { kind, decoder, options, .. } ==> program::after_stmt(
            values,
            s,
            c,
        ) == program::after_declaration(values, kind, decoder@, options@, c),
        s matches Stmt::Repeat { body, .. } ==> program::after_stmt(values, s, c)
            == program::after_stmts(values, body@, c),
        s matches Stmt::If { then_, else_, .. } ==> program::after_stmt(values, s, c)
            == program::after_stmts(values, else_@, program::after_stmts(values, then_@, c)),
        s matches Stmt::Irq { arms, .. } ==> arms@.len() == 1 && c.error is None
            ==> program::after_stmt(values, s, c) == program::after_stmts(
            values,
            arms@[0].body@,
            c,
        ),
        !(s is ReportFormat || s is Repeat || s is If || s is Irq) ==> program::after_stmt(
            values,
            s,
            c,
        ) == c,
{
    if s is Irq {
        let arms = s->Irq_arms@;
        if arms.len() == 1 {
            assert(arms.skip(1).len() == 0);
            let next = program::after_stmts(values, arms[0].body@, c);
            reveal_with_fuel(program::after_stmt, 2);
            reveal_with_fuel(program::after_arms, 3);
            assert(program::after_arms(values, arms.skip(1), next) == next);
        }
    }
}

// ---- typed texts

proof fn lemma_same_filter(s: Seq<char>)
    requires
        !s.contains('_'),
    ensures
        s.filter(split::other_than('_')) == s,
    decreases s.len(),
{
    reveal(Seq::filter);
    if s.len() > 0 {
        let less = s.drop_last();
        assert(!less.contains('_')) by {
            if less.contains('_') {
                let i = choose|i: int| 0 <= i < less.len() && less[i] == '_';
                assert(s[i] == '_');
            }
        }
        lemma_same_filter(less);
        assert(s.contains(s.last()));
        assert(less.push(s.last()) =~= s);
    }
}

proof fn lemma_typed_number(t: Seq<char>)
    requires
        t.len() > 0,
        !t.contains('_'),
        !text::is_white(t[0]),
        !text::is_white(t.last()),
    ensures
        visual_source::typed_number(t) == match split::behind_prefix(t, 'x', 'X') {
            Some(h) => visual_source::number_or(
                text::bounded_value(h, 16, 0xffff_ffff),
                visual_source::bad_number("hex"@, t),
            ),
            None => match split::behind_prefix(t, 'b', 'B') {
                Some(b) => visual_source::number_or(
                    text::bounded_value(b, 2, 0xffff_ffff),
                    visual_source::bad_number("binary"@, t),
                ),
                None => visual_source::number_or(
                    text::bounded_value(t, 10, 0xffff_ffff),
                    visual_source::bad_number("decimal"@, t),
                ),
            },
        },
{
    lemma_as_typed(t);
}

/// A number that was typed behind `0x` is hexadecimal, and not more than four bytes can hold.
pub proof fn law_typed_hexadecimal(letter: char, rest: Seq<char>)
    requires
        letter == 'x' || letter == 'X',
        rest.len() > 0,
        !rest.contains('_'),
        !text::is_white(rest.last()),
    ensures
        match text::bounded_value(rest, 16, 0xffff_ffff) {
            Some(n) => visual_source::typed_number(seq!['0', letter] + rest) == Ok::<
                nat,
                Seq<char>,
            >(n),
            None => visual_source::typed_number(seq!['0', letter] + rest) is Err,
        },
{
    let t = seq!['0', letter] + rest;
    lemma_no_underscore(letter, rest);
    lemma_typed_number(t);
    assert(t.skip(2) =~= rest);
}

/// A number that was typed behind `0b` is binary.
pub proof fn law_typed_binary(letter: char, rest: Seq<char>)
    requires
        letter == 'b' || letter == 'B',
        rest.len() > 0,
        !rest.contains('_'),
        !text::is_white(rest.last()),
    ensures
        match text::bounded_value(rest, 2, 0xffff_ffff) {
            Some(n) => visual_source::typed_number(seq!['0', letter] + rest) == Ok::<
                nat,
                Seq<char>,
            >(n),
            None => visual_source::typed_number(seq!['0', letter] + rest) is Err,
        },
{
    let t = seq!['0', letter] + rest;
    lemma_no_underscore(letter, rest);
    lemma_typed_number(t);
    assert(t.skip(2) =~= rest);
}

/// Any other number that was typed is decimal.
pub proof fn law_typed_decimal(t: Seq<char>)
    requires
        t.len() > 0,
        !t.contains('_'),
        !text::is_white(t[0]),
        !text::is_white(t.last()),
        t.len() < 2 || t[0] != '0' || (t[1] != 'x' && t[1] != 'X' && t[1] != 'b' && t[1] != 'B'),
    ensures
        match text::bounded_value(t, 10, 0xffff_ffff) {
            Some(n) => visual_source::typed_number(t) == Ok::<nat, Seq<char>>(n),
            None => visual_source::typed_number(t) is Err,
        },
{
    lemma_typed_number(t);
}

proof fn lemma_no_underscore(letter: char, rest: Seq<char>)
    requires
        letter != '_',
        !rest.contains('_'),
    ensures
        !(seq!['0', letter] + rest).contains('_'),
{
    let t = seq!['0', letter] + rest;
    if t.contains('_') {
        let i = choose|i: int| 0 <= i < t.len() && t[i] == '_';
        assert(rest[i - 2] == '_');
    }
}

proof fn lemma_as_typed(t: Seq<char>)
    requires
        t.len() > 0,
        !t.contains('_'),
        !text::is_white(t[0]),
        !text::is_white(t.last()),
    ensures
        text::trimmed(t) == t,
        t.filter(split::other_than('_')) == t,
{
    let none = Seq::<char>::empty();
    text_laws::law_trimmed_middle(none, t, none);
    assert(none + t + none =~= t);
    lemma_same_filter(t);
}

/// Underscores in a number that was typed do not count.
pub proof fn law_underscores(t: Seq<char>)
    requires
        t.len() > 0,
        !text::is_white(t[0]),
        !text::is_white(t.last()),
        t.filter(|c: char| c != '_').len() > 0,
        !text::is_white(t.filter(|c: char| c != '_')[0]),
        !text::is_white(t.filter(|c: char| c != '_').last()),
        !t.filter(|c: char| c != '_').contains('_'),
    ensures
        (visual_source::typed_number(t) is Ok) == (visual_source::typed_number(
            t.filter(|c: char| c != '_'),
        ) is Ok),
        visual_source::typed_number(t) is Ok ==> visual_source::typed_number(t)
            == visual_source::typed_number(t.filter(|c: char| c != '_')),
{
    let none = Seq::<char>::empty();
    let f = t.filter(|c: char| c != '_');
    assert(split::other_than('_') =~= |c: char| c != '_');
    text_laws::law_trimmed_middle(none, t, none);
    assert(none + t + none =~= t);
    text_laws::law_trimmed_middle(none, f, none);
    assert(none + f + none =~= f);
    lemma_same_filter(f);
}

/// A delay that was typed: none where nothing or zero was typed.
pub proof fn law_typed_delay(t: Seq<char>)
    requires
        t.len() > 0,
        !text::is_white(t[0]),
        !text::is_white(t.last()),
    ensures
        visual_source::typed_delay(Seq::empty()) == Ok::<Option<nat>, Seq<char>>(None),
        match visual_source::typed_number(t) {
            Ok(n) => visual_source::typed_delay(t) == Ok::<Option<nat>, Seq<char>>(
                if n > 0 {
                    Some(n)
                } else {
                    None
                },
            ),
            Err(e) => visual_source::typed_delay(t) == Err::<Option<nat>, Seq<char>>(e),
        },
{
    let none = Seq::<char>::empty();
    text_laws::law_trimmed_middle(none, t, none);
    assert(none + t + none =~= t);
    assert(text::trimmed(none) =~= none);
}

/// An expression that was typed is taken without the white space around it, unless it is empty or
/// holds a semicolon or a line break.
pub proof fn law_typed_expression(raw: Seq<char>, label: Seq<char>)
    ensures
        ({
            let r = visual_source::typed_expr(raw, label);
            let t = text::trimmed(raw);
            &&& r is Ok <==> t.len() > 0 && !t.contains(';') && !t.contains('\n')
            &&& r is Ok ==> r == Ok::<Seq<char>, Seq<char>>(t)
            &&& t.len() == 0 ==> r == Err::<Seq<char>, Seq<char>>(label + " is required"@)
        }),
{
}

/// The value of hexadecimal digits: two to a byte, the first byte alone where their number is odd.
pub proof fn law_hex_bytes(s: Seq<char>, i: int)
    requires
        0 <= i < (s.len() + 1) / 2,
        input::all_hex(s),
    ensures
        ({
            let b = input::hex_value(s);
            let at = |k: int| text::digit_value(s[k], 16)->Some_0 as int;
            &&& b.len() == (s.len() + 1) / 2
            &&& s.len() % 2 == 0 ==> b[i] == 16 * at(2 * i) + at(2 * i + 1)
            &&& s.len() % 2 == 1 && i > 0 ==> b[i] == 16 * at(2 * i - 1) + at(2 * i)
            &&& s.len() % 2 == 1 && i == 0 ==> b[0] == at(0)
        }),
{
    let p = if s.len() % 2 == 0 {
        s
    } else {
        seq!['0'] + s
    };
    if s.len() % 2 == 0 {
        assert(text::digit_value(s[2 * i], 16) is Some);
        assert(text::digit_value(s[2 * i + 1], 16) is Some);
    } else if i > 0 {
        assert(p[2 * i] == s[2 * i - 1] && p[2 * i + 1] == s[2 * i]);
        assert(text::digit_value(s[2 * i - 1], 16) is Some);
        assert(text::digit_value(s[2 * i], 16) is Some);
    } else {
        assert(p[0] == '0' && p[1] == s[0]);
        assert(text::digit_value(s[0], 16) is Some);
    }
}

/// Bytes that were typed one by one are taken in their order; a token of more than one byte is
/// refused among several.
pub proof fn law_typed_tokens(tokens: Seq<Seq<char>>, token: Seq<char>)
    ensures
        input::single_bytes(Seq::empty()) == Ok::<Seq<u8>, Seq<char>>(Seq::empty()),
        input::single_bytes(tokens) matches Err(e) ==> input::single_bytes(tokens.push(token))
            == Err::<Seq<u8>, Seq<char>>(e),
        input::single_bytes(tokens) matches Ok(done) ==> (match input::token_bytes(token) {
            Err(e) => input::single_bytes(tokens.push(token)) == Err::<Seq<u8>, Seq<char>>(e),
            Ok(b) => if b.len() == 1 {
                input::single_bytes(tokens.push(token)) == Ok::<Seq<u8>, Seq<char>>(done + b)
            } else {
                input::single_bytes(tokens.push(token)) is Err
            },
        }),
{
    assert(tokens.push(token).drop_last() =~= tokens);
}

/// A token is read in hexadecimal, with `0x` in front or without, and underscores do not count.
#[verifier::rlimit(90)]
pub proof fn law_typed_token(digits: Seq<char>)
    requires
        digits.len() > 0,
        !digits.contains('_'),
        !text::is_white(digits[0]),
        !text::is_white(digits.last()),
        digits.len() < 2 || digits[0] != '0' || (digits[1] != 'x' && digits[1] != 'X'),
    ensures
        (forall|i: int| 0 <= i < digits.len() ==> text::digit_value(#[trigger] digits[i], 16) is Some)
            ==> input::token_bytes(digits) == Ok::<Seq<u8>, Seq<char>>(input::hex_value(digits))
            && input::token_bytes(seq!['0', 'x'] + digits) == Ok::<Seq<u8>, Seq<char>>(
            input::hex_value(digits),
        ),
        !(forall|i: int|
            0 <= i < digits.len() ==> text::digit_value(#[trigger] digits[i], 16) is Some)
            ==> input::token_bytes(digits) is Err,
{
    lemma_as_typed(digits);
    let x = seq!['0', 'x'] + digits;
    lemma_ends_trimmed(x);
    assert(x.skip(2) =~= digits);
}

proof fn lemma_ends_trimmed(t: Seq<char>)
    requires
        t.len() > 0,
        !text::is_white(t[0]),
        !text::is_white(t.last()),
    ensures
        text::trimmed(t) == t,
{
    let none = Seq::<char>::empty();
    text_laws::law_trimmed_middle(none, t, none);
    assert(none + t + none =~= t);
}

/// Commas, semicolons and brackets between bytes that are typed count as blanks.
pub proof fn law_typed_separators(c: char)
    ensures
        c == ',' || c == ';' || c == '[' || c == ']' || c == '{' || c == '}' ==> input::spaced(c)
            == ' ',
        c != ',' && c != ';' && c != '[' && c != ']' && c != '{' && c != '}' ==> input::spaced(c)
            == c,
{
}

// ---- blocks

/// A sequence has a name: what was typed without the white space around it, and one of its own where
/// nothing is left.
pub proof fn law_settled_name(raw: Seq<char>)
    ensures
        text::trimmed(raw).len() > 0 ==> blocks::settled_name(raw) == text::trimmed(raw),
        text::trimmed(raw).len() == 0 ==> blocks::settled_name(raw) == "Untitled"@,
{
}

/// What is taken over of a sequence: its settled name, and of each step in its place the kind and
/// the texts without the white space around them.
pub proof fn law_blueprint(s: SequenceView, i: int)
    requires
        0 <= i < s.steps.len(),
    ensures
        ({
            let b = blocks::blueprint(s);
            let (before, after) = (s.steps[i], b.steps[i]);
            &&& b.name == blocks::settled_name(s.name)
            &&& b.steps.len() == s.steps.len()
            &&& after.kind == before.kind
            &&& after.address == text::trimmed(before.address)
            &&& after.read_len == text::trimmed(before.read_len)
            &&& after.data == text::trimmed(before.data)
            &&& after.delay_us == text::trimmed(before.delay_us)
        }),
{
}

/// Names are alike where they differ in capitals alone.
pub proof fn law_alike(a: Seq<char>, b: Seq<char>, c: char)
    ensures
        'A' <= c <= 'Z' ==> blocks::lower(c) as u32 == c as u32 + 32,
        !('A' <= c <= 'Z') ==> blocks::lower(c) == c,
        blocks::alike(a, b) <==> a.len() == b.len() && forall|i: int|
            0 <= i < a.len() ==> blocks::lower(#[trigger] a[i]) == blocks::lower(b[i]),
{
    let (x, y) = (a.map_values(|c: char| blocks::lower(c)), b.map_values(|c: char| blocks::lower(c)));
    assert(x.len() == a.len() && y.len() == b.len());
    if x == y {
        assert forall|i: int| 0 <= i < a.len() implies blocks::lower(#[trigger] a[i])
            == blocks::lower(b[i]) by {
            assert(x[i] == blocks::lower(a[i]));
            assert(y[i] == blocks::lower(b[i]));
        }
    }
    if a.len() == b.len() && forall|i: int|
        0 <= i < a.len() ==> blocks::lower(#[trigger] a[i]) == blocks::lower(b[i]) {
        assert(x =~= y);
    }
}

/// An address that names a register: the page stands before the first dot, where there is one.
pub proof fn law_named_address(page: Seq<char>, name: Seq<char>)
    requires
        !page.contains('.'),
    ensures
        blocks::page_and_name(page + seq!['.'] + name) == (
            Some(text::trimmed(page)),
            text::trimmed(name),
        ),
        blocks::page_and_name(page) == (None::<Seq<char>>, page),
{
    let dots = seq!['.'];
    assert(dots.contains('.')) by {
        assert(dots[0] == '.');
    }
    assert forall|k: int| 0 <= k < page.len() implies !dots.contains(#[trigger] page[k]) by {
        assert(page.contains(page[k]));
    }
    scan_laws::law_pieces_of_text(page, '.', name, dots);
    let s = page + seq!['.'] + name;
    assert(s.take(page.len() as int) =~= page);
    assert(s.skip(page.len() as int + 1) =~= name);
}

/// The registers that a step addresses: by a number those that take it in, by a name those that are
/// named so, and on the page where one is told.
pub proof fn law_addressed_registers(regs: Seq<RegView>, address: Seq<char>)
    ensures
        ({
            let a = text::trimmed(address);
            let found = blocks::registers_of(regs, address);
            let (page, name) = blocks::page_and_name(a);
            &&& a.len() == 0 ==> found.len() == 0
            &&& a.len() > 0 ==> (match visual_source::typed_number(a) {
                Ok(n) => found == regs.filter(
                    |r: RegView|
                        r.addr <= n as u32 && (n as u32) < r.addr + (if r.width == 0 {
                            1
                        } else {
                            r.width as int
                        }),
                ),
                Err(_) => found == regs.filter(
                    |r: RegView|
                        blocks::alike(r.name, name) && (page is None || blocks::alike(
                            r.page,
                            page->Some_0,
                        )),
                ),
            })
        }),
{
    let a = text::trimmed(address);
    let (page, name) = blocks::page_and_name(a);
    match visual_source::typed_number(a) {
        Ok(n) => {
            assert(catalog::at_addr(n as u32) =~= |r: RegView|
                r.addr <= n as u32 && (n as u32) < r.addr + (if r.width == 0 {
                    1
                } else {
                    r.width as int
                }));
        },
        Err(_) => {
            assert(blocks::named(page, name) =~= |r: RegView|
                blocks::alike(r.name, name) && (page is None || blocks::alike(r.page, page->Some_0)));
        },
    }
}

/// A step is objected to where registers are known at its address and none of them allows it: a
/// read needs `r`, a write `w`, and a register that tells nothing allows both.
pub proof fn law_objection(regs: Seq<RegView>, name: Seq<char>, i: int, step: StepView)
    ensures
        ({
            let at = blocks::registers_of(regs, step.address);
            let o = blocks::step_objections(regs, name, i, step);
            let allows = |r: RegView|
                r.access.len() == 0 || (step.kind == VisualStepKind::Read && (r.access.contains('r')
                    || r.access.contains('R'))) || (step.kind == VisualStepKind::Write && (
                r.access.contains('w') || r.access.contains('W')));
            &&& o.len() <= 1
            &&& o.len() == 1 <==> at.len() > 0 && forall|k: int|
                0 <= k < at.len() ==> !allows(#[trigger] at[k])
            &&& o.len() == 1 && step.kind == VisualStepKind::Read ==> o[0] == name + " step "@
                + text::dec((i + 1) as nat) + ": "@ + text::trimmed(step.address)
                + " is not readable according to chip metadata"@
            &&& o.len() == 1 && step.kind == VisualStepKind::Write ==> o[0] == name + " step "@
                + text::dec((i + 1) as nat) + ": "@ + text::trimmed(step.address)
                + " is not writable according to chip metadata"@
        }),
{
    let at = blocks::registers_of(regs, step.address);
    let allows = |r: RegView|
        r.access.len() == 0 || (step.kind == VisualStepKind::Read && (r.access.contains('r')
            || r.access.contains('R'))) || (step.kind == VisualStepKind::Write && (
        r.access.contains('w') || r.access.contains('W')));
    assert forall|r: RegView| #[trigger] blocks::allowed(step.kind, r.access) == allows(r) by {}
    if blocks::any_allows(step.kind, at) {
        let k = choose|k: int| 0 <= k < at.len() && blocks::allowed(step.kind, (#[trigger] at[k]).access);
        assert(allows(at[k]));
    } else {
        assert forall|k: int| 0 <= k < at.len() implies !allows(#[trigger] at[k]) by {
            assert(!blocks::allowed(step.kind, at[k].access));
        }
    }
}

/// Objections come in the order of the sequences and, in each, of the steps.
pub proof fn law_objections_in_order(
    regs: Seq<RegView>,
    sequences: Seq<SequenceView>,
    s: SequenceView,
    steps: Seq<StepView>,
    step: StepView,
)
    ensures
        blocks::objections(regs, Seq::empty()).len() == 0,
        blocks::objections(regs, sequences.push(s)) == blocks::objections(regs, sequences)
            + blocks::steps_objections(regs, s.name, s.steps),
        blocks::steps_objections(regs, s.name, Seq::empty()).len() == 0,
        blocks::steps_objections(regs, s.name, steps.push(step)) == blocks::steps_objections(
            regs,
            s.name,
            steps,
        ) + blocks::step_objections(regs, s.name, steps.len() as int, step),
{
    assert(sequences.push(s).drop_last() =~= sequences);
    assert(steps.push(step).drop_last() =~= steps);
}

/// The number of steps is that of each sequence, summed up.
pub proof fn law_step_count(sequences: Seq<SequenceView>, s: SequenceView)
    ensures
        blocks::step_count(Seq::empty()) == 0,
        blocks::step_count(sequences.push(s)) == blocks::step_count(sequences) + s.steps.len(),
{
    assert(sequences.push(s).drop_last() =~= sequences);
}

/// Faults come in the order of the sequences and, in each, of the steps; a sequence without a name
/// or without steps is a fault, and so is to have none.
pub proof fn law_faults_in_order(
    sequences: Seq<SequenceView>,
    s: SequenceView,
    steps: Seq<StepView>,
    step: StepView,
)
    ensures
        visual_source::faults(Seq::empty()) == seq!["add at least one visual sequence"@],
        visual_source::faults(seq![s]) == visual_source::sequence_faults(s),
        sequences.len() > 0 ==> visual_source::faults(sequences.push(s)) == visual_source::faults(
            sequences,
        ) + visual_source::sequence_faults(s),
        visual_source::sequence_faults(s).len() == 0 ==> text::trimmed(s.name).len() > 0
            && s.steps.len() > 0,
        visual_source::steps_faults(s.name, Seq::empty()).len() == 0,
        visual_source::steps_faults(s.name, steps.push(step)) == visual_source::steps_faults(
            s.name,
            steps,
        ) + visual_source::step_faults(
            s.name + " step "@ + text::dec(steps.len() + 1),
            step,
        ),
{
    assert(sequences.push(s).drop_last() =~= sequences);
    assert(steps.push(step).drop_last() =~= steps);
    let none = Seq::<SequenceView>::empty();
    assert(seq![s].drop_last() =~= none);
    assert(visual_source::all_faults(none) =~= Seq::<Seq<char>>::empty());
    assert(visual_source::faults(seq![s]) =~= visual_source::sequence_faults(s));
    if visual_source::sequence_faults(s).len() == 0 {
        assert(visual_source::name_faults(s.name).len() == 0);
    }
}

/// A step has a fault exactly where it cannot be written down: it needs an address, a delay that is
/// a number, and a length to read or bytes to write.
pub proof fn law_step_faults(label: Seq<char>, step: StepView)
    ensures
        visual_source::step_faults(label, step).len() == 0 <==> visual_source::step_line(step) is Ok,
        visual_source::step_line(step) is Ok <==> {
            &&& visual_source::typed_expr(step.address, "address"@) is Ok
            &&& visual_source::typed_delay(step.delay_us) is Ok
            &&& step.kind == VisualStepKind::Read ==> visual_source::typed_expr(
                step.read_len,
                "read length"@,
            ) is Ok
            &&& step.kind == VisualStepKind::Write ==> visual_source::typed_data(step.data) is Ok
        },
{
}

/// A text ends its last line with a line break or without one: the lines are as many.
pub proof fn law_line_count(line: Seq<char>, rest: Seq<char>)
    requires
        !line.contains('\n'),
        rest.len() > 0,
    ensures
        blocks::line_count(line) == 1,
        blocks::line_count(line + seq!['\n']) == 1,
        blocks::line_count(line + seq!['\n'] + rest) == 1 + blocks::line_count(rest),
{
    let breaks = seq!['\n'];
    assert(breaks.contains('\n')) by {
        assert(breaks[0] == '\n');
    }
    assert forall|k: int| 0 <= k < line.len() implies !breaks.contains(#[trigger] line[k]) by {
        assert(line.contains(line[k]));
    }
    let none = Seq::<char>::empty();
    scan_laws::law_pieces_of_text(line, '\n', rest, breaks);
    scan_laws::law_pieces_of_text(line, '\n', none, breaks);
    scan_laws::law_pieces_of_text(none, '\n', none, breaks);
    assert(line + seq!['\n'] + none =~= line + seq!['\n']);
    let tail = split::pieces(rest, breaks);
    assert(tail.len() > 0);
    let all = seq![line] + tail;
    assert(all.last() == tail.last());
    reveal_with_fuel(split::pieces_from, 2);
    assert(rest.skip(0) =~= rest);
    if tail.len() == 1 {
        assert(tail =~= seq![rest]);
    }
}

// ---- blocks from text

/// What a line of a program adds to the sequences that were found: a name begins the next one, a
/// call to read or write is its next step, and any other line adds nothing.
pub proof fn law_found_lines(f: Found, lines: Seq<Seq<char>>, line: Seq<char>)
    ensures
        visual::found_after(f, Seq::empty()) == f,
        ({
            let before = visual::found_after(f, lines);
            let after = visual::found_after(f, lines.push(line));
            match visual::line_view(text::trimmed(line)) {
                LineView::Other => after == before,
                LineView::Step(step) => after.done == before.done && after.current.name
                    == before.current.name && after.current.steps == before.current.steps + seq![
                    step,
                ],
                LineView::Name(name) => after.current.name == name && after.current.steps.len() == 0
                    && after.done == visual::all_found(before),
            }
        }),
        f.current.steps.len() > 0 || f.current.name != "Imported Text"@ ==> visual::all_found(f)
            == f.done.push(f.current),
        f.current.steps.len() == 0 && f.current.name == "Imported Text"@ ==> visual::all_found(f)
            == f.done,
{
    assert(lines.push(line).drop_last() =~= lines);
    let before = visual::found_after(f, lines);
    match visual::line_view(text::trimmed(line)) {
        LineView::Step(step) => {
            assert(before.current.steps.push(step) =~= before.current.steps + seq![step]);
        },
        _ => {},
    }
}

/// A call with an address and a second argument is a step: what it reads is told by its length, what
/// it writes by its data, and the delay is zero unless a third argument tells it.
pub proof fn law_step_of_a_call(a: Seq<char>, b: Seq<char>, c: Seq<char>)
    ensures
        visual::line_of_call(VisualStepKind::Read, seq![a]) == LineView::Other,
        visual::line_of_call(VisualStepKind::Read, seq![a, b]) == LineView::Step(
            StepView {
                kind: VisualStepKind::Read,
                address: a,
                read_len: b,
                data: ""@,
                delay_us: "0"@,
            },
        ),
        visual::line_of_call(VisualStepKind::Read, seq![a, b, c]) == LineView::Step(
            StepView {
                kind: VisualStepKind::Read,
                address: a,
                read_len: b,
                data: ""@,
                delay_us: c,
            },
        ),
        visual::line_of_call(VisualStepKind::Write, seq![a, b]) == LineView::Step(
            StepView {
                kind: VisualStepKind::Write,
                address: a,
                read_len: "1"@,
                data: b,
                delay_us: "0"@,
            },
        ),
        visual::line_of_call(VisualStepKind::Write, seq![a, b, c]) == LineView::Step(
            StepView {
                kind: VisualStepKind::Write,
                address: a,
                read_len: "1"@,
                data: b,
                delay_us: c,
            },
        ),
{
}

// ---- sources from blocks

/// A source is written where nothing is wrong with the blocks and no register forbids a step;
/// otherwise all that is wrong is told, the faults of the blocks first.
pub proof fn law_written_source(
    regs: Seq<RegView>,
    sequences: Seq<SequenceView>,
    chips: Seq<Seq<char>>,
)
    ensures
        ({
            let list = blocks::blueprints(sequences);
            let r = blocks::source_of_all(regs, sequences, chips);
            let wrong = visual_source::faults(list) + blocks::objections(regs, list);
            &&& list.len() == sequences.len()
            &&& forall|i: int|
                0 <= i < list.len() ==> #[trigger] list[i] == blocks::blueprint(sequences[i])
            &&& r is Ok <==> wrong.len() == 0
            &&& r matches Err(e) ==> e == wrong
            &&& r is Ok ==> r == visual_source::source_of(list, chips)
        }),
{
}

/// Of the blocks that are shown alone, only those are looked at; there may be none.
pub proof fn law_written_source_of_one(
    regs: Seq<RegView>,
    e: EditorView,
    chips: Seq<Seq<char>>,
)
    requires
        0 <= e.active,
    ensures
        e.active >= e.sequences.len() ==> blocks::source_of_active(regs, e, chips) == Err::<
            Seq<char>,
            Seq<Seq<char>>,
        >(seq!["no active visual sequence"@]),
        e.active < e.sequences.len() ==> {
            let list = seq![blocks::blueprint(e.sequences[e.active])];
            let r = blocks::source_of_active(regs, e, chips);
            &&& blocks::objections(regs, list).len() > 0 ==> r == Err::<Seq<char>, Seq<Seq<char>>>(
                blocks::objections(regs, list),
            )
            &&& blocks::objections(regs, list).len() == 0 ==> r == visual_source::source_of(
                list,
                chips,
            )
        },
{
}

/// Data that was typed as a list stays as it is; other data is read as bytes, and one byte is
/// written alone, several as a list.
pub proof fn law_typed_data(t: Seq<char>)
    requires
        t.len() > 0,
        !text::is_white(t[0]),
        !text::is_white(t.last()),
    ensures
        t[0] == '[' || t[0] == '{' ==> visual_source::typed_data(t) == Ok::<Seq<char>, Seq<char>>(t),
        t[0] != '[' && t[0] != '{' ==> (match input::write_bytes(t) {
            Err(e) => visual_source::typed_data(t) == Err::<Seq<char>, Seq<char>>(e),
            Ok(b) => visual_source::typed_data(t) == Ok::<Seq<char>, Seq<char>>(
                if b.len() == 1 {
                    "0x"@ + text::hex(b[0] as nat, 2)
                } else {
                    "["@ + text::joined(
                        b.map_values(|x: u8| "0x"@ + text::hex(x as nat, 2)),
                        ", "@,
                    ) + "]"@
                },
            ),
        }),
        visual_source::typed_data(Seq::empty()) is Err,
{
    lemma_ends_trimmed(t);
    let none = Seq::<char>::empty();
    assert(text::trimmed(none) =~= none);
    match input::write_bytes(t) {
        Ok(b) => {
            assert(b.map_values(|x: u8| "0x"@ + text::hex(x as nat, 2)) =~= b.map_values(
                |x: u8| visual_source::byte_text(x),
            ));
        },
        Err(_) => {},
    }
}

/// A text behind whose backslashes the next character is taken as it is.
pub open spec fn unescaped(s: Seq<char>) -> Seq<char>
    decreases s.len(),
{
    if s.len() == 0 {
        s
    } else if s[0] == '\\' && s.len() >= 2 {
        seq![s[1]] + unescaped(s.skip(2))
    } else {
        seq![s[0]] + unescaped(s.skip(1))
    }
}

proof fn lemma_escaped_front(c: char, rest: Seq<char>)
    ensures
        visual_source::escaped(seq![c] + rest) == visual_source::escaped_char(c)
            + visual_source::escaped(rest),
    decreases rest.len(),
{
    let all = seq![c] + rest;
    let none = Seq::<char>::empty();
    if rest.len() == 0 {
        assert(all.drop_last() =~= none);
        assert(visual_source::escaped(none) =~= none);
        assert(visual_source::escaped(rest) =~= none);
        assert(visual_source::escaped(all) =~= visual_source::escaped_char(c)
            + visual_source::escaped(rest));
    } else {
        assert(all.drop_last() =~= seq![c] + rest.drop_last());
        lemma_escaped_front(c, rest.drop_last());
        assert(visual_source::escaped(all) =~= visual_source::escaped_char(c)
            + visual_source::escaped(rest));
    }
}

/// A text that was put between quotation marks with escapes is read back, and no quotation mark in
/// it stands without a backslash before it.
pub proof fn law_escaped_text(s: Seq<char>)
    ensures
        unescaped(visual_source::escaped(s)) == s,
        !s.contains('"') && !s.contains('\\') ==> visual_source::escaped(s) == s,
    decreases s.len(),
{
    if s.len() > 0 {
        let rest = s.skip(1);
        assert(s =~= seq![s[0]] + rest);
        lemma_escaped_front(s[0], rest);
        law_escaped_text(rest);
        let e = visual_source::escaped(s);
        let one = visual_source::escaped_char(s[0]);
        assert(e.skip(one.len() as int) =~= visual_source::escaped(rest));
        assert(s.contains(s[0]));
        if !s.contains('"') && !s.contains('\\') {
            assert(!rest.contains('"') && !rest.contains('\\')) by {
                if rest.contains('"') {
                    let i = choose|i: int| 0 <= i < rest.len() && rest[i] == '"';
                    assert(s[i + 1] == '"');
                }
                if rest.contains('\\') {
                    let i = choose|i: int| 0 <= i < rest.len() && rest[i] == '\\';
                    assert(s[i + 1] == '\\');
                }
            }
        }
    }
}

/// The decoders that sources declare are collected source by source; a fault is told with the name
/// of its source.
pub proof fn law_collected_sources(
    values: Seq<(String, u32)>,
    first: ParsedSource,
    rest: Seq<ParsedSource>,
    c: Collected,
)
    ensures
        program::after_sources(values, Seq::empty(), c) == c,
        c.error is Some ==> program::after_sources(values, rest, c) == c,
        c.error is None ==> ({
            let next = program::after_stmts(values, first.stmts@, c);
            &&& next.error is None ==> program::after_sources(values, seq![first] + rest, c)
                == program::after_sources(values, rest, next)
            &&& next.error matches Some(e) ==> program::after_sources(values, seq![first] + rest, c)
                == (Collected { error: Some(first.name@ + ": "@ + e), ..next })
        }),
{
    assert((seq![first] + rest).skip(1) =~= rest);
    assert((seq![first] + rest)[0] == first);
    reveal_with_fuel(program::after_sources, 2);
}

/// A number that is out of range is told as too large, a character that is no digit as invalid, and
/// nothing as empty.
pub proof fn law_number_faults(s: Seq<char>, base: nat, max: nat)
    requires
        base >= 1,
    ensures
        numbers::number_fault(Seq::empty(), base, max) == Some(
            "cannot parse integer from empty string"@,
        ),
        numbers::number_fault(seq!['+'], base, max) == Some("invalid digit found in string"@),
        text::bounded_value(s, base, max) is Some ==> numbers::number_of(s, base, max) == Ok::<
            nat,
            Seq<char>,
        >(text::bounded_value(s, base, max)->Some_0),
        text::bounded_value(s, base, max) is None ==> numbers::number_of(s, base, max) is Err,
        s.len() > 0 && text::digit_value(s[0], base) is None && s[0] != '+' ==> numbers::number_fault(
            s,
            base,
            max,
        ) == Some("invalid digit found in string"@),
        text::digits_value(s, base) is Some && text::digits_value(s, base)->Some_0 > max && s.len()
            > 0 && s[0] != '+' ==> numbers::number_fault(s, base, max) == Some(
            "number too large to fit in target type"@,
        ),
{
    assert(seq!['+'].len() == 1 && seq!['+'][0] == '+');
    if text::digits_value(s, base) is Some && s.len() > 0 && s[0] != '+' && text::digits_value(
        s,
        base,
    )->Some_0 > max {
        assert(s != seq!['+']);
        assert(s.take(0) =~= Seq::<char>::empty());
        lemma_too_large(s, 0, base, max);
    }
}

proof fn lemma_digits_before(s: Seq<char>, n: int, base: nat)
    requires
        0 <= n <= s.len(),
        text::digits_value(s, base) is Some,
    ensures
        text::digits_value(s.take(n), base) is Some,
        base >= 1 ==> text::digits_value(s.take(n), base)->Some_0 <= text::digits_value(
            s,
            base,
        )->Some_0,
    decreases s.len() - n,
{
    if n == s.len() {
        assert(s.take(n) =~= s);
    } else {
        lemma_digits_before(s, n + 1, base);
        assert(s.take(n + 1).drop_last() =~= s.take(n));
        let a = text::digits_value(s.take(n), base)->Some_0;
        if base >= 1 {
            assert(a <= a * base) by (nonlinear_arith)
                requires
                    base >= 1,
            ;
        }
    }
}

proof fn lemma_too_large(s: Seq<char>, at: int, base: nat, max: nat)
    requires
        0 <= at <= s.len(),
        base >= 1,
        text::digits_value(s, base) is Some,
        text::digits_value(s, base)->Some_0 > max,
        text::digits_value(s.take(at), base) is Some,
        text::digits_value(s.take(at), base)->Some_0 <= max || at == 0,
    ensures
        numbers::digits_fault(
            s,
            at,
            text::digits_value(s.take(at), base)->Some_0,
            base,
            max,
        ) == Some("number too large to fit in target type"@),
    decreases s.len() - at,
{
    if at == s.len() {
        assert(s.take(at) =~= s);
    } else {
        lemma_digits_before(s, at + 1, base);
        assert(s.take(at + 1).drop_last() =~= s.take(at));
        assert(s.take(at + 1).last() == s[at]);
        let n = text::digits_value(s.take(at + 1), base)->Some_0;
        if n <= max {
            lemma_too_large(s, at + 1, base, max);
        }
    }
}

/// Declarations in the arms of an interrupt are collected arm by arm, up to the first fault.
pub proof fn law_collected_arms(values: Seq<(String, u32)>, arms: Seq<IrqArm>, c: Collected)
    ensures
        arms.len() == 0 || c.error is Some ==> program::after_arms(values, arms, c) == c,
        arms.len() > 0 && c.error is None ==> program::after_arms(values, arms, c)
            == program::after_arms(
            values,
            arms.skip(1),
            program::after_stmts(values, arms[0].body@, c),
        ),
        forall|pin: String, v: Vec<IrqArm>|
            v@ == arms ==> #[trigger] program::after_stmt(values, Stmt::Irq { pin, arms: v }, c)
                == program::after_arms(values, arms, c),
{
    reveal_with_fuel(program::after_arms, 2);
    reveal_with_fuel(program::after_stmt, 2);
}

/// The lines of a source that is written: a heading, the first chip where one is named, and for each
/// sequence in its order its mark with the name, a line that prints the name, its steps, and an empty
/// line. Each line ends with a line break.
pub proof fn law_source_lines(
    sequences: Seq<SequenceView>,
    s: SequenceView,
    chips: Seq<Seq<char>>,
    lines: Seq<Seq<char>>,
    line: Seq<char>,
    i: int,
)
    ensures
        visual_source::text_of(Seq::empty()).len() == 0,
        visual_source::text_of(lines.push(line)) == visual_source::text_of(lines) + line + "\n"@,
        visual_source::head_lines(Seq::empty()) == seq!["// Generated by rseq-gpui Blocks view."@],
        chips.len() > 0 ==> visual_source::head_lines(chips) == seq![
            "// Generated by rseq-gpui Blocks view."@,
            "chip!(\""@ + visual_source::escaped(chips[0]) + "\");"@,
            ""@,
        ],
        visual_source::all_lines(Seq::empty()).len() == 0,
        visual_source::all_lines(sequences.push(s)) == visual_source::all_lines(sequences)
            + visual_source::sequence_lines(s),
        ({
            let all = visual_source::sequence_lines(s);
            &&& all.len() == s.steps.len() + 3
            &&& all[0] == "// rseq-gpui:sequence "@ + s.name
            &&& all[1] == "print!(\"sequence: "@ + visual_source::escaped(s.name) + "\\n\");"@
            &&& 0 <= i < s.steps.len() ==> all[2 + i] == visual_source::step_line(s.steps[i])->Ok_0
            &&& all.last() == ""@
        }),
        visual_source::faults(sequences).len() == 0 ==> visual_source::source_of(sequences, chips)
            == Ok::<Seq<char>, Seq<Seq<char>>>(
            visual_source::text_of(
                visual_source::head_lines(chips) + visual_source::all_lines(sequences),
            ),
        ),
        visual_source::faults(sequences).len() > 0 ==> visual_source::source_of(sequences, chips)
            == Err::<Seq<char>, Seq<Seq<char>>>(visual_source::faults(sequences)),
{
    assert(lines.push(line).drop_last() =~= lines);
    assert(sequences.push(s).drop_last() =~= sequences);
    if chips.len() > 0 {
        assert(visual_source::head_lines(chips) =~= seq![
            "// Generated by rseq-gpui Blocks view."@,
            "chip!(\""@ + visual_source::escaped(chips[0]) + "\");"@,
            ""@,
        ]);
    }
}

/// How a step is written: the call of its kind with the address, the length or the data, and the
/// delay where there is one.
pub proof fn law_written_step(step: StepView)
    requires
        visual_source::step_line(step) is Ok,
    ensures
        ({
            let s = visual_source::step_line(step)->Ok_0;
            let address = text::trimmed(step.address);
            let end = match visual_source::typed_delay(step.delay_us)->Ok_0 {
                Some(d) => ", "@ + text::dec(d) + ");"@,
                None => ");"@,
            };
            &&& step.kind == VisualStepKind::Read ==> s == "read!("@ + address + ", "@
                + text::trimmed(step.read_len) + end
            &&& step.kind == VisualStepKind::Write ==> s == "write!("@ + address + ", "@
                + visual_source::typed_data(step.data)->Ok_0 + end
        }),
{
}

/// The bytes of a text that was typed: at least one token, between blanks and separators. One token
/// alone may stand for several bytes; of several each stands for one.
pub proof fn law_typed_bytes(value: Seq<char>)
    ensures
        ({
            let t = text::trimmed(value);
            let tokens = split::words(t.map_values(|c: char| input::spaced(c)));
            &&& t.len() == 0 ==> input::write_bytes(value) == Err::<Seq<u8>, Seq<char>>(
                "enter at least one byte"@,
            )
            &&& t.len() > 0 && tokens.len() == 1 ==> input::write_bytes(value)
                == input::token_bytes(tokens[0])
            &&& t.len() > 0 && tokens.len() != 1 ==> input::write_bytes(value)
                == input::single_bytes(tokens)
        }),
{
}

/// The blocks of a text that holds none are one empty sequence.
pub proof fn law_shown_blocks(source: Seq<char>)
    ensures
        visual::blueprints_of(source).len() > 0 ==> visual::shown_sequences(source)
            == visual::blueprints_of(source),
        visual::blueprints_of(source).len() == 0 ==> visual::shown_sequences(source) == seq![
            SequenceView { name: "Startup"@, steps: Seq::empty() },
        ],
        visual::blueprints_of(source) == visual::all_found(
            visual::found_after(
                Found {
                    done: Seq::empty(),
                    current: SequenceView { name: "Imported Text"@, steps: Seq::empty() },
                },
                split::pieces(source, seq!['\n']),
            ),
        ),
{
}

} // verus!
