//! The text of sequences that were put together as blocks.
use crate::input;
use crate::input::parse_register_write_bytes;
use crate::split;
use crate::split::{strip_prefix, without};
use crate::text;
use crate::text::{chars_of, has_char, join, parse_number, push_dec, push_hex, trim};
use crate::text::{string_of, trim_text};
use crate::visual;
use crate::visual::{SequenceView, StepView};
use crate::visual::{VisualSequenceBlueprint, VisualStepBlueprint, VisualStepKind};
use vstd::prelude::*;

verus! {

// ---- parts of a step

/// A text, or why there is none.
pub open spec fn text_result(r: Result<String, String>) -> Result<Seq<char>, Seq<char>> {
    match r {
        Ok(s) => Ok(s@),
        Err(e) => Err(e@),
    }
}

/// An expression as it is typed, without white space around it.
pub open spec fn typed_expr(raw: Seq<char>, label: Seq<char>) -> Result<Seq<char>, Seq<char>> {
    let value = text::trimmed(raw);
    if value.len() == 0 {
        Err(label + " is required"@)
    } else if value.contains(';') || value.contains('\n') {
        Err(label + " contains an invalid separator"@)
    } else {
        Ok(value)
    }
}

/// An expression as it is typed, without white space around it.
pub fn validate_visual_expr(raw: &str, label: &str) -> (r: Result<String, String>)
    ensures
        text_result(r) == typed_expr(raw@, label@),
{
    let chars = chars_of(raw);
    let value = trim(&chars);
    if value.len() == 0 {
        let mut s: String = label.to_owned();
        s.push_str(" is required");
        return Err(s);
    }
    if has_char(value, ';') || has_char(value, '\n') {
        let mut s: String = label.to_owned();
        s.push_str(" contains an invalid separator");
        return Err(s);
    }
    Ok(string_of(value))
}

/// An address as it is typed, without white space around it.
pub fn validate_visual_address(raw: &str) -> (r: Result<String, String>)
    ensures
        text_result(r) == typed_expr(raw@, "address"@),
{
    validate_visual_expr(raw, "address")
}

/// What is told of a number that cannot be read.
pub open spec fn bad_number(what: Seq<char>, raw: Seq<char>) -> Seq<char> {
    "invalid "@ + what + " value `"@ + text::trimmed(raw) + "`"@
}

/// A number or what is told where it cannot be read.
pub open spec fn number_or(n: Option<nat>, fault: Seq<char>) -> Result<nat, Seq<char>> {
    match n {
        Some(n) => Ok(n),
        None => Err(fault),
    }
}

/// The number that is typed: hexadecimal behind `0x`, binary behind `0b`, else decimal.
/// Underscores do not count.
pub open spec fn typed_number(raw: Seq<char>) -> Result<nat, Seq<char>> {
    let t = text::trimmed(raw).filter(split::other_than('_'));
    if t.len() == 0 {
        Err("value is required"@)
    } else {
        match split::behind_prefix(t, 'x', 'X') {
            Some(h) => number_or(
                text::bounded_value(h, 16, u32::MAX as nat),
                bad_number("hex"@, raw),
            ),
            None => match split::behind_prefix(t, 'b', 'B') {
                Some(b) => number_or(
                    text::bounded_value(b, 2, u32::MAX as nat),
                    bad_number("binary"@, raw),
                ),
                None => number_or(
                    text::bounded_value(t, 10, u32::MAX as nat),
                    bad_number("decimal"@, raw),
                ),
            },
        }
    }
}

/// A number, or why there is none.
pub open spec fn number_result(r: Result<u32, String>) -> Result<nat, Seq<char>> {
    match r {
        Ok(n) => Ok(n as nat),
        Err(e) => Err(e@),
    }
}

fn number_text(digits: &[char], base: u32, what: &str, raw: &str) -> (r: Result<u32, String>)
    requires
        2 <= base <= 16,
    ensures
        number_result(r) == number_or(
            text::bounded_value(digits@, base as nat, u32::MAX as nat),
            bad_number(what@, raw@),
        ),
{
    match parse_number(digits, base, u32::MAX as u64) {
        Some(n) => Ok(n as u32),
        None => {
            let mut s: String = "invalid ".to_owned();
            s.push_str(what);
            s.push_str(" value `");
            s.push_str(trim_text(raw).as_str());
            s.push_str("`");
            Err(s)
        },
    }
}

/// The number that is typed.
pub fn parse_visual_number_u32(raw: &str) -> (r: Result<u32, String>)
    ensures
        number_result(r) == typed_number(raw@),
{
    let chars = chars_of(raw);
    let t = without(trim(&chars), '_');
    if t.len() == 0 {
        return Err("value is required".to_owned());
    }
    match strip_prefix(&t, 'x', 'X') {
        Some(h) => number_text(h, 16, "hex", raw),
        None => match strip_prefix(&t, 'b', 'B') {
            Some(b) => number_text(b, 2, "binary", raw),
            None => number_text(&t, 10, "decimal", raw),
        },
    }
}

/// The delay that is typed. None is typed as a zero or as nothing.
pub open spec fn typed_delay(raw: Seq<char>) -> Result<Option<nat>, Seq<char>> {
    let value = text::trimmed(raw);
    if value.len() == 0 {
        Ok(None)
    } else {
        match typed_number(value) {
            Ok(n) => Ok(
                if n == 0 {
                    None
                } else {
                    Some(n)
                },
            ),
            Err(e) => Err(e),
        }
    }
}

/// A delay, or why there is none.
pub open spec fn delay_result(r: Result<Option<u32>, String>) -> Result<Option<nat>, Seq<char>> {
    match r {
        Ok(Some(n)) => Ok(Some(n as nat)),
        Ok(None) => Ok(None),
        Err(e) => Err(e@),
    }
}

/// The delay that is typed.
pub fn parse_visual_delay(raw: &str) -> (r: Result<Option<u32>, String>)
    ensures
        delay_result(r) == typed_delay(raw@),
{
    let value: String = trim_text(raw);
    if chars_of(value.as_str()).len() == 0 {
        return Ok(None);
    }
    match parse_visual_number_u32(value.as_str()) {
        Ok(n) => if n == 0 {
            Ok(None)
        } else {
            Ok(Some(n))
        },
        Err(e) => Err(e),
    }
}

/// A byte as it is written.
pub open spec fn byte_text(b: u8) -> Seq<char> {
    "0x"@ + text::hex(b as nat, 2)
}

/// Bytes as they are written.
pub open spec fn bytes_text(bytes: Seq<u8>) -> Seq<char> {
    if bytes.len() == 1 {
        byte_text(bytes[0])
    } else {
        "["@ + text::joined(bytes.map_values(|b: u8| byte_text(b)), ", "@) + "]"@
    }
}

/// Whether data is given as a list or by fields.
pub open spec fn is_bracketed(value: Seq<char>) -> bool {
    value.len() > 0 && (value[0] == '{' || value[0] == '[')
}

/// The data that is typed: bytes, or what stands in brackets as it is.
pub open spec fn typed_data(raw: Seq<char>) -> Result<Seq<char>, Seq<char>> {
    let value = text::trimmed(raw);
    if value.len() == 0 {
        Err("write data is required"@)
    } else if is_bracketed(value) {
        Ok(value)
    } else {
        match input::write_bytes(value) {
            Ok(bytes) => Ok(bytes_text(bytes)),
            Err(e) => Err(e),
        }
    }
}

fn format_bytes(bytes: &[u8]) -> (s: String)
    ensures
        s@ == bytes_text(bytes@),
{
    if bytes.len() == 1 {
        let mut s: String = "0x".to_owned();
        push_hex(&mut s, bytes[0] as u128, 2);
        return s;
    }
    let ghost all = bytes@.map_values(|b: u8| byte_text(b));
    let mut parts: Vec<String> = Vec::new();
    let mut i: usize = 0;
    while i < bytes.len()
        invariant
            i <= bytes.len(),
            all == bytes@.map_values(|b: u8| byte_text(b)),
            text::texts(parts@) == all.take(i as int),
        decreases bytes.len() - i,
    {
        let mut p: String = "0x".to_owned();
        push_hex(&mut p, bytes[i] as u128, 2);
        let ghost before = text::texts(parts@);
        parts.push(p);
        assert(text::texts(parts@) =~= before.push(p@));
        assert(all.take(i + 1) =~= all.take(i as int).push(all[i as int]));
        i += 1;
    }
    assert(all.take(all.len() as int) =~= all);
    let mut s: String = "[".to_owned();
    s.push_str(join(&parts, ", ").as_str());
    s.push_str("]");
    s
}

/// The data that is typed.
pub fn format_visual_write_data(raw: &str) -> (r: Result<String, String>)
    ensures
        text_result(r) == typed_data(raw@),
{
    let chars = chars_of(raw);
    let value = trim(&chars);
    if value.len() == 0 {
        return Err("write data is required".to_owned());
    }
    if value[0] == '{' || value[0] == '[' {
        return Ok(string_of(value));
    }
    match parse_register_write_bytes(string_of(value).as_str()) {
        Ok(bytes) => Ok(format_bytes(&bytes)),
        Err(e) => Err(e),
    }
}

// ---- steps

/// What follows the parts of a call: a delay, where there is one, and the end.
pub open spec fn call_end(delay: Option<nat>) -> Seq<char> {
    match delay {
        Some(d) => ", "@ + text::dec(d) + ");"@,
        None => ");"@,
    }
}

/// The line that a step is written as, or why there is none.
pub open spec fn step_line(step: StepView) -> Result<Seq<char>, Seq<char>> {
    match typed_expr(step.address, "address"@) {
        Err(e) => Err(e),
        Ok(address) => match typed_delay(step.delay_us) {
            Err(e) => Err(e),
            Ok(delay) => match step.kind {
                VisualStepKind::Read => match typed_expr(step.read_len, "read length"@) {
                    Err(e) => Err(e),
                    Ok(len) => Ok("read!("@ + address + ", "@ + len + call_end(delay)),
                },
                VisualStepKind::Write => match typed_data(step.data) {
                    Err(e) => Err(e),
                    Ok(data) => Ok("write!("@ + address + ", "@ + data + call_end(delay)),
                },
            },
        },
    }
}

fn format_call(name: &str, address: &str, what: &str, delay: Option<u32>) -> (s: String)
    ensures
        s@ == name@ + address@ + ", "@ + what@ + call_end(
            match delay {
                Some(d) => Some(d as nat),
                None => None,
            },
        ),
{
    let mut s: String = name.to_owned();
    s.push_str(address);
    s.push_str(", ");
    s.push_str(what);
    let ghost before = s@;
    match delay {
        Some(d) => {
            s.push_str(", ");
            push_dec(&mut s, d as u128);
            s.push_str(");");
            assert(s@ =~= before + (", "@ + text::dec(d as nat) + ");"@));
        },
        None => {
            s.push_str(");");
        },
    }
    s
}

/// The line that a step is written as, or why there is none.
pub fn format_step(step: &VisualStepBlueprint) -> (r: Result<String, String>)
    ensures
        text_result(r) == step_line(step.view()),
{
    let address: String = match validate_visual_address(step.address.as_str()) {
        Ok(a) => a,
        Err(e) => {
            return Err(e);
        },
    };
    let delay: Option<u32> = match parse_visual_delay(step.delay_us.as_str()) {
        Ok(d) => d,
        Err(e) => {
            return Err(e);
        },
    };
    match step.kind {
        VisualStepKind::Read => match validate_visual_expr(step.read_len.as_str(), "read length") {
            Ok(len) => Ok(format_call("read!(", address.as_str(), len.as_str(), delay)),
            Err(e) => Err(e),
        },
        VisualStepKind::Write => match format_visual_write_data(step.data.as_str()) {
            Ok(data) => Ok(format_call("write!(", address.as_str(), data.as_str(), delay)),
            Err(e) => Err(e),
        },
    }
}

/// A text, or what is wrong.
pub open spec fn text_or_faults(r: Result<String, Vec<String>>) -> Result<
    Seq<char>,
    Seq<Seq<char>>,
> {
    match r {
        Ok(s) => Ok(s@),
        Err(e) => Err(text::texts(e@)),
    }
}

/// The line that a step is written as, or what is wrong with it.
pub fn visual_step_source(step: &VisualStepBlueprint) -> (r: Result<String, Vec<String>>)
    ensures
        text_or_faults(r) == (match step_line(step.view()) {
            Ok(s) => Ok(s),
            Err(e) => Err(seq![e]),
        }),
{
    match format_step(step) {
        Ok(s) => Ok(s),
        Err(e) => {
            let mut faults: Vec<String> = Vec::new();
            faults.push(e);
            assert(text::texts(faults@) =~= seq![e@]);
            Err(faults)
        },
    }
}

// ---- what is wrong

/// What is told of a part of a step that cannot be used.
pub open spec fn fault_of<T>(r: Result<T, Seq<char>>, label: Seq<char>) -> Seq<Seq<char>> {
    match r {
        Ok(_) => Seq::empty(),
        Err(e) => seq![label + e],
    }
}

/// How a step is called where something is wrong with it.
pub open spec fn step_label(name: Seq<char>, i: int) -> Seq<char> {
    name + " step "@ + text::dec((i + 1) as nat)
}

/// What is wrong with a step.
pub open spec fn step_faults(label: Seq<char>, step: StepView) -> Seq<Seq<char>> {
    fault_of(typed_expr(step.address, "address"@), label + ": "@) + fault_of(
        typed_delay(step.delay_us),
        label + ": delay "@,
    ) + (match step.kind {
        VisualStepKind::Read => fault_of(
            typed_expr(step.read_len, "read length"@),
            label + ": "@,
        ),
        VisualStepKind::Write => fault_of(typed_data(step.data), label + ": data "@),
    })
}

/// What is wrong with steps.
pub open spec fn steps_faults(name: Seq<char>, steps: Seq<StepView>) -> Seq<Seq<char>>
    decreases steps.len(),
{
    if steps.len() == 0 {
        Seq::empty()
    } else {
        steps_faults(name, steps.drop_last()) + step_faults(
            step_label(name, steps.len() - 1),
            steps.last(),
        )
    }
}

/// What is wrong with the name of a sequence.
pub open spec fn name_faults(name: Seq<char>) -> Seq<Seq<char>> {
    if text::trimmed(name).len() == 0 {
        seq!["sequence name is required"@]
    } else {
        Seq::empty()
    }
}

/// What is wrong with a sequence.
pub open spec fn sequence_faults(s: SequenceView) -> Seq<Seq<char>> {
    name_faults(s.name) + (if s.steps.len() == 0 {
        seq![s.name + ": add at least one read or write step"@]
    } else {
        steps_faults(s.name, s.steps)
    })
}

/// What is wrong with each of some sequences.
pub open spec fn all_faults(sequences: Seq<SequenceView>) -> Seq<Seq<char>>
    decreases sequences.len(),
{
    if sequences.len() == 0 {
        Seq::empty()
    } else {
        all_faults(sequences.drop_last()) + sequence_faults(sequences.last())
    }
}

/// What is wrong with some sequences.
pub open spec fn faults(sequences: Seq<SequenceView>) -> Seq<Seq<char>> {
    if sequences.len() == 0 {
        seq!["add at least one visual sequence"@]
    } else {
        all_faults(sequences)
    }
}

fn push_fault(list: &mut Vec<String>, fault: String)
    ensures
        text::texts(final(list)@) == text::texts(old(list)@) + seq![fault@],
{
    list.push(fault);
    assert(text::texts(list@) =~= text::texts(old(list)@) + seq![fault@]);
}

fn push_step_fault(list: &mut Vec<String>, label: &str, what: &str, e: &str)
    ensures
        text::texts(final(list)@) == text::texts(old(list)@) + seq![label@ + what@ + e@],
{
    let mut s: String = label.to_owned();
    s.push_str(what);
    s.push_str(e);
    push_fault(list, s);
}

fn push_step_faults(list: &mut Vec<String>, label: &str, step: &VisualStepBlueprint)
    ensures
        text::texts(final(list)@) == text::texts(old(list)@) + step_faults(label@, step.view()),
{
    let ghost start = text::texts(list@);
    let ghost v = step.view();
    let ghost one = fault_of(typed_expr(v.address, "address"@), label@ + ": "@);
    let ghost two = fault_of(typed_delay(v.delay_us), label@ + ": delay "@);
    match validate_visual_address(step.address.as_str()) {
        Ok(_) => {
            assert(start =~= start + one);
        },
        Err(e) => {
            push_step_fault(list, label, ": ", e.as_str());
        },
    }
    assert(text::texts(list@) == start + one);
    match parse_visual_delay(step.delay_us.as_str()) {
        Ok(_) => {
            assert(start + one =~= start + one + two);
        },
        Err(e) => {
            push_step_fault(list, label, ": delay ", e.as_str());
        },
    }
    assert(text::texts(list@) == start + one + two);
    match step.kind {
        VisualStepKind::Read => {
            match validate_visual_expr(step.read_len.as_str(), "read length") {
                Ok(_) => {},
                Err(e) => {
                    push_step_fault(list, label, ": ", e.as_str());
                },
            }
        },
        VisualStepKind::Write => {
            match format_visual_write_data(step.data.as_str()) {
                Ok(_) => {},
                Err(e) => {
                    push_step_fault(list, label, ": data ", e.as_str());
                },
            }
        },
    }
    assert(text::texts(list@) =~= start + step_faults(label@, v));
}

/// How a step is called where something is wrong with it.
pub fn format_step_label(name: &str, i: usize) -> (s: String)
    ensures
        s@ == step_label(name@, i as int),
{
    let mut s: String = name.to_owned();
    s.push_str(" step ");
    push_dec(&mut s, i as u128 + 1);
    s
}

fn push_sequence_faults(list: &mut Vec<String>, sequence: &VisualSequenceBlueprint)
    ensures
        text::texts(final(list)@) == text::texts(old(list)@) + sequence_faults(sequence.view()),
{
    let ghost start = text::texts(list@);
    let ghost v = sequence.view();
    let name_chars = chars_of(sequence.name.as_str());
    if trim(&name_chars).len() == 0 {
        push_fault(list, "sequence name is required".to_owned());
    }
    let ghost head = start + name_faults(v.name);
    assert(text::texts(list@) =~= head);
    if sequence.steps.len() == 0 {
        let mut s: String = sequence.name.clone();
        s.push_str(": add at least one read or write step");
        push_fault(list, s);
        assert(text::texts(list@) =~= start + sequence_faults(v));
        return;
    }
    let mut i: usize = 0;
    assert(v.steps.take(0) =~= Seq::<StepView>::empty());
    assert(head =~= head + steps_faults(v.name, v.steps.take(0)));
    while i < sequence.steps.len()
        invariant
            i <= sequence.steps.len(),
            v == sequence.view(),
            text::texts(list@) == head + steps_faults(v.name, v.steps.take(i as int)),
        decreases sequence.steps.len() - i,
    {
        assert(v.steps.take(i + 1).drop_last() =~= v.steps.take(i as int));
        assert(v.steps[i as int] == sequence.steps@[i as int].view());
        let label: String = format_step_label(sequence.name.as_str(), i);
        push_step_faults(list, label.as_str(), &sequence.steps[i]);
        assert(text::texts(list@) =~= head + steps_faults(v.name, v.steps.take(i + 1)));
        i += 1;
    }
    assert(v.steps.take(v.steps.len() as int) =~= v.steps);
    assert(text::texts(list@) =~= start + sequence_faults(v));
}

/// What is wrong with some sequences.
pub fn visual_sequence_errors(sequences: &[VisualSequenceBlueprint]) -> (errors: Vec<String>)
    ensures
        text::texts(errors@) == faults(visual::sequence_views(sequences@)),
{
    let ghost v = visual::sequence_views(sequences@);
    let mut errors: Vec<String> = Vec::new();
    assert(text::texts(errors@) =~= Seq::<Seq<char>>::empty());
    if sequences.len() == 0 {
        push_fault(&mut errors, "add at least one visual sequence".to_owned());
        assert(text::texts(errors@) =~= faults(v));
        return errors;
    }
    let mut i: usize = 0;
    assert(v.take(0) =~= Seq::<SequenceView>::empty());
    while i < sequences.len()
        invariant
            i <= sequences.len(),
            v == visual::sequence_views(sequences@),
            text::texts(errors@) == all_faults(v.take(i as int)),
        decreases sequences.len() - i,
    {
        assert(v.take(i + 1).drop_last() =~= v.take(i as int));
        assert(v[i as int] == sequences@[i as int].view());
        push_sequence_faults(&mut errors, &sequences[i]);
        i += 1;
    }
    assert(v.take(v.len() as int) =~= v);
    errors
}

proof fn lemma_steps_sound(name: Seq<char>, steps: Seq<StepView>, i: int)
    requires
        steps_faults(name, steps).len() == 0,
        0 <= i < steps.len(),
    ensures
        step_line(steps[i]) is Ok,
    decreases steps.len(),
{
    let last = step_faults(step_label(name, steps.len() - 1), steps.last());
    assert(steps_faults(name, steps) == steps_faults(name, steps.drop_last()) + last);
    assert(last.len() == 0);
    if i == steps.len() - 1 {
        let label = step_label(name, steps.len() - 1);
        let s = steps.last();
        let one = fault_of(typed_expr(s.address, "address"@), label + ": "@);
        let two = fault_of(typed_delay(s.delay_us), label + ": delay "@);
        let three = match s.kind {
            VisualStepKind::Read => fault_of(
                typed_expr(s.read_len, "read length"@),
                label + ": "@,
            ),
            VisualStepKind::Write => fault_of(typed_data(s.data), label + ": data "@),
        };
        assert(last == one + two + three);
        assert(one.len() == 0 && two.len() == 0 && three.len() == 0);
    } else {
        lemma_steps_sound(name, steps.drop_last(), i);
    }
}

proof fn lemma_sequences_sound(sequences: Seq<SequenceView>, i: int)
    requires
        all_faults(sequences).len() == 0,
        0 <= i < sequences.len(),
    ensures
        sequence_faults(sequences[i]).len() == 0,
        text::trimmed(sequences[i].name).len() > 0,
        sequences[i].steps.len() > 0,
        steps_faults(sequences[i].name, sequences[i].steps).len() == 0,
    decreases sequences.len(),
{
    let last = sequence_faults(sequences.last());
    assert(all_faults(sequences) == all_faults(sequences.drop_last()) + last);
    if i == sequences.len() - 1 {
        assert(last.len() == 0);
    } else {
        lemma_sequences_sound(sequences.drop_last(), i);
    }
}

/// Sequences with which nothing is wrong have names and steps.
pub proof fn law_sound_names(sequences: Seq<SequenceView>, i: int)
    requires
        faults(sequences).len() == 0,
        0 <= i < sequences.len(),
    ensures
        text::trimmed(sequences[i].name).len() > 0,
        sequences[i].steps.len() > 0,
{
    lemma_sequences_sound(sequences, i);
}

/// Every step of sequences with which nothing is wrong can be written.
pub proof fn law_sound_steps(sequences: Seq<SequenceView>, i: int, j: int)
    requires
        faults(sequences).len() == 0,
        0 <= i < sequences.len(),
        0 <= j < sequences[i].steps.len(),
    ensures
        step_line(sequences[i].steps[j]) is Ok,
{
    lemma_sequences_sound(sequences, i);
    lemma_steps_sound(sequences[i].name, sequences[i].steps, j);
}

// ---- the text

/// A character of a string literal.
pub open spec fn escaped_char(c: char) -> Seq<char> {
    if c == '\\' || c == '"' {
        seq!['\\', c]
    } else {
        seq![c]
    }
}

/// A text as it stands in a string literal.
pub open spec fn escaped(s: Seq<char>) -> Seq<char>
    decreases s.len(),
{
    if s.len() == 0 {
        Seq::empty()
    } else {
        escaped(s.drop_last()) + escaped_char(s.last())
    }
}

/// A text as it stands in a string literal.
pub fn escape_rseq_string(value: &str) -> (r: String)
    ensures
        r@ == escaped(value@),
{
    let chars = chars_of(value);
    let mut r: String = String::new();
    let mut i: usize = 0;
    assert(value@.take(0) =~= Seq::<char>::empty());
    while i < chars.len()
        invariant
            i <= chars.len(),
            chars@ == value@,
            r@ == escaped(value@.take(i as int)),
        decreases chars.len() - i,
    {
        assert(value@.take(i + 1).drop_last() =~= value@.take(i as int));
        let ghost before = r@;
        if chars[i] == '\\' || chars[i] == '"' {
            r.push('\\');
        }
        r.push(chars[i]);
        assert(r@ =~= before + escaped_char(chars@[i as int]));
        i += 1;
    }
    assert(value@.take(value@.len() as int) =~= value@);
    r
}

/// Lines as a text.
pub open spec fn text_of(lines: Seq<Seq<char>>) -> Seq<char>
    decreases lines.len(),
{
    if lines.len() == 0 {
        Seq::empty()
    } else {
        text_of(lines.drop_last()) + lines.last() + "\n"@
    }
}

/// The line that names the chip.
pub open spec fn chip_line(path: Seq<char>) -> Seq<char> {
    "chip!(\""@ + escaped(path) + "\");"@
}

/// The line that tells that a sequence starts.
pub open spec fn print_line(name: Seq<char>) -> Seq<char> {
    "print!(\"sequence: "@ + escaped(name) + "\\n\");"@
}

/// The lines before the sequences.
pub open spec fn head_lines(chips: Seq<Seq<char>>) -> Seq<Seq<char>> {
    let first = seq!["// Generated by rseq-gpui Blocks view."@];
    if chips.len() > 0 {
        first + seq![chip_line(chips[0]), ""@]
    } else {
        first
    }
}

/// The lines of steps.
pub open spec fn step_lines(steps: Seq<StepView>) -> Seq<Seq<char>> {
    steps.map_values(|s: StepView| step_line(s)->Ok_0)
}

/// The lines of a sequence.
pub open spec fn sequence_lines(s: SequenceView) -> Seq<Seq<char>> {
    seq![visual::name_mark() + s.name, print_line(s.name)] + step_lines(s.steps) + seq![""@]
}

/// The lines of sequences.
pub open spec fn all_lines(sequences: Seq<SequenceView>) -> Seq<Seq<char>>
    decreases sequences.len(),
{
    if sequences.len() == 0 {
        Seq::empty()
    } else {
        all_lines(sequences.drop_last()) + sequence_lines(sequences.last())
    }
}

/// The text of sequences, or what is wrong with them.
pub open spec fn source_of(sequences: Seq<SequenceView>, chips: Seq<Seq<char>>) -> Result<
    Seq<char>,
    Seq<Seq<char>>,
> {
    if faults(sequences).len() > 0 {
        Err(faults(sequences))
    } else {
        Ok(text_of(head_lines(chips) + all_lines(sequences)))
    }
}

proof fn lemma_text_of_push(lines: Seq<Seq<char>>, line: Seq<char>)
    ensures
        text_of(lines.push(line)) == text_of(lines) + line + "\n"@,
{
    assert(lines.push(line).drop_last() =~= lines);
}

fn push_text_line(out: &mut String, line: &str, Ghost(lines): Ghost<Seq<Seq<char>>>)
    requires
        old(out)@ == text_of(lines),
    ensures
        final(out)@ == text_of(lines.push(line@)),
{
    out.push_str(line);
    out.push_str("\n");
    proof {
        lemma_text_of_push(lines, line@);
    }
}

fn push_sequence_lines(
    out: &mut String,
    sequence: &VisualSequenceBlueprint,
    Ghost(lines): Ghost<Seq<Seq<char>>>,
)
    requires
        old(out)@ == text_of(lines),
        steps_faults(sequence.view().name, sequence.view().steps).len() == 0,
    ensures
        final(out)@ == text_of(lines + sequence_lines(sequence.view())),
{
    let ghost v = sequence.view();
    let mut line: String = "// rseq-gpui:sequence ".to_owned();
    line.push_str(sequence.name.as_str());
    push_text_line(out, line.as_str(), Ghost(lines));
    let ghost one = lines.push(line@);
    let mut line: String = "print!(\"sequence: ".to_owned();
    line.push_str(escape_rseq_string(sequence.name.as_str()).as_str());
    line.push_str("\\n\");");
    push_text_line(out, line.as_str(), Ghost(one));
    let ghost two = one.push(line@);
    let ghost all = step_lines(v.steps);
    let mut i: usize = 0;
    assert(two + all.take(0) =~= two);
    while i < sequence.steps.len()
        invariant
            i <= sequence.steps.len(),
            v == sequence.view(),
            all == step_lines(v.steps),
            steps_faults(v.name, v.steps).len() == 0,
            out@ == text_of(two + all.take(i as int)),
        decreases sequence.steps.len() - i,
    {
        assert(v.steps[i as int] == sequence.steps@[i as int].view());
        proof {
            lemma_steps_sound(v.name, v.steps, i as int);
        }
        match format_step(&sequence.steps[i]) {
            Ok(s) => {
                push_text_line(out, s.as_str(), Ghost(two + all.take(i as int)));
                assert((two + all.take(i as int)).push(s@) =~= two + all.take(i + 1));
            },
            Err(_) => {},
        }
        i += 1;
    }
    push_text_line(out, "", Ghost(two + all.take(all.len() as int)));
    assert((two + all.take(all.len() as int)).push(""@) =~= lines + sequence_lines(v));
}

/// The text of sequences, or what is wrong with them. Where chips are given, the first is named.
pub fn visual_source_from_blueprints(
    sequences: &[VisualSequenceBlueprint],
    chip_paths: &[String],
) -> (r: Result<String, Vec<String>>)
    ensures
        text_or_faults(r) == source_of(
            visual::sequence_views(sequences@),
            text::texts(chip_paths@),
        ),
{
    let ghost v = visual::sequence_views(sequences@);
    let ghost chips = text::texts(chip_paths@);
    let errors = visual_sequence_errors(sequences);
    if errors.len() > 0 {
        return Err(errors);
    }
    let mut out: String = String::new();
    let first = "// Generated by rseq-gpui Blocks view.";
    push_text_line(&mut out, first, Ghost(Seq::empty()));
    let ghost one = Seq::<Seq<char>>::empty().push(first@);
    if chip_paths.len() > 0 {
        let mut line: String = "chip!(\"".to_owned();
        line.push_str(escape_rseq_string(chip_paths[0].as_str()).as_str());
        line.push_str("\");");
        push_text_line(&mut out, line.as_str(), Ghost(one));
        push_text_line(&mut out, "", Ghost(one.push(line@)));
        assert(one.push(line@).push(""@) =~= head_lines(chips));
    } else {
        assert(one =~= head_lines(chips));
    }
    let ghost head = head_lines(chips);
    let mut i: usize = 0;
    assert(v.take(0) =~= Seq::<SequenceView>::empty());
    assert(head + all_lines(v.take(0)) =~= head);
    while i < sequences.len()
        invariant
            i <= sequences.len(),
            v == visual::sequence_views(sequences@),
            all_faults(v).len() == 0,
            out@ == text_of(head + all_lines(v.take(i as int))),
        decreases sequences.len() - i,
    {
        assert(v.take(i + 1).drop_last() =~= v.take(i as int));
        assert(v[i as int] == sequences@[i as int].view());
        proof {
            lemma_sequences_sound(v, i as int);
        }
        push_sequence_lines(&mut out, &sequences[i], Ghost(head + all_lines(v.take(i as int))));
        assert(head + all_lines(v.take(i as int)) + sequence_lines(v[i as int]) =~= head
            + all_lines(v.take(i + 1)));
        i += 1;
    }
    assert(v.take(v.len() as int) =~= v);
    Ok(out)
}

} // verus!
