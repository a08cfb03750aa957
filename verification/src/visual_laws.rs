//! What is written of sequences of blocks is found again in the text.
use crate::split;
use crate::text;
use crate::visual;
use crate::visual::{Found, LineView, SequenceView, StepView, VisualStepKind};
use crate::visual_source;
use vstd::prelude::*;

verus! {

// ---- brackets

proof fn lemma_depth_front(a: Seq<char>, b: Seq<char>, n: int, o: char, c: char)
    requires
        n <= a.len(),
    ensures
        visual::depth(a + b, n, o, c) == visual::depth(a, n, o, c),
    decreases n,
{
    if n > 0 {
        lemma_depth_front(a, b, n - 1, o, c);
    }
}

proof fn lemma_depth_back(a: Seq<char>, b: Seq<char>, n: int, o: char, c: char)
    requires
        0 <= n <= b.len(),
    ensures
        visual::depth(a + b, a.len() + n, o, c) == visual::depth(a, a.len() as int, o, c)
            + visual::depth(b, n, o, c),
    decreases n,
{
    if n > 0 {
        lemma_depth_back(a, b, n - 1, o, c);
        assert((a + b)[a.len() + n - 1] == b[n - 1]);
    } else {
        lemma_depth_front(a, b, a.len() as int, o, c);
    }
}

/// Whether a text can stand as one argument: every comma stands in brackets, and the brackets
/// close.
pub open spec fn whole(s: Seq<char>) -> bool {
    &&& visual::closed_at(s, s.len() as int)
    &&& forall|i: int| 0 <= i < s.len() ==> !#[trigger] visual::parts_at(s, i)
    &&& forall|i: int| 0 <= i <= s.len() ==> #[trigger] visual::depth(s, i, '(', ')') >= 0
}

/// Whether no bracket closes before it opens, and all are closed at the end.
spec fn nested(s: Seq<char>) -> bool {
    &&& visual::depth(s, s.len() as int, '(', ')') == 0
    &&& forall|i: int| 0 <= i <= s.len() ==> #[trigger] visual::depth(s, i, '(', ')') >= 0
}

proof fn lemma_nested_join(a: Seq<char>, b: Seq<char>)
    requires
        nested(a),
        nested(b),
    ensures
        nested(a + b),
{
    assert forall|i: int| 0 <= i <= (a + b).len() implies #[trigger] visual::depth(
        a + b,
        i,
        '(',
        ')',
    ) >= 0 by {
        if i <= a.len() {
            lemma_depth_front(a, b, i, '(', ')');
        } else {
            lemma_depth_back(a, b, i - a.len(), '(', ')');
            assert(visual::depth(b, i - a.len(), '(', ')') >= 0);
        }
    }
    lemma_depth_back(a, b, b.len() as int, '(', ')');
}

// ---- a text without brackets

/// Whether a text holds no brackets.
pub open spec fn unbracketed(s: Seq<char>) -> bool {
    forall|i: int|
        0 <= i < s.len() ==> {
            let c = #[trigger] s[i];
            c != '[' && c != ']' && c != '{' && c != '}' && c != '(' && c != ')'
        }
}

proof fn lemma_unbracketed_depth(s: Seq<char>, n: int)
    requires
        unbracketed(s),
        n <= s.len(),
    ensures
        visual::depth(s, n, '[', ']') == 0,
        visual::depth(s, n, '{', '}') == 0,
        visual::depth(s, n, '(', ')') == 0,
    decreases n,
{
    if n > 0 {
        lemma_unbracketed_depth(s, n - 1);
        assert(s[n - 1] == s[n - 1]);
    }
}

/// A text without brackets and commas can stand as one argument.
pub proof fn law_plain_is_whole(s: Seq<char>)
    requires
        unbracketed(s),
        !s.contains(','),
    ensures
        whole(s),
{
    lemma_unbracketed_depth(s, s.len() as int);
    assert forall|i: int| 0 <= i < s.len() implies !#[trigger] visual::parts_at(s, i) by {
        assert(s.contains(s[i]));
    }
    assert forall|i: int| 0 <= i <= s.len() implies #[trigger] visual::depth(s, i, '(', ')') >= 0 by {
        lemma_unbracketed_depth(s, i);
    }
}

/// What stands in square brackets, without brackets inside, can stand as one argument.
pub proof fn law_list_is_whole(inner: Seq<char>)
    requires
        unbracketed(inner),
    ensures
        whole(seq!['['] + inner + seq![']']),
{
    let front = seq!['['] + inner;
    let s = front + seq![']'];
    assert forall|n: int| 0 <= n <= front.len() implies {
        &&& #[trigger] visual::depth(s, n, '[', ']') == (if n == 0 {
            0int
        } else {
            1int
        })
        &&& visual::depth(s, n, '{', '}') == 0
        &&& visual::depth(s, n, '(', ')') == 0
    } by {
        lemma_depth_front(front, seq![']'], n, '[', ']');
        lemma_depth_front(front, seq![']'], n, '{', '}');
        lemma_depth_front(front, seq![']'], n, '(', ')');
        if n > 0 {
            lemma_depth_back(seq!['['], inner, n - 1, '[', ']');
            lemma_depth_back(seq!['['], inner, n - 1, '{', '}');
            lemma_depth_back(seq!['['], inner, n - 1, '(', ')');
            lemma_unbracketed_depth(inner, n - 1);
            assert(seq!['['][0] == '[');
            reveal_with_fuel(visual::depth, 2);
        }
    }
    assert(s.len() == front.len() + 1);
    assert(s[s.len() - 1] == ']');
    assert(visual::depth(s, front.len() as int, '[', ']') == 1);
    assert(visual::closed_at(s, s.len() as int));
    assert forall|i: int| 0 <= i < s.len() implies !#[trigger] visual::parts_at(s, i) by {
        assert(visual::depth(s, i, '[', ']') == (if i == 0 {
            0int
        } else {
            1int
        }));
        assert(s[0] == '[');
    }
    assert forall|i: int| 0 <= i <= s.len() implies #[trigger] visual::depth(s, i, '(', ')') >= 0 by {
        if i <= front.len() {
            assert(visual::depth(s, i, '[', ']') >= 0);
        }
    }
}

// ---- arguments

proof fn lemma_arg_end_shift(s: Seq<char>, at: int, i: int)
    requires
        0 <= at <= s.len(),
        0 <= i,
        at + i <= s.len(),
        visual::closed_at(s, at),
    ensures
        visual::arg_end(s, at + i) == at + visual::arg_end(s.skip(at), i),
    decreases s.len() - at - i,
{
    if at + i < s.len() {
        let a = s.take(at);
        let b = s.skip(at);
        assert(s =~= a + b);
        lemma_depth_front(a, b, at, '[', ']');
        lemma_depth_front(a, b, at, '{', '}');
        lemma_depth_front(a, b, at, '(', ')');
        lemma_depth_back(a, b, i, '[', ']');
        lemma_depth_back(a, b, i, '{', '}');
        lemma_depth_back(a, b, i, '(', ')');
        assert(visual::parts_at(s, at + i) == visual::parts_at(b, i));
        if !visual::parts_at(s, at + i) {
            lemma_arg_end_shift(s, at, i + 1);
        }
    }
}

proof fn lemma_arg_end_bounds(s: Seq<char>, at: int)
    requires
        0 <= at <= s.len(),
    ensures
        at <= visual::arg_end(s, at) <= s.len(),
        visual::arg_end(s, at) < s.len() ==> visual::parts_at(s, visual::arg_end(s, at)),
    decreases s.len() - at,
{
    if at < s.len() && !visual::parts_at(s, at) {
        lemma_arg_end_bounds(s, at + 1);
    }
}

proof fn lemma_args_shift(s: Seq<char>, at: int, i: int)
    requires
        0 <= at <= s.len(),
        0 <= i,
        at + i <= s.len(),
        visual::closed_at(s, at),
    ensures
        visual::args_from(s, at + i) == visual::args_from(s.skip(at), i),
    decreases s.len() - at - i,
{
    let b = s.skip(at);
    lemma_arg_end_shift(s, at, i);
    lemma_arg_end_bounds(b, i);
    let e = visual::arg_end(b, i);
    if e < b.len() {
        assert(s.subrange(at + i, at + e) =~= b.subrange(i, e));
        lemma_args_shift(s, at, e + 1);
    } else {
        assert(s.skip(at + i) =~= b.skip(i));
    }
}

proof fn lemma_arg_end_whole(x: Seq<char>, rest: Seq<char>, i: int)
    requires
        whole(x),
        0 <= i <= x.len(),
        rest.len() > 0 ==> rest[0] == ',',
    ensures
        visual::arg_end(x + rest, i) == x.len(),
    decreases x.len() - i,
{
    let s = x + rest;
    if i < x.len() {
        lemma_depth_front(x, rest, i, '[', ']');
        lemma_depth_front(x, rest, i, '{', '}');
        lemma_depth_front(x, rest, i, '(', ')');
        assert(!visual::parts_at(x, i));
        lemma_arg_end_whole(x, rest, i + 1);
    } else if rest.len() > 0 {
        lemma_depth_front(x, rest, i, '[', ']');
        lemma_depth_front(x, rest, i, '{', '}');
        lemma_depth_front(x, rest, i, '(', ')');
        assert(s[i] == ',');
        assert(visual::parts_at(s, i));
    }
}

pub proof fn lemma_args_first(x: Seq<char>, rest: Seq<char>)
    requires
        whole(x),
    ensures
        visual::args_of(x + seq![','] + rest) == seq![text::trimmed(x)] + visual::args_of(rest),
{
    let tail = seq![','] + rest;
    let s = x + seq![','] + rest;
    assert(s =~= x + tail);
    lemma_arg_end_whole(x, tail, 0);
    let n = x.len() as int;
    assert(s.subrange(0, n) =~= x);
    let front = x + seq![','];
    lemma_depth_front(front, rest, n + 1, '[', ']');
    lemma_depth_front(front, rest, n + 1, '{', '}');
    lemma_depth_front(front, rest, n + 1, '(', ')');
    lemma_depth_front(x, seq![','], n, '[', ']');
    lemma_depth_front(x, seq![','], n, '{', '}');
    lemma_depth_front(x, seq![','], n, '(', ')');
    assert(front[n] == ',');
    assert(visual::closed_at(s, n + 1));
    lemma_args_shift(s, n + 1, 0);
    assert(s.skip(n + 1) =~= rest);
}

pub proof fn lemma_args_last(x: Seq<char>)
    requires
        whole(x),
        text::trimmed(x).len() > 0,
    ensures
        visual::args_of(x) == seq![text::trimmed(x)],
{
    lemma_arg_end_whole(x, Seq::empty(), 0);
    assert(x + Seq::<char>::empty() =~= x);
    assert(x.skip(0) =~= x);
}

proof fn lemma_blank_front(b: Seq<char>)
    requires
        whole(b),
    ensures
        whole(seq![' '] + b),
        text::trimmed(seq![' '] + b) == text::trimmed(b),
{
    let s = seq![' '] + b;
    assert(s.skip(1) =~= b);
    assert(text::is_white(' '));
    assert forall|n: int| 0 <= n <= b.len() implies {
        &&& #[trigger] visual::depth(s, n + 1, '[', ']') == visual::depth(b, n, '[', ']')
        &&& visual::depth(s, n + 1, '{', '}') == visual::depth(b, n, '{', '}')
        &&& visual::depth(s, n + 1, '(', ')') == visual::depth(b, n, '(', ')')
    } by {
        reveal_with_fuel(visual::depth, 2);
        lemma_depth_back(seq![' '], b, n, '[', ']');
        lemma_depth_back(seq![' '], b, n, '{', '}');
        lemma_depth_back(seq![' '], b, n, '(', ')');
        assert(seq![' '][0] == ' ');
    }
    assert(visual::depth(s, b.len() as int + 1, '[', ']') == 0);
    assert forall|i: int| 0 <= i < s.len() implies !#[trigger] visual::parts_at(s, i) by {
        if i > 0 {
            assert(visual::depth(s, (i - 1) + 1, '[', ']') == visual::depth(b, i - 1, '[', ']'));
            assert(!visual::parts_at(b, i - 1));
            assert(s[i] == b[i - 1]);
        }
    }
    assert forall|i: int| 0 <= i <= s.len() implies #[trigger] visual::depth(s, i, '(', ')') >= 0 by {
        if i > 0 {
            assert(visual::depth(s, (i - 1) + 1, '[', ']') == visual::depth(b, i - 1, '[', ']'));
            assert(visual::depth(b, i - 1, '(', ')') >= 0);
        }
    }
}

proof fn lemma_whole_nested(s: Seq<char>)
    requires
        whole(s),
    ensures
        nested(s),
{
}

proof fn lemma_comma_nested()
    ensures
        nested(seq![',']),
{
    reveal_with_fuel(visual::depth, 2);
    assert forall|i: int| 0 <= i <= 1 implies #[trigger] visual::depth(seq![','], i, '(', ')') >= 0 by {}
}

// ---- calls

proof fn lemma_close(line: Seq<char>, open: int, args: Seq<char>, i: int)
    requires
        0 <= open,
        line.skip(open) == seq!['('] + args + seq![')', ';'],
        line.len() == open + args.len() + 3,
        nested(args),
        0 <= i <= args.len() + 1,
    ensures
        visual::close_from(line, open, open + i) == Some(open + args.len() + 1),
    decreases args.len() + 1 - i,
{
    let s = line.skip(open);
    let front = seq!['('] + args;
    assert(s =~= front + seq![')', ';']);
    assert(line[open + i] == s[i]);
    assert(seq!['('][0] == '(');
    reveal_with_fuel(visual::depth, 2);
    if i <= args.len() {
        lemma_depth_front(front, seq![')', ';'], i + 1, '(', ')');
        lemma_depth_back(seq!['('], args, i, '(', ')');
        assert(visual::depth(args, i, '(', ')') >= 0);
        lemma_close(line, open, args, i + 1);
    } else {
        lemma_depth_front(front, seq![')', ';'], front.len() as int, '(', ')');
        lemma_depth_back(seq!['('], args, args.len() as int, '(', ')');
        assert(s[i] == ')');
    }
}

proof fn lemma_call(name: Seq<char>, args: Seq<char>)
    requires
        nested(args),
        name.len() > 0,
    ensures
        visual::macro_args(name + seq!['('] + args + seq![')', ';'], name) == Some(
            visual::args_of(args),
        ),
{
    let line = name + seq!['('] + args + seq![')', ';'];
    let open = name.len() as int;
    assert(line.subrange(0, open) =~= name);
    assert(text::has_at(line, 0, name));
    assert(line.skip(open) =~= seq!['('] + args + seq![')', ';']);
    assert(line[open] == '(');
    lemma_close(line, open, args, 0);
    assert(line.subrange(open + 1, open + args.len() + 1) =~= args);
}

/// The arguments of a call as they are written.
spec fn call_args(a: Seq<char>, b: Seq<char>, delay: Option<nat>) -> Seq<char> {
    match delay {
        Some(d) => a + seq![','] + (seq![' '] + b + seq![','] + (seq![' '] + text::dec(d))),
        None => a + seq![','] + (seq![' '] + b),
    }
}

proof fn lemma_call_args(a: Seq<char>, b: Seq<char>, delay: Option<nat>)
    requires
        whole(a),
        whole(b),
        a == text::trimmed(a),
        b == text::trimmed(b),
        b.len() > 0,
    ensures
        nested(call_args(a, b, delay)),
        visual::args_of(call_args(a, b, delay)) == (match delay {
            Some(d) => seq![a, b, text::dec(d)],
            None => seq![a, b],
        }),
{
    lemma_blank_front(b);
    lemma_comma_nested();
    lemma_whole_nested(a);
    lemma_whole_nested(seq![' '] + b);
    lemma_nested_join(a, seq![',']);
    match delay {
        Some(d) => {
            let n = text::dec(d);
            text::lemma_numeral_digits(d, 10);
            law_digits_are_whole(n);
            lemma_blank_front(n);
            lemma_whole_nested(seq![' '] + n);
            lemma_nested_join(seq![' '] + b, seq![',']);
            lemma_nested_join(seq![' '] + b + seq![','], seq![' '] + n);
            let rest = seq![' '] + b + seq![','] + (seq![' '] + n);
            lemma_nested_join(a + seq![','], rest);
            lemma_args_first(a, rest);
            lemma_args_first(seq![' '] + b, seq![' '] + n);
            lemma_args_last(seq![' '] + n);
            assert(seq![a] + (seq![b] + seq![n]) =~= seq![a, b, n]);
        },
        None => {
            let rest = seq![' '] + b;
            lemma_nested_join(a + seq![','], rest);
            lemma_args_first(a, rest);
            lemma_args_last(rest);
            assert(seq![a] + seq![b] =~= seq![a, b]);
        },
    }
}

/// A numeral can stand as one argument, and has no white space.
pub proof fn law_digits_are_whole(n: Seq<char>)
    requires
        n.len() > 0,
        forall|i: int| 0 <= i < n.len() ==> text::is_digit_char(#[trigger] n[i]),
    ensures
        whole(n),
        text::trimmed(n) == n,
{
    assert(text::is_digit_char(n[0]));
    assert(text::is_digit_char(n[n.len() - 1]));
    assert forall|i: int| 0 <= i < n.len() implies #[trigger] n[i] != ',' by {
        assert(text::is_digit_char(n[i]));
    }
    assert(unbracketed(n));
    law_plain_is_whole(n);
}

// ---- lines of steps

proof fn lemma_trimmed_fixed(s: Seq<char>)
    requires
        s.len() > 0 ==> !text::is_white(s[0]) && !text::is_white(s.last()),
    ensures
        text::trimmed(s) == s,
{
}

proof fn lemma_trimmed_twice(s: Seq<char>)
    ensures
        text::trimmed(text::trimmed(s)) == text::trimmed(s),
{
    text::law_trimmed_ends(s);
    lemma_trimmed_fixed(text::trimmed(s));
}

/// What is written as the second argument of a step.
pub open spec fn second_arg(step: StepView) -> Seq<char> {
    match step.kind {
        VisualStepKind::Read => text::trimmed(step.read_len),
        VisualStepKind::Write => visual_source::typed_data(step.data)->Ok_0,
    }
}

/// The delay as it is read back.
pub open spec fn settled_delay(raw: Seq<char>) -> Seq<char> {
    match visual_source::typed_delay(raw) {
        Ok(Some(d)) => text::dec(d),
        _ => "0"@,
    }
}

/// A step as it is read back: without white space around its parts, with its data as bytes are
/// written, and with what does not matter for its kind left at its start.
pub open spec fn settled(step: StepView) -> StepView {
    StepView {
        kind: step.kind,
        address: text::trimmed(step.address),
        read_len: match step.kind {
            VisualStepKind::Read => second_arg(step),
            VisualStepKind::Write => "1"@,
        },
        data: match step.kind {
            VisualStepKind::Read => ""@,
            VisualStepKind::Write => second_arg(step),
        },
        delay_us: settled_delay(step.delay_us),
    }
}

/// Whether what is written of a step is one line with one call, and its arguments are whole.
pub open spec fn readable_step(step: StepView) -> bool {
    match visual_source::step_line(step) {
        Ok(line) => {
            &&& !line.contains('\n')
            &&& whole(text::trimmed(step.address))
            &&& whole(second_arg(step))
            &&& step.kind is Write ==> visual::macro_args(line, "read!"@) is None
        },
        Err(_) => false,
    }
}

proof fn lemma_byte_text(b: u8)
    ensures
        visual_source::byte_text(b).len() >= 2,
        visual_source::byte_text(b)[0] == '0',
        forall|i: int|
            0 <= i < visual_source::byte_text(b).len() ==> {
                let c = #[trigger] visual_source::byte_text(b)[i];
                text::is_digit_char(c) || c == 'x'
            },
{
    reveal_strlit("0x");
    text::lemma_numeral_digits(b as nat, 16);
    let n = text::numeral(b as nat, 16);
    let h = text::hex(b as nat, 2);
    reveal_with_fuel(text::zero_padded, 3);
    assert forall|i: int| 0 <= i < h.len() implies text::is_digit_char(#[trigger] h[i]) by {
        if n.len() < 2 {
            assert(h == seq!['0'] + n);
            if i > 0 {
                assert(h[i] == n[i - 1]);
            }
        }
    }
    let t = visual_source::byte_text(b);
    assert forall|i: int| 0 <= i < t.len() implies {
        let c = #[trigger] t[i];
        text::is_digit_char(c) || c == 'x'
    } by {
        if i >= 2 {
            assert(t[i] == h[i - 2]);
        }
    }
}

proof fn lemma_byte_list(bytes: Seq<u8>)
    ensures
        unbracketed(text::joined(bytes.map_values(|b: u8| visual_source::byte_text(b)), ", "@)),
    decreases bytes.len(),
{
    reveal_strlit(", ");
    let f = |b: u8| visual_source::byte_text(b);
    let parts = bytes.map_values(f);
    if bytes.len() == 1 {
        lemma_byte_text(bytes[0]);
    } else if bytes.len() > 1 {
        let rest = bytes.drop_last();
        lemma_byte_list(rest);
        assert(parts.drop_last() =~= rest.map_values(f));
        lemma_byte_text(bytes.last());
        assert(parts.last() == visual_source::byte_text(bytes.last()));
        let a = text::joined(parts.drop_last(), ", "@);
        let b = parts.last();
        let s = a + ", "@ + b;
        assert forall|i: int| 0 <= i < s.len() implies {
            let c = #[trigger] s[i];
            c != '[' && c != ']' && c != '{' && c != '}' && c != '(' && c != ')'
        } by {
            if i < a.len() {
                assert(s[i] == a[i]);
            } else if i >= a.len() + 2 {
                assert(s[i] == b[i - a.len() - 2]);
            }
        }
    }
}

/// Bytes as they are written can stand as one argument, and have no white space around them.
pub proof fn law_bytes_are_whole(bytes: Seq<u8>)
    ensures
        whole(visual_source::bytes_text(bytes)),
        text::trimmed(visual_source::bytes_text(bytes)) == visual_source::bytes_text(bytes),
{
    let s = visual_source::bytes_text(bytes);
    if bytes.len() == 1 {
        lemma_byte_text(bytes[0]);
        assert forall|i: int| 0 <= i < s.len() implies #[trigger] s[i] != ',' by {}
        assert(!s.contains(','));
        law_plain_is_whole(s);
        lemma_trimmed_fixed(s);
    } else {
        let inner = text::joined(bytes.map_values(|b: u8| visual_source::byte_text(b)), ", "@);
        lemma_byte_list(bytes);
        law_list_is_whole(inner);
        reveal_strlit("[");
        reveal_strlit("]");
        assert("["@ =~= seq!['[']);
        assert("]"@ =~= seq![']']);
        assert(s.last() == ']');
        lemma_trimmed_fixed(s);
    }
}

proof fn lemma_second_arg(step: StepView)
    requires
        visual_source::step_line(step) is Ok,
    ensures
        second_arg(step).len() > 0,
        text::trimmed(second_arg(step)) == second_arg(step),
{
    match step.kind {
        VisualStepKind::Read => {
            lemma_trimmed_twice(step.read_len);
        },
        VisualStepKind::Write => {
            let value = text::trimmed(step.data);
            if visual_source::is_bracketed(value) {
                lemma_trimmed_twice(step.data);
            } else {
                let bytes = crate::input::write_bytes(value)->Ok_0;
                law_bytes_are_whole(bytes);
                if bytes.len() == 1 {
                    lemma_byte_text(bytes[0]);
                } else {
                    reveal_strlit("[");
                }
            }
        },
    }
}

proof fn lemma_line_shape(name: Seq<char>, opened: Seq<char>, a: Seq<char>, b: Seq<char>, delay: Option<nat>)
    requires
        opened == name + seq!['('],
    ensures
        opened + a + ", "@ + b + visual_source::call_end(delay) == name + seq!['('] + call_args(
            a,
            b,
            delay,
        ) + seq![')', ';'],
{
    reveal_strlit(", ");
    reveal_strlit(");");
    assert(", "@ =~= seq![',', ' ']);
    assert(");"@ =~= seq![')', ';']);
    assert(opened + a + ", "@ + b + visual_source::call_end(delay) =~= name + seq!['('] + call_args(
        a,
        b,
        delay,
    ) + seq![')', ';']);
}

/// The line that a step is written as is read back as the step.
pub proof fn law_step_reads_back(step: StepView)
    requires
        readable_step(step),
    ensures
        visual::line_view(text::trimmed(visual_source::step_line(step)->Ok_0)) == LineView::Step(
            settled(step),
        ),
{
    let line = visual_source::step_line(step)->Ok_0;
    let a = text::trimmed(step.address);
    let b = second_arg(step);
    let delay = visual_source::typed_delay(step.delay_us)->Ok_0;
    lemma_trimmed_twice(step.address);
    lemma_second_arg(step);
    lemma_call_args(a, b, delay);
    let args = call_args(a, b, delay);
    reveal_strlit("read!");
    reveal_strlit("read!(");
    reveal_strlit("write!");
    reveal_strlit("write!(");
    reveal_strlit("// rseq-gpui:sequence ");
    let name = match step.kind {
        VisualStepKind::Read => "read!"@,
        VisualStepKind::Write => "write!"@,
    };
    let opened = match step.kind {
        VisualStepKind::Read => "read!("@,
        VisualStepKind::Write => "write!("@,
    };
    assert(opened =~= name + seq!['(']);
    lemma_line_shape(name, opened, a, b, delay);
    assert(line == name + seq!['('] + args + seq![')', ';']);
    assert(line[0] == name[0]);
    assert(line.last() == ';');
    lemma_trimmed_fixed(line);
    lemma_call(name, args);
    assert(!text::has_at(line, 0, visual::name_mark())) by {
        if text::has_at(line, 0, visual::name_mark()) {
            let mark = visual::name_mark();
            assert(line.subrange(0, mark.len() as int)[0] == mark[0]);
        }
    }
    let list = visual::args_of(args);
    assert(visual::step_of(step.kind, list) == settled(step));
}

// ---- lines of a text

proof fn lemma_first_sep_shift(s: Seq<char>, at: int, i: int, seps: Seq<char>)
    requires
        0 <= at,
        0 <= i,
        at + i <= s.len(),
    ensures
        split::first_sep(s, at + i, seps) == at + split::first_sep(s.skip(at), i, seps),
    decreases s.len() - at - i,
{
    if at + i < s.len() {
        assert(s.skip(at)[i] == s[at + i]);
        if !seps.contains(s[at + i]) {
            lemma_first_sep_shift(s, at, i + 1, seps);
        }
    }
}

proof fn lemma_first_sep_bounds(s: Seq<char>, at: int, seps: Seq<char>)
    requires
        0 <= at <= s.len(),
    ensures
        at <= split::first_sep(s, at, seps) <= s.len(),
    decreases s.len() - at,
{
    if at < s.len() && !seps.contains(s[at]) {
        lemma_first_sep_bounds(s, at + 1, seps);
    }
}

pub proof fn lemma_pieces_shift(s: Seq<char>, at: int, i: int, seps: Seq<char>)
    requires
        0 <= at,
        0 <= i,
        at + i <= s.len(),
    ensures
        split::pieces_from(s, at + i, seps) == split::pieces_from(s.skip(at), i, seps),
    decreases s.len() - at - i,
{
    let b = s.skip(at);
    lemma_first_sep_shift(s, at, i, seps);
    lemma_first_sep_bounds(b, i, seps);
    let e = split::first_sep(b, i, seps);
    if e < b.len() {
        assert(s.subrange(at + i, at + e) =~= b.subrange(i, e));
        lemma_pieces_shift(s, at, e + 1, seps);
    } else {
        assert(s.skip(at + i) =~= b.skip(i));
    }
}

pub proof fn lemma_no_sep(s: Seq<char>, n: int, i: int, seps: Seq<char>)
    requires
        0 <= i <= n < s.len(),
        forall|k: int| 0 <= k < n ==> !seps.contains(#[trigger] s[k]),
        seps.contains(s[n]),
    ensures
        split::first_sep(s, i, seps) == n,
    decreases n - i,
{
    if i < n {
        lemma_no_sep(s, n, i + 1, seps);
    }
}

proof fn lemma_text_front(line: Seq<char>, lines: Seq<Seq<char>>)
    ensures
        visual_source::text_of(seq![line] + lines) == line + "\n"@ + visual_source::text_of(lines),
    decreases lines.len(),
{
    let all = seq![line] + lines;
    if lines.len() == 0 {
        assert(all.drop_last() =~= lines);
        assert(all.last() == line);
        assert(visual_source::text_of(all) =~= line + "\n"@ + visual_source::text_of(lines));
    } else {
        assert(all.drop_last() =~= seq![line] + lines.drop_last());
        lemma_text_front(line, lines.drop_last());
        assert(visual_source::text_of(all) =~= line + "\n"@ + visual_source::text_of(lines));
    }
}

/// The lines of a text are those that it was made of, and an empty one behind the last line end.
pub proof fn law_lines_of_text(lines: Seq<Seq<char>>)
    requires
        forall|i: int| 0 <= i < lines.len() ==> !(#[trigger] lines[i]).contains('\n'),
    ensures
        split::pieces(visual_source::text_of(lines), seq!['\n']) == lines.push(Seq::empty()),
    decreases lines.len(),
{
    let seps = seq!['\n'];
    assert(seps[0] == '\n');
    assert(seps.contains('\n'));
    if lines.len() == 0 {
        let s = visual_source::text_of(lines);
        assert(split::first_sep(s, 0, seps) == 0);
        assert(s.skip(0) =~= Seq::<char>::empty());
        assert(split::pieces(s, seps) =~= lines.push(Seq::empty()));
    } else {
        reveal_strlit("\n");
        let line = lines[0];
        let rest = lines.skip(1);
        assert(lines =~= seq![line] + rest);
        lemma_text_front(line, rest);
        let s = visual_source::text_of(lines);
        let n = line.len() as int;
        assert(s[n] == '\n');
        assert forall|k: int| 0 <= k < n implies !seps.contains(#[trigger] s[k]) by {
            assert(s[k] == line[k]);
            assert(line.contains(line[k]));
        }
        lemma_no_sep(s, n, 0, seps);
        assert(s.subrange(0, n) =~= line);
        lemma_pieces_shift(s, n + 1, 0, seps);
        assert(s.skip(n + 1) =~= visual_source::text_of(rest));
        assert forall|i: int| 0 <= i < rest.len() implies !(#[trigger] rest[i]).contains('\n') by {
            assert(rest[i] == lines[i + 1]);
        }
        law_lines_of_text(rest);
        assert(seq![line] + rest.push(Seq::empty()) =~= lines.push(Seq::empty()));
    }
}

// ---- sequences

/// Whether nothing is found in a line.
pub open spec fn silent(line: Seq<char>) -> bool {
    visual::line_view(text::trimmed(line)) is Other && !line.contains('\n')
}

/// Whether what is written of a sequence is read back: its name is one line that is no call, and
/// its steps are.
pub open spec fn readable_sequence(s: SequenceView) -> bool {
    &&& text::trimmed(s.name) == s.name
    &&& !s.name.contains('\n')
    &&& silent(visual_source::print_line(s.name))
    &&& forall|i: int| 0 <= i < s.steps.len() ==> readable_step(#[trigger] s.steps[i])
}

/// A sequence as it is read back.
pub open spec fn settled_sequence(s: SequenceView) -> SequenceView {
    SequenceView { name: s.name, steps: s.steps.map_values(|t: StepView| settled(t)) }
}

proof fn lemma_found_join(f: Found, a: Seq<Seq<char>>, b: Seq<Seq<char>>)
    ensures
        visual::found_after(f, a + b) == visual::found_after(visual::found_after(f, a), b),
    decreases b.len(),
{
    if b.len() == 0 {
        assert(a + b =~= a);
    } else {
        assert((a + b).drop_last() =~= a + b.drop_last());
        lemma_found_join(f, a, b.drop_last());
    }
}

proof fn lemma_found_one(f: Found, line: Seq<char>)
    ensures
        visual::found_after(f, seq![line]) == visual::found_next(
            f,
            visual::line_view(text::trimmed(line)),
        ),
{
    let none = Seq::<Seq<char>>::empty();
    assert(seq![line].drop_last() =~= none);
    assert(visual::found_after(f, none) == f);
}

proof fn lemma_found_steps(f: Found, steps: Seq<StepView>)
    requires
        forall|i: int| 0 <= i < steps.len() ==> readable_step(#[trigger] steps[i]),
    ensures
        visual::found_after(f, visual_source::step_lines(steps)) == (Found {
            done: f.done,
            current: SequenceView {
                name: f.current.name,
                steps: f.current.steps + steps.map_values(|t: StepView| settled(t)),
            },
        }),
    decreases steps.len(),
{
    let lines = visual_source::step_lines(steps);
    let g = |t: StepView| settled(t);
    if steps.len() == 0 {
        assert(f.current.steps + steps.map_values(g) =~= f.current.steps);
    } else {
        let rest = steps.drop_last();
        assert(lines.drop_last() =~= visual_source::step_lines(rest));
        assert forall|i: int| 0 <= i < rest.len() implies readable_step(#[trigger] rest[i]) by {
            assert(rest[i] == steps[i]);
        }
        lemma_found_steps(f, rest);
        assert(readable_step(steps[steps.len() - 1]));
        law_step_reads_back(steps.last());
        assert(lines.last() == visual_source::step_line(steps.last())->Ok_0);
        assert((f.current.steps + rest.map_values(g)).push(settled(steps.last()))
            =~= f.current.steps + steps.map_values(g));
    }
}

proof fn lemma_no_call(s: Seq<char>, at: int, t: Seq<char>)
    requires
        !s.contains('!'),
        t.contains('!'),
        0 <= at,
    ensures
        visual::find_from(s, at, t) is None,
    decreases s.len() + 1 - at,
{
    if at <= s.len() {
        if text::has_at(s, at, t) {
            let k = choose|k: int| 0 <= k < t.len() && t[k] == '!';
            assert(s.subrange(at, at + t.len() as int)[k] == s[at + k]);
            assert(s.contains(s[at + k]));
        }
        lemma_no_call(s, at + 1, t);
    }
}

proof fn lemma_silent(line: Seq<char>)
    requires
        text::trimmed(line) == line,
        !line.contains('!'),
        !line.contains('\n'),
        !text::has_at(line, 0, visual::name_mark()),
    ensures
        silent(line),
{
    reveal_strlit("read!");
    reveal_strlit("write!");
    assert("read!"@[4] == '!');
    assert("write!"@[5] == '!');
    lemma_no_call(line, 0, "read!"@);
    lemma_no_call(line, 0, "write!"@);
}

proof fn lemma_empty_is_silent()
    ensures
        silent(""@),
        ""@ == Seq::<char>::empty(),
{
    reveal_strlit("");
    reveal_strlit("// rseq-gpui:sequence ");
    assert(""@ =~= Seq::<char>::empty());
    lemma_silent(""@);
}

proof fn lemma_first_line()
    ensures
        silent("// Generated by rseq-gpui Blocks view."@),
{
    reveal_strlit("// Generated by rseq-gpui Blocks view.");
    reveal_strlit("// rseq-gpui:sequence ");
    let s = "// Generated by rseq-gpui Blocks view."@;
    assert(s[0] == '/');
    assert(s.last() == '.');
    lemma_trimmed_fixed(s);
    assert forall|i: int| 0 <= i < s.len() implies #[trigger] s[i] != '!' && s[i] != '\n' by {}
    assert(!text::has_at(s, 0, visual::name_mark())) by {
        let mark = visual::name_mark();
        if text::has_at(s, 0, mark) {
            assert(s.subrange(0, mark.len() as int)[3] == mark[3]);
        }
    }
    lemma_silent(s);
}

proof fn lemma_name_line(name: Seq<char>)
    requires
        text::trimmed(name) == name,
        name.len() > 0,
        !name.contains('\n'),
    ensures
        visual::line_view(text::trimmed(visual::name_mark() + name)) == LineView::Name(name),
        !(visual::name_mark() + name).contains('\n'),
{
    reveal_strlit("// rseq-gpui:sequence ");
    let mark = visual::name_mark();
    let line = mark + name;
    text::law_trimmed_ends(name);
    assert(line[0] == '/');
    assert(line.last() == name.last());
    lemma_trimmed_fixed(line);
    assert(line.subrange(0, mark.len() as int) =~= mark);
    assert(line.skip(mark.len() as int) =~= name);
    assert forall|i: int| 0 <= i < line.len() implies #[trigger] line[i] != '\n' by {
        if i >= mark.len() {
            assert(line[i] == name[i - mark.len()]);
            assert(name.contains(name[i - mark.len()]));
        }
    }
}

proof fn lemma_found_sequence(f: Found, s: SequenceView)
    requires
        readable_sequence(s),
        s.name.len() > 0,
    ensures
        visual::found_after(f, visual_source::sequence_lines(s)) == (Found {
            done: visual::all_found(f),
            current: settled_sequence(s),
        }),
{
    let one = visual::name_mark() + s.name;
    let two = visual_source::print_line(s.name);
    let steps = visual_source::step_lines(s.steps);
    lemma_name_line(s.name);
    lemma_empty_is_silent();
    lemma_found_one(f, one);
    let a = visual::found_after(f, seq![one]);
    lemma_found_one(a, two);
    assert(visual::found_after(a, seq![two]) == a);
    lemma_found_steps(a, s.steps);
    let b = visual::found_after(a, steps);
    lemma_found_one(b, ""@);
    lemma_found_join(f, seq![one], seq![two]);
    assert(seq![one] + seq![two] =~= seq![one, two]);
    lemma_found_join(f, seq![one, two], steps);
    lemma_found_join(f, seq![one, two] + steps, seq![""@]);
    assert(Seq::<StepView>::empty() + s.steps.map_values(|t: StepView| settled(t))
        =~= s.steps.map_values(|t: StepView| settled(t)));
}

proof fn lemma_found_all(f: Found, sequences: Seq<SequenceView>)
    requires
        visual::all_found(f) == Seq::<SequenceView>::empty(),
        forall|i: int|
            0 <= i < sequences.len() ==> readable_sequence(#[trigger] sequences[i])
                && sequences[i].name.len() > 0 && sequences[i].steps.len() > 0,
    ensures
        visual::all_found(visual::found_after(f, visual_source::all_lines(sequences)))
            == sequences.map_values(|s: SequenceView| settled_sequence(s)),
    decreases sequences.len(),
{
    let g = |s: SequenceView| settled_sequence(s);
    if sequences.len() == 0 {
        assert(sequences.map_values(g) =~= Seq::<SequenceView>::empty());
    } else {
        let rest = sequences.drop_last();
        let last = sequences.last();
        assert forall|i: int| 0 <= i < rest.len() implies readable_sequence(#[trigger] rest[i])
            && rest[i].name.len() > 0 && rest[i].steps.len() > 0 by {
            assert(rest[i] == sequences[i]);
        }
        lemma_found_all(f, rest);
        assert(readable_sequence(sequences[sequences.len() - 1]));
        let lines = visual_source::all_lines(rest);
        lemma_found_join(f, lines, visual_source::sequence_lines(last));
        lemma_found_sequence(visual::found_after(f, lines), last);
        assert(settled_sequence(last).steps.len() > 0);
        assert(rest.map_values(g).push(settled_sequence(last)) =~= sequences.map_values(g));
    }
}

proof fn lemma_lines_are_lines(sequences: Seq<SequenceView>)
    requires
        forall|i: int|
            0 <= i < sequences.len() ==> readable_sequence(#[trigger] sequences[i])
                && sequences[i].name.len() > 0,
    ensures
        forall|i: int|
            0 <= i < visual_source::all_lines(sequences).len() ==> !(
            #[trigger] visual_source::all_lines(sequences)[i]).contains('\n'),
    decreases sequences.len(),
{
    if sequences.len() > 0 {
        let rest = sequences.drop_last();
        let s = sequences.last();
        assert forall|i: int| 0 <= i < rest.len() implies readable_sequence(#[trigger] rest[i])
            && rest[i].name.len() > 0 by {
            assert(rest[i] == sequences[i]);
        }
        lemma_lines_are_lines(rest);
        assert(readable_sequence(sequences[sequences.len() - 1]));
        lemma_name_line(s.name);
        lemma_empty_is_silent();
        let a = visual_source::all_lines(rest);
        let b = visual_source::sequence_lines(s);
        let steps = visual_source::step_lines(s.steps);
        assert forall|i: int| 0 <= i < b.len() implies !(#[trigger] b[i]).contains('\n') by {
            if 2 <= i < 2 + steps.len() {
                assert(b[i] == steps[i - 2]);
                assert(readable_step(s.steps[i - 2]));
            }
        }
        assert forall|i: int| 0 <= i < (a + b).len() implies !(#[trigger] (a + b)[i]).contains(
            '\n',
        ) by {
            if i < a.len() {
                assert((a + b)[i] == a[i]);
            } else {
                assert((a + b)[i] == b[i - a.len()]);
            }
        }
    }
}

/// The text that sequences are written as is read back as the sequences, provided that a chip
/// path, names and arguments do not themselves look like more than that.
pub proof fn law_source_reads_back(sequences: Seq<SequenceView>, chips: Seq<Seq<char>>)
    requires
        visual_source::source_of(sequences, chips) is Ok,
        chips.len() > 0 ==> silent(visual_source::chip_line(chips[0])),
        forall|i: int| 0 <= i < sequences.len() ==> readable_sequence(#[trigger] sequences[i]),
    ensures
        visual::blueprints_of(visual_source::source_of(sequences, chips)->Ok_0)
            == sequences.map_values(|s: SequenceView| settled_sequence(s)),
{
    assert forall|i: int| 0 <= i < sequences.len() implies readable_sequence(
        #[trigger] sequences[i],
    ) && sequences[i].name.len() > 0 && sequences[i].steps.len() > 0 by {
        visual_source::law_sound_names(sequences, i);
    }
    let head = visual_source::head_lines(chips);
    let body = visual_source::all_lines(sequences);
    let lines = head + body;
    lemma_first_line();
    lemma_empty_is_silent();
    lemma_lines_are_lines(sequences);
    assert forall|i: int| 0 <= i < lines.len() implies !(#[trigger] lines[i]).contains('\n') by {
        if i < head.len() {
            assert(lines[i] == head[i]);
            assert(silent(head[i]));
        } else {
            assert(lines[i] == body[i - head.len()]);
        }
    }
    law_lines_of_text(lines);
    let f = visual::nothing_found();
    let first = "// Generated by rseq-gpui Blocks view."@;
    lemma_found_one(f, first);
    if chips.len() > 0 {
        let chip = visual_source::chip_line(chips[0]);
        lemma_found_one(f, chip);
        lemma_found_one(f, ""@);
        lemma_found_join(f, seq![first], seq![chip, ""@]);
        assert(seq![chip, ""@] =~= seq![chip] + seq![""@]);
        lemma_found_join(f, seq![chip], seq![""@]);
    }
    assert(visual::found_after(f, head) == f);
    lemma_found_join(f, head, body);
    lemma_found_all(f, sequences);
    lemma_found_join(f, lines, seq![""@]);
    lemma_found_one(visual::found_after(f, lines), ""@);
    assert(lines.push(Seq::empty()) =~= lines + seq![""@]);
}

} // verus!
