//! Sequences as blocks: the steps that a sequence is shown as, and how they are found in the
//! text of a sequence.
use crate::split;
use crate::split::split_on;
use crate::text;
use crate::text::{chars_of, find_here, same_text, string_of, trim};
use vstd::prelude::*;
use vstd::slice::slice_subrange;

verus! {

/// What a step does.
#[derive(Debug, Clone, Copy, PartialEq, Eq, Structural)]
pub enum VisualStepKind {
    Read,
    Write,
}

impl VisualStepKind {
    /// How the kind is called.
    pub fn label(self) -> (s: &'static str)
        ensures
            s@ == kind_label(self),
    {
        match self {
            Self::Read => "Read",
            Self::Write => "Write",
        }
    }
}

/// How a kind of step is called.
pub open spec fn kind_label(kind: VisualStepKind) -> Seq<char> {
    match kind {
        VisualStepKind::Read => "Read"@,
        VisualStepKind::Write => "Write"@,
    }
}

/// A step of a sequence, with its parts as they are typed.
#[derive(Debug, Clone, PartialEq, Eq)]
pub struct VisualStepBlueprint {
    pub kind: VisualStepKind,
    pub address: String,
    pub read_len: String,
    pub data: String,
    pub delay_us: String,
}

/// A step of a sequence, as a mathematical value.
#[verifier::ext_equal]
pub struct StepView {
    pub kind: VisualStepKind,
    pub address: Seq<char>,
    pub read_len: Seq<char>,
    pub data: Seq<char>,
    pub delay_us: Seq<char>,
}

/// What steps stand for.
pub open spec fn step_views(steps: Seq<VisualStepBlueprint>) -> Seq<StepView> {
    steps.map_values(|s: VisualStepBlueprint| s.view())
}

impl VisualStepBlueprint {
    pub open spec fn view(self) -> StepView {
        StepView {
            kind: self.kind,
            address: self.address@,
            read_len: self.read_len@,
            data: self.data@,
            delay_us: self.delay_us@,
        }
    }

    /// A copy of the step.
    pub fn copy(&self) -> (c: Self)
        ensures
            c.view() == self.view(),
    {
        VisualStepBlueprint {
            kind: self.kind,
            address: self.address.clone(),
            read_len: self.read_len.clone(),
            data: self.data.clone(),
            delay_us: self.delay_us.clone(),
        }
    }

    /// A step to start from.
    pub fn default_kind(kind: VisualStepKind) -> (s: Self)
        ensures
            s.view() == new_step(kind),
    {
        VisualStepBlueprint {
            kind,
            address: "0x00".to_owned(),
            read_len: "1".to_owned(),
            data: match kind {
                VisualStepKind::Read => "".to_owned(),
                VisualStepKind::Write => "0x00".to_owned(),
            },
            delay_us: "0".to_owned(),
        }
    }
}

/// A step to start from.
pub open spec fn new_step(kind: VisualStepKind) -> StepView {
    StepView {
        kind,
        address: "0x00"@,
        read_len: "1"@,
        data: match kind {
            VisualStepKind::Read => ""@,
            VisualStepKind::Write => "0x00"@,
        },
        delay_us: "0"@,
    }
}

/// A named sequence of steps.
#[derive(Debug, Clone, PartialEq, Eq)]
pub struct VisualSequenceBlueprint {
    pub name: String,
    pub steps: Vec<VisualStepBlueprint>,
}

/// A named sequence of steps, as a mathematical value.
#[verifier::ext_equal]
pub struct SequenceView {
    pub name: Seq<char>,
    pub steps: Seq<StepView>,
}

impl VisualSequenceBlueprint {
    pub open spec fn view(self) -> SequenceView {
        SequenceView { name: self.name@, steps: step_views(self.steps@) }
    }
}

/// What sequences stand for.
pub open spec fn sequence_views(sequences: Seq<VisualSequenceBlueprint>) -> Seq<SequenceView> {
    sequences.map_values(|s: VisualSequenceBlueprint| s.view())
}

// ---- arguments

/// How many more times `o` than `c` stands in the first `n` characters.
pub open spec fn depth(s: Seq<char>, n: int, o: char, c: char) -> int
    decreases n,
{
    if n <= 0 {
        0
    } else {
        depth(s, n - 1, o, c) + (if s[n - 1] == o {
            1int
        } else if s[n - 1] == c {
            -1int
        } else {
            0int
        })
    }
}

/// Whether no bracket is open at a position.
pub open spec fn closed_at(s: Seq<char>, i: int) -> bool {
    depth(s, i, '[', ']') == 0 && depth(s, i, '{', '}') == 0 && depth(s, i, '(', ')') == 0
}

/// Whether arguments part at a position: at a comma outside brackets.
pub open spec fn parts_at(s: Seq<char>, i: int) -> bool {
    s[i] == ',' && closed_at(s, i)
}

/// The first position from `at` on where arguments part, or the end.
pub open spec fn arg_end(s: Seq<char>, at: int) -> int
    decreases s.len() - at,
{
    if at < 0 || at >= s.len() || parts_at(s, at) {
        at
    } else {
        arg_end(s, at + 1)
    }
}

/// The arguments from a position on. What follows the last comma is left out where it is blank.
pub open spec fn args_from(s: Seq<char>, at: int) -> Seq<Seq<char>>
    decreases s.len() - at,
{
    let e = arg_end(s, at);
    if at < 0 || e < at || e >= s.len() {
        let tail = text::trimmed(s.skip(at));
        if tail.len() == 0 {
            Seq::empty()
        } else {
            seq![tail]
        }
    } else {
        seq![text::trimmed(s.subrange(at, e))] + args_from(s, e + 1)
    }
}

/// The arguments that a text lists.
pub open spec fn args_of(s: Seq<char>) -> Seq<Seq<char>> {
    args_from(s, 0)
}

/// The arguments that a text lists, split at the commas outside brackets.
pub fn split_args(s: &[char]) -> (args: Vec<String>)
    ensures
        text::texts(args@) == args_of(s@),
{
    let mut args: Vec<String> = Vec::new();
    let mut start: usize = 0;
    let mut square: i128 = 0;
    let mut curly: i128 = 0;
    let mut paren: i128 = 0;
    let mut i: usize = 0;
    assert(text::texts(args@) + args_of(s@) =~= args_of(s@));
    while i < s.len()
        invariant
            start <= i <= s.len(),
            square == depth(s@, i as int, '[', ']'),
            curly == depth(s@, i as int, '{', '}'),
            paren == depth(s@, i as int, '(', ')'),
            -i <= square <= i,
            -i <= curly <= i,
            -i <= paren <= i,
            arg_end(s@, start as int) == arg_end(s@, i as int),
            args_of(s@) == text::texts(args@) + args_from(s@, start as int),
        decreases s.len() - i,
    {
        let c: char = s[i];
        if c == '[' {
            square += 1;
        } else if c == ']' {
            square -= 1;
        } else if c == '{' {
            curly += 1;
        } else if c == '}' {
            curly -= 1;
        } else if c == '(' {
            paren += 1;
        } else if c == ')' {
            paren -= 1;
        } else if c == ',' && square == 0 && curly == 0 && paren == 0 {
            let ghost before = text::texts(args@);
            let piece: String = string_of(trim(slice_subrange(s, start, i)));
            args.push(piece);
            proof {
                assert(parts_at(s@, i as int));
                assert(text::texts(args@) =~= before.push(piece@));
                let rest = args_from(s@, i + 1);
                assert(before + (seq![piece@] + rest) =~= before.push(piece@) + rest);
            }
            start = i + 1;
        }
        i += 1;
    }
    let ghost before = text::texts(args@);
    let whole = slice_subrange(s, start, s.len());
    assert(whole@ =~= s@.skip(start as int));
    let tail = trim(whole);
    if tail.len() > 0 {
        args.push(string_of(tail));
        assert(text::texts(args@) =~= before + seq![tail@]);
    } else {
        assert(text::texts(args@) =~= before + Seq::<Seq<char>>::empty());
    }
    args
}

/// The arguments that a text lists.
pub fn split_macro_args(args: &str) -> (r: Vec<String>)
    ensures
        text::texts(r@) == args_of(args@),
{
    split_args(&chars_of(args))
}

/// The first position from `at` on where `t` stands, if there is one.
pub open spec fn find_from(s: Seq<char>, at: int, t: Seq<char>) -> Option<int>
    decreases s.len() + 1 - at,
{
    if at < 0 || at > s.len() {
        None
    } else if text::has_at(s, at, t) {
        Some(at)
    } else {
        find_from(s, at + 1, t)
    }
}

/// The first position from `at` on where the bracket that opens at `open` closes, if there is one.
pub open spec fn close_from(s: Seq<char>, open: int, at: int) -> Option<int>
    decreases s.len() - at,
{
    if at < 0 || at >= s.len() {
        None
    } else if s[at] == ')' && depth(s.skip(open), at + 1 - open, '(', ')') == 0 {
        Some(at)
    } else {
        close_from(s, open, at + 1)
    }
}

/// The arguments of the first call of a macro in a line, if there is one that is complete.
pub open spec fn macro_args(line: Seq<char>, name: Seq<char>) -> Option<Seq<Seq<char>>> {
    match find_from(line, 0, name) {
        None => None,
        Some(start) => {
            let open = start + name.len() as int;
            if open >= line.len() || line[open] != '(' {
                None
            } else {
                match close_from(line, open, open) {
                    None => None,
                    Some(end) => Some(args_of(line.subrange(open + 1, end))),
                }
            }
        },
    }
}

/// Some texts, or nothing.
pub open spec fn opt_texts(v: Option<Vec<String>>) -> Option<Seq<Seq<char>>> {
    match v {
        Some(v) => Some(text::texts(v@)),
        None => None,
    }
}

fn find_text(s: &[char], t: &[char]) -> (r: Option<usize>)
    ensures
        match r {
            Some(i) => find_from(s@, 0, t@) == Some(i as int) && i + t@.len() <= s@.len(),
            None => find_from(s@, 0, t@) is None,
        },
{
    let mut i: usize = 0;
    while i < s.len()
        invariant
            i <= s.len(),
            find_from(s@, 0, t@) == find_from(s@, i as int, t@),
        decreases s.len() - i,
    {
        if find_here(s, i, t) {
            return Some(i);
        }
        i += 1;
    }
    if find_here(s, i, t) {
        return Some(i);
    }
    assert(find_from(s@, i + 1, t@) is None);
    None
}

fn find_close(s: &[char], open: usize) -> (r: Option<usize>)
    requires
        open < s.len(),
        s@[open as int] == '(',
    ensures
        match r {
            Some(i) => close_from(s@, open as int, open as int) == Some(i as int) && open < i
                < s@.len(),
            None => close_from(s@, open as int, open as int) is None,
        },
{
    let ghost rest = s@.skip(open as int);
    let mut d: i128 = 0;
    let mut i: usize = open;
    while i < s.len()
        invariant
            open <= i <= s.len(),
            s@[open as int] == '(',
            open < s.len(),
            rest == s@.skip(open as int),
            d == depth(rest, i - open, '(', ')'),
            -(i - open) <= d <= i - open,
            close_from(s@, open as int, open as int) == close_from(s@, open as int, i as int),
        decreases s.len() - i,
    {
        assert(rest[i - open] == s@[i as int]);
        if s[i] == '(' {
            d += 1;
        } else if s[i] == ')' {
            d -= 1;
            if d == 0 {
                return Some(i);
            }
        }
        i += 1;
    }
    None
}

/// The arguments of the first call of a macro in a line, if there is one that is complete.
pub fn call_args(line: &[char], name: &[char]) -> (r: Option<Vec<String>>)
    ensures
        opt_texts(r) == macro_args(line@, name@),
{
    let n: usize = line.len();
    match find_text(line, name) {
        None => None,
        Some(start) => {
            let open: usize = start + name.len();
            if open >= n || line[open] != '(' {
                return None;
            }
            match find_close(line, open) {
                None => None,
                Some(end) => Some(split_args(slice_subrange(line, open + 1, end))),
            }
        },
    }
}

/// The arguments of the first call of a macro in a line, if there is one that is complete.
pub fn extract_macro_args(line: &str, macro_name: &str) -> (r: Option<Vec<String>>)
    ensures
        opt_texts(r) == macro_args(line@, macro_name@),
{
    call_args(&chars_of(line), &chars_of(macro_name))
}

// ---- steps of a text

/// What stands at the front of a line that names a sequence.
pub open spec fn name_mark() -> Seq<char> {
    "// rseq-gpui:sequence "@
}

/// How the steps before the first named sequence are called.
pub open spec fn unnamed() -> Seq<char> {
    "Imported Text"@
}

/// An argument, or what is meant where it is left out.
pub open spec fn arg_or(args: Seq<Seq<char>>, i: int, other: Seq<char>) -> Seq<char> {
    if i < args.len() {
        args[i]
    } else {
        other
    }
}

/// The step that a call stands for.
pub open spec fn step_of(kind: VisualStepKind, args: Seq<Seq<char>>) -> StepView {
    StepView {
        kind,
        address: args[0],
        read_len: match kind {
            VisualStepKind::Read => args[1],
            VisualStepKind::Write => "1"@,
        },
        data: match kind {
            VisualStepKind::Read => ""@,
            VisualStepKind::Write => args[1],
        },
        delay_us: arg_or(args, 2, "0"@),
    }
}

/// What a line of a text is: the name of a sequence, a step, or something else.
pub enum LineView {
    Name(Seq<char>),
    Step(StepView),
    Other,
}

/// What a call stands for: a step where it has enough arguments.
pub open spec fn line_of_call(kind: VisualStepKind, args: Seq<Seq<char>>) -> LineView {
    if args.len() >= 2 {
        LineView::Step(step_of(kind, args))
    } else {
        LineView::Other
    }
}

/// What a line without white space at its ends is.
pub open spec fn line_view(line: Seq<char>) -> LineView {
    if text::has_at(line, 0, name_mark()) {
        LineView::Name(text::trimmed(line.skip(name_mark().len() as int)))
    } else {
        match macro_args(line, "read!"@) {
            Some(args) => line_of_call(VisualStepKind::Read, args),
            None => match macro_args(line, "write!"@) {
                Some(args) => line_of_call(VisualStepKind::Write, args),
                None => LineView::Other,
            },
        }
    }
}

/// The sequences found so far, and the one that is being found.
#[verifier::ext_equal]
pub struct Found {
    pub done: Seq<SequenceView>,
    pub current: SequenceView,
}

/// Whether a sequence is worth keeping: it has a step, or a name.
pub open spec fn kept(s: SequenceView) -> bool {
    s.steps.len() > 0 || s.name != unnamed()
}

/// The sequences once nothing more is found.
pub open spec fn all_found(f: Found) -> Seq<SequenceView> {
    if kept(f.current) {
        f.done.push(f.current)
    } else {
        f.done
    }
}

/// What is found with one more line.
pub open spec fn found_next(f: Found, line: LineView) -> Found {
    match line {
        LineView::Name(name) => Found {
            done: all_found(f),
            current: SequenceView { name, steps: Seq::empty() },
        },
        LineView::Step(step) => Found {
            done: f.done,
            current: SequenceView { name: f.current.name, steps: f.current.steps.push(step) },
        },
        LineView::Other => f,
    }
}

/// What is found before the first line.
pub open spec fn nothing_found() -> Found {
    Found { done: Seq::empty(), current: SequenceView { name: unnamed(), steps: Seq::empty() } }
}

/// What is found with more lines.
pub open spec fn found_after(f: Found, lines: Seq<Seq<char>>) -> Found
    decreases lines.len(),
{
    if lines.len() == 0 {
        f
    } else {
        found_next(found_after(f, lines.drop_last()), line_view(text::trimmed(lines.last())))
    }
}

/// The sequences of a text.
pub open spec fn blueprints_of(source: Seq<char>) -> Seq<SequenceView> {
    all_found(found_after(nothing_found(), split::pieces(source, seq!['\n'])))
}

/// What a line is.
enum LineItem {
    Name(String),
    Step(VisualStepBlueprint),
    Other,
}

impl LineItem {
    spec fn view(self) -> LineView {
        match self {
            Self::Name(s) => LineView::Name(s@),
            Self::Step(s) => LineView::Step(s.view()),
            Self::Other => LineView::Other,
        }
    }
}

fn make_step(kind: VisualStepKind, args: &[String]) -> (item: LineItem)
    ensures
        item.view() == line_of_call(kind, text::texts(args@)),
{
    if args.len() < 2 {
        return LineItem::Other;
    }
    let delay_us: String = if args.len() > 2 {
        args[2].clone()
    } else {
        "0".to_owned()
    };
    let step = match kind {
        VisualStepKind::Read => VisualStepBlueprint {
            kind,
            address: args[0].clone(),
            read_len: args[1].clone(),
            data: "".to_owned(),
            delay_us,
        },
        VisualStepKind::Write => VisualStepBlueprint {
            kind,
            address: args[0].clone(),
            read_len: "1".to_owned(),
            data: args[1].clone(),
            delay_us,
        },
    };
    LineItem::Step(step)
}

fn read_line(line: &[char]) -> (item: LineItem)
    ensures
        item.view() == line_view(line@),
{
    let mark = chars_of("// rseq-gpui:sequence ");
    if find_here(line, 0, &mark) {
        let rest = slice_subrange(line, mark.len(), line.len());
        assert(rest@ =~= line@.skip(mark@.len() as int));
        return LineItem::Name(string_of(trim(rest)));
    }
    match call_args(line, &chars_of("read!")) {
        Some(args) => make_step(VisualStepKind::Read, &args),
        None => match call_args(line, &chars_of("write!")) {
            Some(args) => make_step(VisualStepKind::Write, &args),
            None => LineItem::Other,
        },
    }
}

fn is_kept(s: &VisualSequenceBlueprint) -> (r: bool)
    ensures
        r == kept(s.view()),
{
    s.steps.len() > 0 || !same_text(s.name.as_str(), "Imported Text")
}

fn push_sequence(list: &mut Vec<VisualSequenceBlueprint>, s: VisualSequenceBlueprint)
    ensures
        sequence_views(final(list)@) == sequence_views(old(list)@).push(s.view()),
{
    list.push(s);
    assert(sequence_views(list@) =~= sequence_views(old(list)@).push(s.view()));
}

/// The sequences of a text: the reads and writes of its lines, by the names that stand before
/// them.
pub fn visual_blueprints_from_source(source: &str) -> (sequences: Vec<VisualSequenceBlueprint>)
    ensures
        sequence_views(sequences@) == blueprints_of(source@),
{
    let chars = chars_of(source);
    let mut newline: Vec<char> = Vec::new();
    newline.push('\n');
    assert(newline@ =~= seq!['\n']);
    let lines = split_on(&chars, &newline);
    let ghost all = split::pieces(source@, seq!['\n']);
    let mut done: Vec<VisualSequenceBlueprint> = Vec::new();
    let mut name: String = "Imported Text".to_owned();
    let mut steps: Vec<VisualStepBlueprint> = Vec::new();
    let mut i: usize = 0;
    assert(sequence_views(done@) =~= Seq::<SequenceView>::empty());
    assert(step_views(steps@) =~= Seq::<StepView>::empty());
    assert(all.take(0) =~= Seq::<Seq<char>>::empty());
    while i < lines.len()
        invariant
            i <= lines.len(),
            all == split::char_lists(lines@),
            found_after(nothing_found(), all.take(i as int)) == (Found {
                done: sequence_views(done@),
                current: SequenceView { name: name@, steps: step_views(steps@) },
            }),
        decreases lines.len() - i,
    {
        assert(all.take(i + 1).drop_last() =~= all.take(i as int));
        assert(all[i as int] == lines@[i as int]@);
        match read_line(trim(&lines[i])) {
            LineItem::Name(next) => {
                let s = VisualSequenceBlueprint { name, steps };
                if is_kept(&s) {
                    push_sequence(&mut done, s);
                }
                name = next;
                steps = Vec::new();
                assert(step_views(steps@) =~= Seq::<StepView>::empty());
            },
            LineItem::Step(step) => {
                let ghost before = step_views(steps@);
                steps.push(step);
                assert(step_views(steps@) =~= before.push(step.view()));
            },
            LineItem::Other => {},
        }
        i += 1;
    }
    assert(all.take(all.len() as int) =~= all);
    let s = VisualSequenceBlueprint { name, steps };
    if is_kept(&s) {
        push_sequence(&mut done, s);
    }
    done
}

/// The sequences that are shown of a text: those found, or an empty one.
pub open spec fn shown_sequences(source: Seq<char>) -> Seq<SequenceView> {
    if blueprints_of(source).len() == 0 {
        seq![SequenceView { name: "Startup"@, steps: Seq::empty() }]
    } else {
        blueprints_of(source)
    }
}

/// The sequences that are shown of a text.
pub fn visual_sequences_from_source(source: &str) -> (sequences: Vec<VisualSequenceBlueprint>)
    ensures
        sequence_views(sequences@) == shown_sequences(source@),
{
    let mut sequences = visual_blueprints_from_source(source);
    if sequences.len() == 0 {
        let s = VisualSequenceBlueprint { name: "Startup".to_owned(), steps: Vec::new() };
        assert(step_views(s.steps@) =~= Seq::<StepView>::empty());
        push_sequence(&mut sequences, s);
        assert(sequence_views(sequences@) =~= seq![s.view()]);
    }
    sequences
}

} // verus!
