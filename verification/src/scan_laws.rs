//! How texts are taken apart: words, pieces, arguments, places and parts.

use vstd::prelude::*;

use crate::position;
use crate::semantic;
use crate::semantic::{Part, RseqSemanticKind, SymbolsView};
use crate::split;
use crate::text;
use crate::visual;
use crate::visual_laws;

verus! {

// ---- words and pieces

proof fn lemma_word_end_shift(s: Seq<char>, at: int, i: int)
    requires
        0 <= at,
        0 <= i,
        at + i <= s.len(),
    ensures
        split::word_end(s, at + i) == at + split::word_end(s.skip(at), i),
        i <= split::word_end(s.skip(at), i) <= s.len() - at,
    decreases s.len() - at - i,
{
    if at + i < s.len() {
        assert(s.skip(at)[i] == s[at + i]);
        if !text::is_white(s[at + i]) {
            lemma_word_end_shift(s, at, i + 1);
        }
    }
}

proof fn lemma_words_shift(s: Seq<char>, at: int, i: int)
    requires
        0 <= at,
        0 <= i,
        at + i <= s.len(),
    ensures
        split::words_from(s, at + i) == split::words_from(s.skip(at), i),
    decreases s.len() - at - i,
{
    if at + i < s.len() {
        let b = s.skip(at);
        assert(b[i] == s[at + i]);
        lemma_word_end_shift(s, at, i);
        let e = split::word_end(b, i);
        if text::is_white(b[i]) || e <= i {
            lemma_words_shift(s, at, i + 1);
        } else {
            lemma_words_shift(s, at, e);
            assert(s.subrange(at + i, at + e) =~= b.subrange(i, e));
        }
    }
}

proof fn lemma_word_end_at(s: Seq<char>, i: int, n: int)
    requires
        0 <= i <= n <= s.len(),
        forall|k: int| 0 <= k < n ==> !text::is_white(#[trigger] s[k]),
        n < s.len() ==> text::is_white(s[n]),
    ensures
        split::word_end(s, i) == n,
    decreases n - i,
{
    if i < n {
        lemma_word_end_at(s, i + 1, n);
    }
}

/// The words of a text are its runs without white space, in their order: white space in front adds
/// none, and a run that white space or the end follows is one word.
pub proof fn law_words_of_text(word: Seq<char>, c: char, rest: Seq<char>)
    requires
        word.len() > 0,
        forall|k: int| 0 <= k < word.len() ==> !text::is_white(#[trigger] word[k]),
        text::is_white(c),
    ensures
        split::words(Seq::empty()).len() == 0,
        split::words(seq![c] + rest) == split::words(rest),
        split::words(word) == seq![word],
        split::words(word + seq![c] + rest) == seq![word] + split::words(rest),
{
    let a = seq![c] + rest;
    lemma_words_shift(a, 1, 0);
    assert(a.skip(1) =~= rest);
    let n = word.len() as int;
    lemma_word_end_at(word, 0, n);
    assert(word.subrange(0, n) =~= word);
    assert(split::words_from(word, n) =~= Seq::<Seq<char>>::empty());
    assert(split::words(word) =~= seq![word]);
    let b = word + seq![c] + rest;
    assert(forall|k: int| 0 <= k < n ==> b[k] == word[k]);
    assert(b[n] == c);
    lemma_word_end_at(b, 0, n);
    assert(b.subrange(0, n) =~= word);
    lemma_words_shift(b, n, 0);
    assert(b.skip(n) =~= a);
}

proof fn lemma_no_sep_at_all(s: Seq<char>, i: int, seps: Seq<char>)
    requires
        0 <= i <= s.len(),
        forall|k: int| 0 <= k < s.len() ==> !seps.contains(#[trigger] s[k]),
    ensures
        split::first_sep(s, i, seps) == s.len(),
    decreases s.len() - i,
{
    if i < s.len() {
        lemma_no_sep_at_all(s, i + 1, seps);
    }
}

/// The pieces of a text are what stands between its separators, in their order; empty ones count.
pub proof fn law_pieces_of_text(piece: Seq<char>, c: char, rest: Seq<char>, seps: Seq<char>)
    requires
        forall|k: int| 0 <= k < piece.len() ==> !seps.contains(#[trigger] piece[k]),
        seps.contains(c),
    ensures
        split::pieces(piece, seps) == seq![piece],
        split::pieces(piece + seq![c] + rest, seps) == seq![piece] + split::pieces(rest, seps),
        split::first_sep(piece + seq![c] + rest, 0, seps) == piece.len(),
        split::first_sep(piece, 0, seps) == piece.len(),
{
    let n = piece.len() as int;
    lemma_no_sep_at_all(piece, 0, seps);
    assert(piece.skip(0) =~= piece);
    let s = piece + seq![c] + rest;
    assert(forall|k: int| 0 <= k < n ==> s[k] == piece[k]);
    assert(s[n] == c);
    visual_laws::lemma_no_sep(s, n, 0, seps);
    assert(s.subrange(0, n) =~= piece);
    visual_laws::lemma_pieces_shift(s, n + 1, 0, seps);
    assert(s.skip(n + 1) =~= rest);
}

proof fn lemma_strip_front(s: Seq<char>, c: char, k: int)
    requires
        0 <= k <= s.len(),
        forall|i: int| 0 <= i < k ==> #[trigger] s[i] == c,
        k < s.len() ==> s[k] != c,
    ensures
        split::strip_front(s, c) == s.skip(k),
    decreases s.len(),
{
    if k == 0 {
        assert(s.skip(0) =~= s);
    } else {
        let t = s.skip(1);
        assert(forall|i: int| 0 <= i < t.len() ==> t[i] == s[i + 1]);
        lemma_strip_front(t, c, k - 1);
        assert(t.skip(k - 1) =~= s.skip(k));
    }
}

proof fn lemma_strip_back(s: Seq<char>, c: char, k: int)
    requires
        0 <= k <= s.len(),
        forall|i: int| k <= i < s.len() ==> #[trigger] s[i] == c,
        k > 0 ==> s[k - 1] != c,
    ensures
        split::strip_back(s, c) == s.take(k),
    decreases s.len(),
{
    if k == s.len() {
        assert(s.take(k) =~= s);
    } else {
        let t = s.drop_last();
        assert(forall|i: int| 0 <= i < t.len() ==> t[i] == s[i]);
        lemma_strip_back(t, c, k);
        assert(t.take(k) =~= s.take(k));
    }
}

/// Stripping takes one character away at both ends, as often as it stands there, and nothing else.
pub proof fn law_stripped(front: Seq<char>, middle: Seq<char>, back: Seq<char>, c: char)
    requires
        forall|i: int| 0 <= i < front.len() ==> #[trigger] front[i] == c,
        forall|i: int| 0 <= i < back.len() ==> #[trigger] back[i] == c,
        middle.len() > 0,
        middle[0] != c,
        middle.last() != c,
    ensures
        split::stripped(front + middle + back, c) == middle,
{
    let s = front + middle + back;
    let n = front.len() as int;
    lemma_strip_front(s, c, n);
    assert(s.skip(n) =~= middle + back);
    lemma_strip_back(middle + back, c, middle.len() as int);
    assert((middle + back).take(middle.len() as int) =~= middle);
}

/// A number in another base is what stands behind a zero and one of two letters.
pub proof fn law_behind_prefix(rest: Seq<char>, s: Seq<char>, a: char, b: char)
    ensures
        split::behind_prefix(seq!['0', a] + rest, a, b) == Some(rest),
        split::behind_prefix(seq!['0', b] + rest, a, b) == Some(rest),
        s.len() < 2 || s[0] != '0' || (s[1] != a && s[1] != b) ==> split::behind_prefix(s, a, b) is None,
{
    assert((seq!['0', a] + rest).skip(2) =~= rest);
    assert((seq!['0', b] + rest).skip(2) =~= rest);
}

/// Whether a text holds no comma and no bracket.
pub open spec fn unbroken(s: Seq<char>) -> bool {
    forall|i: int|
        0 <= i < s.len() ==> {
            let c = #[trigger] s[i];
            c != ',' && c != '[' && c != ']' && c != '{' && c != '}' && c != '(' && c != ')'
        }
}

/// The arguments of a call stand between commas; white space around them does not count, and
/// nothing but white space behind the last comma is no argument.
pub proof fn law_arguments(x: Seq<char>, rest: Seq<char>)
    requires
        unbroken(x),
    ensures
        visual::args_of(x + seq![','] + rest) == seq![text::trimmed(x)] + visual::args_of(rest),
        text::trimmed(x).len() > 0 ==> visual::args_of(x) == seq![text::trimmed(x)],
        visual::args_of(Seq::empty()).len() == 0,
{
    visual_laws::law_plain_is_whole(x);
    visual_laws::lemma_args_first(x, rest);
    if text::trimmed(x).len() > 0 {
        visual_laws::lemma_args_last(x);
    }
    let none = Seq::<char>::empty();
    assert(none.skip(0) =~= none);
    assert(text::trimmed(none) =~= none);
}

/// A list in brackets is one argument, with the commas in it.
pub proof fn law_list_argument(inner: Seq<char>, rest: Seq<char>)
    requires
        forall|i: int|
            0 <= i < inner.len() ==> {
                let c = #[trigger] inner[i];
                c != '[' && c != ']' && c != '{' && c != '}' && c != '(' && c != ')'
            },
    ensures
        visual::args_of(seq!['['] + inner + seq![']'] + seq![','] + rest) == seq![
            text::trimmed(seq!['['] + inner + seq![']']),
        ] + visual::args_of(rest),
{
    visual_laws::law_list_is_whole(inner);
    visual_laws::lemma_args_first(seq!['['] + inner + seq![']'], rest);
}

// ---- places

/// The column of a place counts the characters since the last line break before it, and its line the
/// breaks before it.
pub proof fn law_line_and_column(s: Seq<char>, i: int)
    requires
        0 <= i <= s.len(),
    ensures
        ({
            let start = i - position::column_of(s, i);
            &&& 0 <= start <= i
            &&& start == 0 || s[start - 1] == '\n'
            &&& forall|k: int| start <= k < i ==> s[k] != '\n'
        }),
        position::line_of(s, i) == s.take(i).filter(|c: char| c == '\n').len(),
    decreases i,
{
    reveal(Seq::filter);
    if i > 0 {
        law_line_and_column(s, i - 1);
        assert(s.take(i).drop_last() =~= s.take(i - 1));
    }
}

/// The end of a line is the first line break from a place on, or the end of the text.
pub proof fn law_line_end(s: Seq<char>, i: int)
    requires
        0 <= i <= s.len(),
    ensures
        i <= position::line_end(s, i) <= s.len(),
        position::line_end(s, i) < s.len() ==> s[position::line_end(s, i)] == '\n',
        forall|k: int| i <= k < position::line_end(s, i) ==> s[k] != '\n',
    decreases s.len() - i,
{
    if i < s.len() && s[i] != '\n' {
        law_line_end(s, i + 1);
    }
}

proof fn lemma_line_start(s: Seq<char>, i: int, line: nat, before: nat)
    requires
        0 <= i <= s.len(),
        i == 0 || s[i - 1] == '\n',
        position::line_of(s, i) == before,
    ensures
        position::line_start(s, i, line) matches Some(p) ==> {
            &&& 0 <= p <= s.len()
            &&& p == 0 || s[p - 1] == '\n'
            &&& position::line_of(s, p) == before + line
        },
        position::line_start(s, i, line) is None ==> position::line_of(s, s.len() as int) < before
            + line,
    decreases line,
{
    if line > 0 {
        let e = position::line_end(s, i);
        law_line_end(s, i);
        lemma_line_stays(s, i, e);
        if e < s.len() {
            lemma_line_start(s, e + 1, (line - 1) as nat, before + 1);
        }
    }
}

proof fn lemma_line_stays(s: Seq<char>, i: int, j: int)
    requires
        0 <= i <= j <= s.len(),
        forall|k: int| i <= k < j ==> s[k] != '\n',
    ensures
        position::line_of(s, j) == position::line_of(s, i),
    decreases j - i,
{
    if i < j {
        lemma_line_stays(s, i, j - 1);
    }
}

/// How many units a run of characters takes, where those beyond the first plane take two.
pub open spec fn units_of(s: Seq<char>) -> int
    decreases s.len(),
{
    if s.len() == 0 {
        0
    } else {
        units_of(s.drop_last()) + (if s.last() as u32 >= 0x1_0000 {
            2int
        } else {
            1int
        })
    }
}

proof fn lemma_column_index(s: Seq<char>, start: int, i: int, end: int, col: nat, target: nat)
    requires
        0 <= start <= i <= end <= s.len(),
        col == units_of(s.subrange(start, i)),
        col <= target,
    ensures
        ({
            let r = position::column_index(s, i, end, col, target);
            &&& i <= r <= end
            &&& units_of(s.subrange(start, r)) <= target
            &&& r < end ==> units_of(s.subrange(start, r + 1)) > target
        }),
    decreases end - i,
{
    if i < end {
        let next = s.subrange(start, i + 1);
        assert(next.drop_last() =~= s.subrange(start, i));
        assert(next.last() == s[i]);
        if col + position::units(s[i]) <= target {
            lemma_column_index(s, start, i + 1, end, col + position::units(s[i]), target);
        }
    }
}

/// A place that is told by a line and units in it is the last one in that line whose units before it
/// are not more than told; a line that is not there is told by the end of the text.
pub proof fn law_index_at(s: Seq<char>, line: nat, character: nat)
    ensures
        ({
            let r = position::index_at(s, line, character);
            &&& 0 <= r <= s.len()
            &&& line > position::line_of(s, s.len() as int) ==> r == s.len()
            &&& line <= position::line_of(s, s.len() as int) ==> {
                let start = r - position::column_of(s, r);
                &&& position::line_of(s, r) == line
                &&& units_of(s.subrange(start, r)) <= character
                &&& r < s.len() && s[r] != '\n' ==> units_of(s.subrange(start, r + 1)) > character
            }
        }),
{
    lemma_line_start(s, 0, line, 0);
    match position::line_start(s, 0, line) {
        None => {},
        Some(p) => {
            let e = position::line_end(s, p);
            law_line_end(s, p);
            assert(s.subrange(p, p) =~= Seq::<char>::empty());
            lemma_column_index(s, p, p, e, 0, character);
            let r = position::index_at(s, line, character);
            lemma_line_stays(s, p, r);
            law_line_and_column(s, r);
            lemma_lines_grow(s, r, s.len() as int);
            let start = r - position::column_of(s, r);
            assert(start == p) by {
                if start < p {
                    assert(s[p - 1] == '\n');
                } else if start > p {
                    assert(s[start - 1] == '\n');
                }
            }
        },
    }
}

proof fn lemma_lines_grow(s: Seq<char>, i: int, j: int)
    requires
        0 <= i <= j <= s.len(),
    ensures
        position::line_of(s, i) <= position::line_of(s, j),
    decreases j - i,
{
    if i < j {
        lemma_lines_grow(s, i, j - 1);
    }
}

/// A run of bytes marks at least one character: from the one at its start to the one at its end.
pub proof fn law_char_span(s: Seq<char>, start: int, end: int)
    ensures
        ({
            let (a, b) = position::char_span(s, start, end);
            &&& a < b
            &&& a == position::chars_before(s, start)
            &&& position::chars_before(s, end) > a ==> b == position::chars_before(s, end)
            &&& position::chars_before(s, end) <= a ==> b == a + 1
        }),
{
}

// ---- parts

/// A letter or an underscore.
pub open spec fn letter(c: char) -> bool {
    'a' <= c <= 'z' || 'A' <= c <= 'Z' || c == '_'
}

/// A digit.
pub open spec fn digit(c: char) -> bool {
    '0' <= c <= '9'
}

/// A character of operators.
pub open spec fn operator(c: char) -> bool {
    c == '=' || c == '|' || c == '&' || c == '<' || c == '>' || c == '+' || c == '-' || c == '*' || c
        == '/' || c == '%' || c == '^' || c == '!'
}

proof fn lemma_run(run: semantic::Run, s: Seq<char>, i: int)
    requires
        0 <= i <= s.len(),
    ensures
        i <= semantic::run_end(run, s, i) <= s.len(),
        forall|k: int| i <= k < semantic::run_end(run, s, i) ==> semantic::run_continue(run, s[k]),
        semantic::run_end(run, s, i) < s.len() ==> !semantic::run_continue(
            run,
            s[semantic::run_end(run, s, i)],
        ),
    decreases s.len() - i,
{
    if i < s.len() && semantic::run_continue(run, s[i]) {
        lemma_run(run, s, i + 1);
    }
}

/// What begins at a character, and how far it goes: a comment to the end of its line, a number and
/// a name as far as their characters go, punctuation one character, and operators as many as stand
/// together.
pub proof fn law_part_at(sy: SymbolsView, s: Seq<char>, i: int)
    requires
        0 <= i < s.len(),
    ensures
        ({
            let c = s[i];
            let found = semantic::part_at(sy, s, i);
            let p = found->Some_0;
            let comment = c == '/' && i + 1 < s.len() && s[i + 1] == '/';
            &&& c == ' ' || c == '\n' || c == '\t' ==> found is None
            &&& comment ==> {
                &&& found is Some && p.start == i && p.kind == RseqSemanticKind::Comment
                &&& i < p.end <= s.len() && (p.end < s.len() ==> s[p.end] == '\n')
                &&& forall|k: int| i <= k < p.end ==> s[k] != '\n'
            }
            &&& c == '"' ==> found is Some && p.start == i && p.kind == RseqSemanticKind::Text
            &&& digit(c) ==> {
                &&& found is Some && p.start == i && p.kind == RseqSemanticKind::Number
                &&& i < p.end <= s.len()
                &&& forall|k: int|
                    i <= k < p.end ==> letter(#[trigger] s[k]) || digit(s[k]) || s[k] == '.'
                &&& p.end < s.len() ==> !letter(s[p.end]) && !digit(s[p.end]) && s[p.end] != '.'
            }
            &&& letter(c) ==> {
                &&& found is Some && p.start == i && p.kind == semantic::classified(
                    sy,
                    s.subrange(i, p.end),
                )
                &&& i < p.end <= s.len()
                &&& forall|k: int|
                    i <= k < p.end ==> letter(#[trigger] s[k]) || digit(s[k]) || s[k] == '.' || s[k]
                        == '!'
                &&& p.end < s.len() ==> !letter(s[p.end]) && !digit(s[p.end]) && s[p.end] != '.'
                    && s[p.end] != '!'
            }
            &&& c == '{' || c == '}' || c == '(' || c == ')' || c == '[' || c == ']' || c == ',' || c
                == ':' || c == ';' ==> found == Some(
                Part { start: i, end: i + 1, kind: RseqSemanticKind::Punctuation },
            )
            &&& c == '=' || c == '|' || c == '&' || c == '<' || c == '>' || c == '+' || c == '-' || c
                == '*' || c == '%' || c == '^' || c == '!' || (c == '/' && !comment) ==> {
                &&& found is Some && p.start == i && p.kind == RseqSemanticKind::Operator
                &&& i < p.end <= s.len()
                &&& forall|k: int| i <= k < p.end ==> operator(#[trigger] s[k])
                &&& p.end < s.len() ==> !operator(s[p.end])
            }
        }),
{
    semantic::law_part_within(sy, s, i);
    law_line_end(s, i);
    lemma_run(semantic::Run::Number, s, i);
    lemma_run(semantic::Run::Name, s, i);
    lemma_run(semantic::Run::Operators, s, i);
}

/// Whether the quotation mark at `k` is taken as part of the string that was opened before `i`, as
/// it follows an odd number of backslashes.
pub open spec fn backslashes(s: Seq<char>, i: int, k: int) -> int
    decreases k - i,
{
    if k > i && s[k - 1] == '\\' {
        1 + backslashes(s, i, k - 1)
    } else {
        0
    }
}

proof fn lemma_string(s: Seq<char>, from: int, i: int, escaped: bool)
    requires
        0 <= from <= i <= s.len(),
        escaped <==> backslashes(s, from, i) % 2 == 1,
    ensures
        ({
            let e = semantic::string_end(s, i, escaped);
            &&& i <= e <= s.len()
            &&& forall|k: int|
                #![trigger s[k]]
                i <= k < e - 1 && (s[k] == '"' || s[k] == '\n') ==> backslashes(s, from, k) % 2 == 1
            &&& e < s.len() ==> e > i && (s[e - 1] == '"' || s[e - 1] == '\n') && backslashes(
                s,
                from,
                e - 1,
            ) % 2 == 0
        }),
    decreases s.len() - i,
{
    if i < s.len() {
        if escaped {
            lemma_string(s, from, i + 1, s[i] == '\\' && !escaped);
        } else if s[i] == '\\' {
            lemma_string(s, from, i + 1, true);
        } else if s[i] == '"' || s[i] == '\n' {
        } else {
            lemma_string(s, from, i + 1, false);
        }
    }
}

/// A text part goes to the first quotation mark or line break that is not behind an odd number of
/// backslashes, or to the end.
pub proof fn law_text_part(sy: SymbolsView, s: Seq<char>, i: int)
    requires
        0 <= i < s.len(),
        s[i] == '"',
    ensures
        ({
            let e = semantic::part_at(sy, s, i)->Some_0.end;
            &&& i < e <= s.len()
            &&& forall|k: int|
                #![trigger s[k]]
                i < k < e - 1 && (s[k] == '"' || s[k] == '\n') ==> backslashes(s, i + 1, k) % 2 == 1
            &&& e < s.len() ==> (s[e - 1] == '"' || s[e - 1] == '\n') && backslashes(
                s,
                i + 1,
                e - 1,
            ) % 2 == 0
        }),
{
    lemma_string(s, i + 1, i + 1, false);
}

/// No character that begins a part is passed over: each one is in a part, or nothing begins there.
pub proof fn law_parts_take_in_all(sy: SymbolsView, s: Seq<char>, from: int, i: int)
    requires
        0 <= from <= i < s.len(),
    ensures
        semantic::part_at(sy, s, i) is None || exists|k: int|
            0 <= k < semantic::parts_from(sy, s, from).len() && (
            #[trigger] semantic::parts_from(sy, s, from)[k]).start <= i
                < semantic::parts_from(sy, s, from)[k].end,
        forall|k: int|
            0 <= k < semantic::parts_from(sy, s, from).len() ==> semantic::part_at(
                sy,
                s,
                (#[trigger] semantic::parts_from(sy, s, from)[k]).start,
            ) == Some(semantic::parts_from(sy, s, from)[k]),
    decreases s.len() - from,
{
    semantic::law_part_within(sy, s, from);
    let all = semantic::parts_from(sy, s, from);
    match semantic::part_at(sy, s, from) {
        Some(p) => {
            let rest = semantic::parts_from(sy, s, p.end);
            assert(all =~= seq![p] + rest);
            lemma_parts_are_parts(sy, s, p.end);
            if i < p.end {
                assert(all[0].start <= i < all[0].end);
            } else {
                law_parts_take_in_all(sy, s, p.end, i);
                if semantic::part_at(sy, s, i) is Some {
                    let k = choose|k: int|
                        0 <= k < rest.len() && (#[trigger] rest[k]).start <= i < rest[k].end;
                    assert(all[k + 1] == rest[k]);
                }
            }
            assert forall|k: int| 0 <= k < all.len() implies semantic::part_at(
                sy,
                s,
                (#[trigger] all[k]).start,
            ) == Some(all[k]) by {
                if k > 0 {
                    assert(all[k] == rest[k - 1]);
                }
            }
        },
        None => {
            if from < i {
                law_parts_take_in_all(sy, s, from + 1, i);
            } else {
                lemma_parts_are_parts(sy, s, from + 1);
            }
        },
    }
}

proof fn lemma_parts_are_parts(sy: SymbolsView, s: Seq<char>, from: int)
    requires
        0 <= from <= s.len(),
    ensures
        forall|k: int|
            0 <= k < semantic::parts_from(sy, s, from).len() ==> semantic::part_at(
                sy,
                s,
                (#[trigger] semantic::parts_from(sy, s, from)[k]).start,
            ) == Some(semantic::parts_from(sy, s, from)[k]),
    decreases s.len() - from,
{
    if from < s.len() {
        semantic::law_part_within(sy, s, from);
        let all = semantic::parts_from(sy, s, from);
        match semantic::part_at(sy, s, from) {
            Some(p) => {
                lemma_parts_are_parts(sy, s, p.end);
                let rest = semantic::parts_from(sy, s, p.end);
                assert forall|k: int| 0 <= k < all.len() implies semantic::part_at(
                    sy,
                    s,
                    (#[trigger] all[k]).start,
                ) == Some(all[k]) by {
                    if k > 0 {
                        assert(all[k] == rest[k - 1]);
                    }
                }
            },
            None => {
                lemma_parts_are_parts(sy, s, from + 1);
            },
        }
    }
}

/// What a name stands for: words of the language first, and behind them what is known of the chip.
pub proof fn law_classified_names(sy: SymbolsView, t: Seq<char>)
    ensures
        ({
            let k = semantic::classified(sy, t);
            let call = t == "chip!"@ || t == "bus!"@ || t == "bus_probe!"@ || t == "read!"@ || t
                == "write!"@ || t == "update!"@ || t == "irq!"@ || t == "wait!"@ || t == "repeat!"@
                || t == "print!"@ || t == "report!"@ || t == "report_format!"@;
            let keyword = t == "let"@ || t == "if"@ || t == "else"@ || t == "on"@;
            let builtin = t == "spi"@ || t == "i2c"@ || t == "i3c"@ || t == "i16_le"@ || t
                == "qmi8660_fifo6"@ || t == "physical_f32"@ || t == "raw_i16"@;
            let constant = t == "FIFO_RAW"@ || t == "AMD"@ || t == "SMD"@ || t == "DRDY"@;
            let option = t == "fields"@ || t == "gyro_fields"@ || t == "accel_fields"@ || t
                == "temp_field"@ || t == "accel_fs_g"@ || t == "gyro_fs_dps"@ || t
                == "temp_lsb_per_c"@ || t == "temp_offset_c"@ || t == "output"@;
            &&& k == RseqSemanticKind::Function <==> call
            &&& k == RseqSemanticKind::Keyword <==> keyword && !call
            &&& k == RseqSemanticKind::Type <==> (builtin || sy.pages.contains(t)) && !call
                && !keyword
            &&& k == RseqSemanticKind::Constant <==> constant && !call && !keyword && !builtin
                && !sy.pages.contains(t)
            &&& k == RseqSemanticKind::Property <==> (option || sy.registers.contains(t)
                || sy.fields.contains(t)) && !call && !keyword && !builtin && !constant
                && !sy.pages.contains(t)
            &&& k == RseqSemanticKind::Label <==> sy.events.contains(t) && !call && !keyword
                && !builtin && !constant && !option && !sy.pages.contains(t)
                && !sy.registers.contains(t) && !sy.fields.contains(t)
            &&& k == RseqSemanticKind::Function || k == RseqSemanticKind::Keyword || k
                == RseqSemanticKind::Type || k == RseqSemanticKind::Constant || k
                == RseqSemanticKind::Property || k == RseqSemanticKind::Label || k
                == RseqSemanticKind::Variable
        }),
{
}

/// A part is shown in a range of bytes where it ends behind its start and begins before its end.
pub proof fn law_shown_parts(s: Seq<char>, p: Part, start: int, end: int)
    ensures
        semantic::reaches(s, start, end)(p) <==> start < position::offset(s, p.end)
            && position::offset(s, p.start) < end,
{
}

/// The numbers and names of the kinds of parts.
pub proof fn law_kind_codes()
    ensures
        semantic::kind_code(RseqSemanticKind::Comment) == 0 && semantic::kind_name(0) == "comment"@,
        semantic::kind_code(RseqSemanticKind::Text) == 1 && semantic::kind_name(1) == "string"@,
        semantic::kind_code(RseqSemanticKind::Number) == 2 && semantic::kind_name(2) == "number"@,
        semantic::kind_code(RseqSemanticKind::Keyword) == 3 && semantic::kind_name(3)
            == "keyword"@,
        semantic::kind_code(RseqSemanticKind::Function) == 4 && semantic::kind_name(4)
            == "function"@,
        semantic::kind_code(RseqSemanticKind::Type) == 5 && semantic::kind_name(5) == "type"@,
        semantic::kind_code(RseqSemanticKind::Property) == 6 && semantic::kind_name(6)
            == "property"@,
        semantic::kind_code(RseqSemanticKind::Constant) == 7 && semantic::kind_name(7)
            == "constant"@,
        semantic::kind_code(RseqSemanticKind::Variable) == 8 && semantic::kind_name(8)
            == "variable"@,
        semantic::kind_code(RseqSemanticKind::Operator) == 9 && semantic::kind_name(9)
            == "operator"@,
        semantic::kind_code(RseqSemanticKind::Punctuation) == 10 && semantic::kind_name(10)
            == "punctuation"@,
        semantic::kind_code(RseqSemanticKind::Label) == 11 && semantic::kind_name(11) == "label"@,
{
}

// ---- calls in a line

/// A text is found at its first place in another.
pub proof fn law_first_place(s: Seq<char>, t: Seq<char>, from: int)
    requires
        0 <= from <= s.len(),
    ensures
        visual::find_from(s, from, t) matches Some(i) ==> {
            &&& from <= i && i + t.len() <= s.len()
            &&& s.subrange(i, i + t.len()) == t
            &&& forall|j: int|
                from <= j < i && j + t.len() <= s.len() ==> #[trigger] s.subrange(j, j + t.len()) != t
        },
        visual::find_from(s, from, t) is None ==> forall|j: int|
            from <= j && j + t.len() <= s.len() ==> #[trigger] s.subrange(j, j + t.len()) != t,
    decreases s.len() - from,
{
    if !text::has_at(s, from, t) && from < s.len() {
        law_first_place(s, t, from + 1);
    } else if !text::has_at(s, from, t) {
        assert(visual::find_from(s, from + 1, t) is None);
    }
}

/// How deep a place is in brackets: an opening one before it counts one up, a closing one down.
pub proof fn law_depth(s: Seq<char>, n: int, o: char, c: char)
    requires
        0 <= n < s.len(),
        o != c,
    ensures
        visual::depth(s, 0, o, c) == 0,
        s[n] == o ==> visual::depth(s, n + 1, o, c) == visual::depth(s, n, o, c) + 1,
        s[n] == c ==> visual::depth(s, n + 1, o, c) == visual::depth(s, n, o, c) - 1,
        s[n] != o && s[n] != c ==> visual::depth(s, n + 1, o, c) == visual::depth(s, n, o, c),
{
}

/// The bracket that closes a call is the first closing one behind its opening one that leaves no
/// bracket open.
pub proof fn law_closing_bracket(s: Seq<char>, open: int, at: int)
    requires
        0 <= open <= at <= s.len(),
    ensures
        visual::close_from(s, open, at) matches Some(e) ==> {
            &&& at <= e < s.len() && s[e] == ')'
            &&& visual::depth(s.skip(open), e + 1 - open, '(', ')') == 0
            &&& forall|k: int|
                at <= k < e && s[k] == ')' ==> #[trigger] visual::depth(
                    s.skip(open),
                    k + 1 - open,
                    '(',
                    ')',
                ) != 0
        },
        visual::close_from(s, open, at) is None ==> forall|k: int|
            at <= k < s.len() && s[k] == ')' ==> #[trigger] visual::depth(
                s.skip(open),
                k + 1 - open,
                '(',
                ')',
            ) != 0,
    decreases s.len() - at,
{
    if at < s.len() {
        law_closing_bracket(s, open, at + 1);
    }
}

/// The arguments of a call stand between the bracket behind its first name in the line and the one
/// that closes it.
pub proof fn law_call_in_a_line(line: Seq<char>, name: Seq<char>)
    ensures
        visual::macro_args(line, name) matches Some(args) ==> {
            let start = visual::find_from(line, 0, name)->Some_0;
            let open = start + name.len();
            let end = visual::close_from(line, open, open)->Some_0;
            &&& visual::find_from(line, 0, name) is Some
            &&& open < line.len() && line[open] == '('
            &&& visual::close_from(line, open, open) is Some
            &&& args == visual::args_of(line.subrange(open + 1, end))
        },
        visual::macro_args(line, name) is None ==> {
            let start = visual::find_from(line, 0, name)->Some_0;
            let open = start + name.len();
            ||| visual::find_from(line, 0, name) is None
            ||| open >= line.len()
            ||| line[open] != '('
            ||| visual::close_from(line, open, open) is None
        },
{
}

/// What a line of a program stands for: behind the mark a name, else a call to read or, where there
/// is none, one to write.
pub proof fn law_line(line: Seq<char>, rest: Seq<char>)
    ensures
        line == "// rseq-gpui:sequence "@ + rest ==> visual::line_view(line) == visual::LineView::Name(
            text::trimmed(rest),
        ),
        !text::has_at(line, 0, "// rseq-gpui:sequence "@) ==> (match (
            visual::macro_args(line, "read!"@),
            visual::macro_args(line, "write!"@),
        ) {
            (Some(args), _) => visual::line_view(line) == visual::line_of_call(
                visual::VisualStepKind::Read,
                args,
            ),
            (None, Some(args)) => visual::line_view(line) == visual::line_of_call(
                visual::VisualStepKind::Write,
                args,
            ),
            (None, None) => visual::line_view(line) == visual::LineView::Other,
        }),
{
    let mark = "// rseq-gpui:sequence "@;
    if line == mark + rest {
        assert(line.subrange(0, mark.len() as int) =~= mark);
        assert(line.skip(mark.len() as int) =~= rest);
    }
}

/// A place that is told in units is the same place told in characters: the line, and the characters
/// before it in the line.
pub proof fn law_place_in_characters(s: Seq<char>, p: position::Position)
    ensures
        ({
            let i = position::index_at(s, p.line as nat, p.character as nat);
            let (line, column) = position::in_characters(s, p);
            &&& 0 <= i <= s.len()
            &&& line == s.take(i).filter(|c: char| c == '\n').len()
            &&& 0 <= i - column && (i - column == 0 || s[i - column - 1] == '\n')
            &&& forall|k: int| i - column <= k < i ==> s[k] != '\n'
        }),
{
    law_index_at(s, p.line as nat, p.character as nat);
    law_line_and_column(s, position::index_at(s, p.line as nat, p.character as nat));
}

/// The place of a byte is that of the character it is in or before.
pub proof fn law_place_of_a_byte(s: Seq<char>, i: int)
    requires
        0 <= i <= s.len(),
    ensures
        ({
            let (line, column) = position::place_at(s, position::offset(s, i) as int);
            &&& line == s.take(i).filter(|c: char| c == '\n').len()
            &&& 0 <= i - column && (i - column == 0 || s[i - column - 1] == '\n')
            &&& forall|k: int| i - column <= k < i ==> s[k] != '\n'
        }),
{
    position::law_offset_of_index(s, i);
    law_line_and_column(s, i);
}

/// What is marked in a range are the parts that reach into it, in their order, each by its bytes and
/// its kind.
pub proof fn law_marked_parts(sy: SymbolsView, s: Seq<char>, start: int, end: int, k: int)
    requires
        0 <= k < semantic::parts_in(sy, s, start, end).len(),
        position::bytes_in(s) <= usize::MAX,
        s.len() <= usize::MAX,
    ensures
        semantic::parts_in(sy, s, start, end) == semantic::parts_from(sy, s, 0).filter(
            |p: Part| position::offset(s, p.end) > start && position::offset(s, p.start) < end,
        ),
        semantic::hits_in(sy, s, start, end).len() == semantic::parts_in(sy, s, start, end).len(),
        ({
            let h = semantic::hits_in(sy, s, start, end)[k];
            let p = semantic::parts_in(sy, s, start, end)[k];
            &&& h.kind == p.kind
            &&& h.start == position::offset(s, p.start) as usize
            &&& h.end == position::offset(s, p.end) as usize
        }),
{
    assert(semantic::reaches(s, start, end) =~= |p: Part|
        position::offset(s, p.end) > start && position::offset(s, p.start) < end);
}

} // verus!
