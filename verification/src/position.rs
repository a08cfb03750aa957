//! Places in a text: by character, by byte, and by line and column.
use crate::text::chars_of;
use vstd::prelude::*;

verus! {

// ---- bytes

/// How many bytes a character takes.
pub open spec fn width(c: char) -> nat {
    let u = c as u32;
    if u < 0x80 {
        1
    } else if u < 0x800 {
        2
    } else if u < 0x1_0000 {
        3
    } else {
        4
    }
}

/// How many bytes a text takes.
pub open spec fn bytes_in(s: Seq<char>) -> nat
    decreases s.len(),
{
    if s.len() == 0 {
        0
    } else {
        bytes_in(s.drop_last()) + width(s.last())
    }
}

/// The byte at which the `i`-th character starts.
pub open spec fn offset(s: Seq<char>, i: int) -> nat {
    bytes_in(s.take(i))
}

proof fn lemma_offset_step(s: Seq<char>, i: int)
    requires
        0 <= i < s.len(),
    ensures
        offset(s, i + 1) == offset(s, i) + width(s[i]),
{
    assert(s.take(i + 1).drop_last() =~= s.take(i));
}

proof fn lemma_offset_grows(s: Seq<char>, i: int, j: int)
    requires
        0 <= i <= j <= s.len(),
    ensures
        offset(s, i) + (j - i) <= offset(s, j),
    decreases j - i,
{
    if i < j {
        lemma_offset_grows(s, i, j - 1);
        lemma_offset_step(s, j - 1);
    }
}

proof fn lemma_bytes_front(s: Seq<char>)
    requires
        s.len() > 0,
    ensures
        bytes_in(s) == width(s[0]) + bytes_in(s.skip(1)),
    decreases s.len(),
{
    if s.len() == 1 {
        assert(s.drop_last() =~= Seq::<char>::empty());
        assert(s.skip(1) =~= Seq::<char>::empty());
    } else {
        lemma_bytes_front(s.drop_last());
        assert(s.drop_last().skip(1) =~= s.skip(1).drop_last());
    }
}

proof fn lemma_scalar_width(c: char)
    ensures
        vstd::utf8::encode_scalar(c as u32).len() == width(c),
{
}

/// A text takes as many bytes as its encoding has.
pub proof fn law_bytes_of_text(s: Seq<char>)
    ensures
        vstd::utf8::encode_utf8(s).len() == bytes_in(s),
    decreases s.len(),
{
    if s.len() > 0 {
        law_bytes_of_text(s.skip(1));
        lemma_bytes_front(s);
        assert(s.skip(1) =~= s.drop_first());
        let first = vstd::utf8::encode_scalar(s[0] as u32);
        lemma_scalar_width(s[0]);
        assert(vstd::utf8::encode_utf8(s) == first + vstd::utf8::encode_utf8(s.drop_first()));
    }
}

fn char_width(c: char) -> (w: usize)
    ensures
        w == width(c),
{
    let u: u32 = c as u32;
    if u < 0x80 {
        1
    } else if u < 0x800 {
        2
    } else if u < 0x1_0000 {
        3
    } else {
        4
    }
}

/// A text with the byte at which each character starts, and at which it ends.
pub struct Located {
    pub chars: Vec<char>,
    pub offsets: Vec<usize>,
}

impl Located {
    /// Whether the offsets belong to the characters.
    pub open spec fn wf(self) -> bool {
        &&& self.offsets@.len() == self.chars@.len() + 1
        &&& forall|i: int|
            0 <= i <= self.chars@.len() ==> #[trigger] self.offsets@[i] == offset(self.chars@, i)
    }
}

/// A text with the places of its characters.
pub fn locate(source: &str) -> (l: Located)
    ensures
        l.wf(),
        l.chars@ == source@,
{
    let bytes: &[u8] = source.as_bytes();
    let chars = chars_of(source);
    proof {
        law_bytes_of_text(source@);
        assert(source@.take(source@.len() as int) =~= source@);
    }
    let total: usize = bytes.len();
    let mut offsets: Vec<usize> = Vec::new();
    offsets.push(0);
    let mut i: usize = 0;
    while i < chars.len()
        invariant
            i <= chars.len(),
            chars@ == source@,
            total == offset(chars@, chars@.len() as int),
            offsets@.len() == i + 1,
            forall|k: int| 0 <= k <= i ==> #[trigger] offsets@[k] == offset(chars@, k),
        decreases chars.len() - i,
    {
        proof {
            lemma_offset_step(chars@, i as int);
            lemma_offset_grows(chars@, i + 1, chars@.len() as int);
        }
        let next: usize = offsets[i] + char_width(chars[i]);
        offsets.push(next);
        i += 1;
    }
    Located { chars, offsets }
}

/// The first character from the `i`-th on that starts at byte `at` or behind it, or the end.
pub open spec fn index_from(s: Seq<char>, i: int, at: int) -> int
    decreases s.len() - i,
{
    if i < 0 || i >= s.len() || offset(s, i) >= at {
        i
    } else {
        index_from(s, i + 1, at)
    }
}

/// How many characters start before byte `at`.
pub open spec fn chars_before(s: Seq<char>, at: int) -> int {
    index_from(s, 0, at)
}

proof fn lemma_index_from(s: Seq<char>, i: int, at: int)
    requires
        0 <= i <= s.len(),
    ensures
        i <= index_from(s, i, at) <= s.len(),
        forall|k: int| i <= k < index_from(s, i, at) ==> #[trigger] offset(s, k) < at,
        index_from(s, i, at) < s.len() ==> offset(s, index_from(s, i, at)) >= at,
    decreases s.len() - i,
{
    if i < s.len() && offset(s, i) < at {
        lemma_index_from(s, i + 1, at);
    }
}

/// Exactly the characters before the counted ones start before the byte.
pub proof fn law_chars_before(s: Seq<char>, at: int, k: int)
    requires
        0 <= k < s.len(),
    ensures
        k < chars_before(s, at) <==> offset(s, k) < at,
        0 <= chars_before(s, at) <= s.len(),
{
    lemma_index_from(s, 0, at);
    let n = chars_before(s, at);
    if k >= n {
        lemma_offset_grows(s, n, k);
    }
}

/// How many characters start before byte `at`.
pub fn count_before(l: &Located, at: usize) -> (n: usize)
    requires
        l.wf(),
    ensures
        n == chars_before(l.chars@, at as int),
        n <= l.chars@.len(),
{
    let mut i: usize = 0;
    while i < l.chars.len() && l.offsets[i] < at
        invariant
            l.wf(),
            i <= l.chars@.len(),
            chars_before(l.chars@, at as int) == index_from(l.chars@, i as int, at as int),
        decreases l.chars.len() - i,
    {
        i += 1;
    }
    i
}

/// A range of bytes as a range of characters that is not empty.
pub open spec fn char_span(s: Seq<char>, start: int, end: int) -> (int, int) {
    let a = chars_before(s, start);
    let b = chars_before(s, end);
    (
        a,
        if b <= a {
            a + 1
        } else {
            b
        },
    )
}

/// A range of bytes as a range of characters that is not empty.
pub fn byte_span_to_char_span(source: &str, start: usize, end: usize) -> (r: (usize, usize))
    ensures
        (r.0 as int, r.1 as int) == char_span(source@, start as int, end as int),
{
    let l = locate(source);
    let a: usize = count_before(&l, start);
    let b: usize = count_before(&l, end);
    assert(l.offsets.len() == l.chars@.len() + 1);
    if b <= a {
        (a, a + 1)
    } else {
        (a, b)
    }
}

// ---- lines and columns

/// The first line end from the `i`-th character on, or the end of the text.
pub open spec fn line_end(s: Seq<char>, i: int) -> int
    decreases s.len() - i,
{
    if i < 0 || i >= s.len() || s[i] == '\n' {
        i
    } else {
        line_end(s, i + 1)
    }
}

proof fn lemma_line_end(s: Seq<char>, i: int)
    requires
        0 <= i <= s.len(),
    ensures
        i <= line_end(s, i) <= s.len(),
    decreases s.len() - i,
{
    if i < s.len() && s[i] != '\n' {
        lemma_line_end(s, i + 1);
    }
}

/// The character at which a line starts that is `line` lines behind the one that starts at
/// the `i`-th character, if there is such a line.
pub open spec fn line_start(s: Seq<char>, i: int, line: nat) -> Option<int>
    decreases line,
{
    if line == 0 {
        Some(i)
    } else if line_end(s, i) < s.len() {
        line_start(s, line_end(s, i) + 1, (line - 1) as nat)
    } else {
        None
    }
}

/// How many units a character takes in columns that are counted in units of sixteen bits.
pub open spec fn units(c: char) -> nat {
    if (c as u32) < 0x1_0000 {
        1
    } else {
        2
    }
}

/// The character of a line that holds a column, where the `i`-th character of the text is at
/// column `col` and the line ends at `end`. Behind the line it is its end.
pub open spec fn column_index(s: Seq<char>, i: int, end: int, col: nat, target: nat) -> int
    decreases end - i,
{
    if i < 0 || i >= end || i >= s.len() || col + units(s[i]) > target {
        i
    } else {
        column_index(s, i + 1, end, col + units(s[i]), target)
    }
}

/// The character at a line and a column. Behind a line it is the end of the line, and behind
/// the text the end of the text.
pub open spec fn index_at(s: Seq<char>, line: nat, character: nat) -> int {
    match line_start(s, 0, line) {
        Some(i) => column_index(s, i, line_end(s, i), 0, character),
        None => s.len() as int,
    }
}

fn find_line_end(chars: &[char], from: usize) -> (e: usize)
    requires
        from <= chars@.len(),
    ensures
        e == line_end(chars@, from as int),
        from <= e <= chars@.len(),
{
    let mut i: usize = from;
    while i < chars.len() && chars[i] != '\n'
        invariant
            from <= i <= chars@.len(),
            line_end(chars@, from as int) == line_end(chars@, i as int),
        decreases chars.len() - i,
    {
        i += 1;
    }
    i
}

fn find_line_start(chars: &[char], line: u32) -> (r: Option<usize>)
    ensures
        match r {
            Some(i) => line_start(chars@, 0, line as nat) == Some(i as int) && i <= chars@.len(),
            None => line_start(chars@, 0, line as nat) is None,
        },
{
    let mut at: usize = 0;
    let mut left: u32 = line;
    while left > 0
        invariant
            at <= chars@.len(),
            line_start(chars@, 0, line as nat) == line_start(chars@, at as int, left as nat),
        decreases left,
    {
        let e: usize = find_line_end(chars, at);
        if e >= chars.len() {
            return None;
        }
        at = e + 1;
        left -= 1;
    }
    Some(at)
}

fn find_column(chars: &[char], from: usize, end: usize, target: u32) -> (i: usize)
    requires
        from <= end <= chars@.len(),
    ensures
        i == column_index(chars@, from as int, end as int, 0, target as nat),
        from <= i <= end,
{
    let mut i: usize = from;
    let mut col: u64 = 0;
    while i < end
        invariant
            from <= i <= end <= chars@.len(),
            col <= target,
            column_index(chars@, from as int, end as int, 0, target as nat) == column_index(
                chars@,
                i as int,
                end as int,
                col as nat,
                target as nat,
            ),
        decreases end - i,
    {
        let w: u64 = if (chars[i] as u32) < 0x1_0000 {
            1
        } else {
            2
        };
        if col + w > target as u64 {
            return i;
        }
        col = col + w;
        i += 1;
    }
    i
}

/// The byte at a line and a column, the column being counted in units of sixteen bits.
pub fn rseq_lsp_position_to_byte_offset(source: &str, line: u32, character: u32) -> (r: usize)
    ensures
        r == offset(source@, index_at(source@, line as nat, character as nat)),
        0 <= index_at(source@, line as nat, character as nat) <= source@.len(),
{
    let l = locate(source);
    match find_line_start(&l.chars, line) {
        None => l.offsets[l.chars.len()],
        Some(from) => {
            let end: usize = find_line_end(&l.chars, from);
            let i: usize = find_column(&l.chars, from, end, character);
            l.offsets[i]
        },
    }
}

/// The byte of a line at a column that is counted in units of sixteen bits.
pub fn rseq_utf16_column_to_byte(line: &str, target_col: u32) -> (r: usize)
    ensures
        r == offset(
            line@,
            column_index(line@, 0, line@.len() as int, 0, target_col as nat),
        ),
{
    let l = locate(line);
    let i: usize = find_column(&l.chars, 0, l.chars.len(), target_col);
    l.offsets[i]
}

/// How many line ends stand among the first `i` characters.
pub open spec fn line_of(s: Seq<char>, i: int) -> nat
    decreases i,
{
    if i <= 0 {
        0
    } else if s[i - 1] == '\n' {
        line_of(s, i - 1) + 1
    } else {
        line_of(s, i - 1)
    }
}

/// How many characters stand between the last line end before the `i`-th character and it.
pub open spec fn column_of(s: Seq<char>, i: int) -> nat
    decreases i,
{
    if i <= 0 || s[i - 1] == '\n' {
        0
    } else {
        column_of(s, i - 1) + 1
    }
}

/// A line and a column together are no more than the characters before them.
pub proof fn lemma_line_and_column(s: Seq<char>, i: int)
    requires
        0 <= i <= s.len(),
    ensures
        line_of(s, i) + column_of(s, i) <= i,
    decreases i,
{
    if i > 0 {
        lemma_line_and_column(s, i - 1);
    }
}

/// The line and the column of the characters before a byte.
pub open spec fn place_at(s: Seq<char>, at: int) -> (nat, nat) {
    let i = chars_before(s, at);
    (line_of(s, i), column_of(s, i))
}

/// The line and the column at a byte, the column being counted in characters.
pub fn rseq_byte_offset_to_gpui_position(source: &str, offset: usize) -> (r: (u32, u32))
    requires
        source@.len() <= u32::MAX,
    ensures
        (r.0 as nat, r.1 as nat) == place_at(source@, offset as int),
{
    let l = locate(source);
    let n: usize = count_before(&l, offset);
    place_of(&l.chars, n)
}

/// The line and the column of a character.
pub fn place_of(chars: &[char], n: usize) -> (r: (u32, u32))
    requires
        n <= chars@.len() <= u32::MAX,
    ensures
        r.0 == line_of(chars@, n as int),
        r.1 == column_of(chars@, n as int),
{
    let mut line: u32 = 0;
    let mut column: u32 = 0;
    let mut i: usize = 0;
    while i < n
        invariant
            i <= n <= chars@.len() <= u32::MAX,
            line == line_of(chars@, i as int),
            column == column_of(chars@, i as int),
        decreases n - i,
    {
        proof {
            lemma_line_and_column(chars@, i as int);
        }
        if chars[i] == '\n' {
            line += 1;
            column = 0;
        } else {
            column += 1;
        }
        i += 1;
    }
    (line, column)
}

/// The line and the column at a byte where a character starts or the text ends, the column
/// being counted in characters.
pub fn rseq_line_character(source: &str, offset: usize) -> (r: (u32, u32))
    requires
        source@.len() <= u32::MAX,
    ensures
        (r.0 as nat, r.1 as nat) == place_at(source@, offset as int),
{
    rseq_byte_offset_to_gpui_position(source, offset)
}

/// A place by line and column.
#[derive(Debug, Clone, Copy, PartialEq, Eq)]
pub struct Position {
    pub line: u32,
    pub character: u32,
}

/// A range of places.
#[derive(Debug, Clone, Copy, PartialEq, Eq)]
pub struct PositionRange {
    pub start: Position,
    pub end: Position,
}

/// A place whose column is counted in units of sixteen bits, with its column counted in
/// characters.
pub open spec fn in_characters(s: Seq<char>, p: Position) -> (nat, nat) {
    let i = index_at(s, p.line as nat, p.character as nat);
    (line_of(s, i), column_of(s, i))
}

proof fn lemma_chars_before_offset(s: Seq<char>, i: int)
    requires
        0 <= i <= s.len(),
    ensures
        chars_before(s, offset(s, i) as int) == i,
{
    let at = offset(s, i) as int;
    lemma_index_from(s, 0, at);
    let n = chars_before(s, at);
    if n < i {
        lemma_offset_grows(s, n, i);
    }
    if n > i {
        assert(offset(s, i) < at);
    }
}

/// A place whose column is counted in units of sixteen bits, with its column counted in
/// characters.
pub fn rseq_lsp_position_to_gpui_position(source: &str, p: Position) -> (r: Position)
    requires
        source@.len() <= u32::MAX,
    ensures
        (r.line as nat, r.character as nat) == in_characters(source@, p),
{
    let at: usize = rseq_lsp_position_to_byte_offset(source, p.line, p.character);
    proof {
        lemma_chars_before_offset(
            source@,
            index_at(source@, p.line as nat, p.character as nat),
        );
    }
    let (line, character) = rseq_byte_offset_to_gpui_position(source, at);
    Position { line, character }
}

/// A range whose columns are counted in units of sixteen bits, with its columns counted in
/// characters.
pub fn rseq_lsp_range_to_gpui_range(source: &str, range: PositionRange) -> (r: PositionRange)
    requires
        source@.len() <= u32::MAX,
    ensures
        (r.start.line as nat, r.start.character as nat) == in_characters(source@, range.start),
        (r.end.line as nat, r.end.character as nat) == in_characters(source@, range.end),
{
    PositionRange {
        start: rseq_lsp_position_to_gpui_position(source, range.start),
        end: rseq_lsp_position_to_gpui_position(source, range.end),
    }
}

// ---- laws

/// A byte where a character starts is found again by the characters before it.
pub proof fn law_offset_of_index(s: Seq<char>, i: int)
    requires
        0 <= i <= s.len(),
    ensures
        chars_before(s, offset(s, i) as int) == i,
{
    lemma_chars_before_offset(s, i);
}

proof fn lemma_start_of_line(s: Seq<char>, i: int)
    requires
        0 <= i <= s.len(),
    ensures
        line_start(s, 0, line_of(s, i)) == Some(i - column_of(s, i)),
        i - column_of(s, i) >= 0,
        forall|k: int| i - column_of(s, i) <= k < i ==> s[k] != '\n',
    decreases i,
{
    if i > 0 {
        lemma_start_of_line(s, i - 1);
        if s[i - 1] == '\n' {
            let start = i - 1 - column_of(s, i - 1);
            lemma_end_of_run(s, start, i - 1);
            lemma_next_line(s, 0, line_of(s, i - 1), start);
        }
    }
}

proof fn lemma_end_of_run(s: Seq<char>, i: int, e: int)
    requires
        0 <= i <= e < s.len(),
        s[e] == '\n',
        forall|k: int| i <= k < e ==> s[k] != '\n',
    ensures
        line_end(s, i) == e,
    decreases e - i,
{
    if i < e {
        lemma_end_of_run(s, i + 1, e);
    }
}

proof fn lemma_next_line(s: Seq<char>, i: int, line: nat, start: int)
    requires
        line_start(s, i, line) == Some(start),
        line_end(s, start) < s.len(),
    ensures
        line_start(s, i, line + 1) == Some(line_end(s, start) + 1),
    decreases line,
{
    if line > 0 {
        lemma_next_line(s, line_end(s, i) + 1, (line - 1) as nat, start);
    } else {
        assert(line_start(s, line_end(s, i) + 1, 0) == Some(line_end(s, i) + 1));
    }
}

proof fn lemma_column(s: Seq<char>, i: int, end: int, at: int, col: nat)
    requires
        0 <= i <= at <= end <= s.len(),
        forall|k: int| i <= k < at ==> units(#[trigger] s[k]) == 1,
    ensures
        column_index(s, i, end, col, col + (at - i) as nat) == at,
    decreases at - i,
{
    if i < at {
        assert(units(s[i]) == 1);
        lemma_column(s, i + 1, end, at, col + 1);
    }
}

proof fn lemma_run_before_end(s: Seq<char>, i: int, at: int)
    requires
        0 <= i <= at <= s.len(),
        forall|k: int| i <= k < at ==> s[k] != '\n',
    ensures
        at <= line_end(s, i),
    decreases at - i,
{
    lemma_line_end(s, i);
    if i < at {
        lemma_run_before_end(s, i + 1, at);
    }
}

/// In a text whose characters take one unit each, a character is found again by its line and
/// its column.
pub proof fn law_place_round_trip(s: Seq<char>, i: int)
    requires
        0 <= i <= s.len(),
        forall|k: int| 0 <= k < s.len() ==> units(#[trigger] s[k]) == 1,
    ensures
        index_at(s, line_of(s, i), column_of(s, i)) == i,
{
    lemma_start_of_line(s, i);
    let start = i - column_of(s, i);
    lemma_line_end(s, start);
    lemma_run_before_end(s, start, i);
    lemma_column(s, start, line_end(s, start), i, 0);
}

} // verus!
