//! When an editor offers completions, and what it inserts.
use crate::position;
use crate::position::{count_before, locate, rseq_lsp_range_to_gpui_range, PositionRange};
use crate::text;
use crate::text::{chars_of, string_of, white};
use vstd::prelude::*;
use vstd::slice::slice_subrange;

verus! {

/// Whether a character is an ASCII letter.
pub open spec fn ascii_letter(c: char) -> bool {
    'a' <= c <= 'z' || 'A' <= c <= 'Z'
}

/// Whether a character is an ASCII digit.
pub open spec fn ascii_digit(c: char) -> bool {
    '0' <= c <= '9'
}

/// Whether a character is an ASCII letter.
pub fn is_ascii_letter(c: char) -> (r: bool)
    ensures
        r == ascii_letter(c),
{
    ('a' <= c && c <= 'z') || ('A' <= c && c <= 'Z')
}

/// Whether a character is an ASCII digit.
pub fn is_ascii_digit(c: char) -> (r: bool)
    ensures
        r == ascii_digit(c),
{
    '0' <= c && c <= '9'
}

/// Whether a name can start with a character.
pub open spec fn ident_start(c: char) -> bool {
    ascii_letter(c) || c == '_'
}

/// Whether a name can go on with a character.
pub open spec fn ident_continue(c: char) -> bool {
    ascii_letter(c) || ascii_digit(c) || c == '_' || c == '.' || c == '!'
}

/// Whether a name can start with a character.
pub fn rseq_is_ident_start(c: char) -> (r: bool)
    ensures
        r == ident_start(c),
{
    is_ascii_letter(c) || c == '_'
}

/// Whether a name can go on with a character.
pub fn rseq_is_ident_continue(c: char) -> (r: bool)
    ensures
        r == ident_continue(c),
{
    is_ascii_letter(c) || is_ascii_digit(c) || c == '_' || c == '.' || c == '!'
}

/// Whether a byte is where a character starts, or at or behind the end of the text.
pub open spec fn boundary(s: Seq<char>, at: int) -> bool {
    at >= position::bytes_in(s) || position::offset(s, position::chars_before(s, at)) == at
}

/// Where the name starts that ends before the `i`-th character.
pub open spec fn name_start(s: Seq<char>, i: int) -> int
    decreases i,
{
    if i > 0 && ident_continue(s[i - 1]) {
        name_start(s, i - 1)
    } else {
        i
    }
}

/// The name that ends at a byte. It may be empty.
pub open spec fn name_before(s: Seq<char>, at: int) -> Seq<char> {
    let i = position::chars_before(s, at);
    s.subrange(name_start(s, i), i)
}

fn find_name_start(chars: &[char], n: usize) -> (i: usize)
    requires
        n <= chars@.len(),
    ensures
        i == name_start(chars@, n as int),
        i <= n,
{
    let mut i: usize = n;
    while i > 0 && rseq_is_ident_continue(chars[i - 1])
        invariant
            i <= n <= chars@.len(),
            name_start(chars@, n as int) == name_start(chars@, i as int),
        decreases i,
    {
        i -= 1;
    }
    i
}

/// The name that ends at a byte. It may be empty.
pub fn rseq_completion_prefix_before(source: &str, offset: usize) -> (p: String)
    requires
        boundary(source@, offset as int),
    ensures
        p@ == name_before(source@, offset as int),
{
    let l = locate(source);
    let n: usize = count_before(&l, offset);
    let i: usize = find_name_start(&l.chars, n);
    string_of(slice_subrange(&l.chars, i, n))
}

/// The last character before the `i`-th one that is no white space.
pub open spec fn previous_char(s: Seq<char>, i: int) -> Option<char>
    decreases i,
{
    if i <= 0 {
        None
    } else if text::is_white(s[i - 1]) {
        previous_char(s, i - 1)
    } else {
        Some(s[i - 1])
    }
}

/// The last character before a byte that is no white space.
pub fn rseq_previous_non_whitespace_char(source: &str, offset: usize) -> (c: Option<char>)
    requires
        boundary(source@, offset as int),
    ensures
        c == previous_char(source@, position::chars_before(source@, offset as int)),
{
    let l = locate(source);
    let mut i: usize = count_before(&l, offset);
    let ghost k = i as int;
    while i > 0
        invariant
            i <= l.chars@.len(),
            previous_char(l.chars@, k) == previous_char(l.chars@, i as int),
            k == position::chars_before(source@, offset as int),
            l.chars@ == source@,
        decreases i,
    {
        if !white(l.chars[i - 1]) {
            return Some(l.chars[i - 1]);
        }
        i -= 1;
    }
    None
}

/// Whether something is expected behind a character.
pub open spec fn opens(c: char) -> bool {
    c == '(' || c == '{' || c == '[' || c == ',' || c == ':' || c == '.'
}

/// Whether completions are offered at a byte: behind a name, and where something is expected.
pub open spec fn offered(s: Seq<char>, at: int) -> bool {
    name_before(s, at).len() > 0 || (match previous_char(s, position::chars_before(s, at)) {
        Some(c) => opens(c),
        None => false,
    })
}

/// Whether completions are offered at a byte.
pub fn rseq_should_offer_completion(source: &str, offset: usize) -> (r: bool)
    requires
        boundary(source@, offset as int),
    ensures
        r == offered(source@, offset as int),
{
    let name = rseq_completion_prefix_before(source, offset);
    if chars_of(name.as_str()).len() > 0 {
        return true;
    }
    match rseq_previous_non_whitespace_char(source, offset) {
        Some(c) => c == '(' || c == '{' || c == '[' || c == ',' || c == ':' || c == '.',
        None => false,
    }
}

/// Whether a typed character asks for completions.
pub open spec fn triggers(c: char) -> bool {
    ascii_letter(c) || ascii_digit(c) || c == '_' || c == '.' || c == '!' || c == '(' || c == '{'
        || c == ',' || c == ';' || c == ')' || c == ']' || c == '}' || c == '\n' || c == '\r' || c
        == ' ' || c == '\t'
}

/// Whether typed text asks for completions: it is empty or holds a character that does.
pub fn is_completion_trigger(new_text: &str) -> (r: bool)
    ensures
        r == (new_text@.len() == 0 || exists|i: int|
            0 <= i < new_text@.len() && triggers(#[trigger] new_text@[i])),
{
    let c = chars_of(new_text);
    if c.len() == 0 {
        return true;
    }
    let mut i: usize = 0;
    while i < c.len()
        invariant
            i <= c.len(),
            c@ == new_text@,
            c@.len() > 0,
            forall|k: int| 0 <= k < i ==> !triggers(#[trigger] c@[k]),
        decreases c.len() - i,
    {
        let k = c[i];
        if is_ascii_letter(k) || is_ascii_digit(k) || k == '_' || k == '.' || k == '!' || k == '('
            || k == '{' || k == ',' || k == ';' || k == ')' || k == ']' || k == '}' || k == '\n'
            || k == '\r' || k == ' ' || k == '\t' {
            assert(triggers(new_text@[i as int]));
            return true;
        }
        i += 1;
    }
    false
}

/// What a completion changes in the text.
#[derive(Debug, Clone, PartialEq, Eq)]
pub enum TextEdit {
    Edit { range: PositionRange, new_text: String },
    InsertAndReplace { insert: PositionRange, replace: PositionRange, new_text: String },
}

/// What of a completion decides what is inserted.
#[derive(Debug, Clone, PartialEq, Eq)]
pub struct Completion {
    pub label: String,
    pub text_edit: Option<TextEdit>,
    pub insert_text: Option<String>,
    pub plain: bool,
}

/// Whether `b` is the range `a` with its columns counted in characters.
pub open spec fn same_range(s: Seq<char>, a: PositionRange, b: PositionRange) -> bool {
    &&& (b.start.line as nat, b.start.character as nat) == position::in_characters(s, a.start)
    &&& (b.end.line as nat, b.end.character as nat) == position::in_characters(s, a.end)
}

/// Makes a completion insert its label as plain text. The ranges of an edit get their columns
/// counted in characters.
pub fn rseq_gpui_completion_item(source: &str, item: Completion) -> (r: Completion)
    requires
        source@.len() <= u32::MAX,
    ensures
        r.label == item.label,
        r.plain,
        match item.text_edit {
            Some(TextEdit::Edit { range, .. }) => {
                &&& r.text_edit matches Some(TextEdit::Edit { range: new_range, new_text })
                &&& same_range(source@, range, new_range)
                &&& new_text@ == item.label@
                &&& r.insert_text == item.insert_text
            },
            Some(TextEdit::InsertAndReplace { insert, replace, .. }) => {
                &&& r.text_edit matches Some(
                    TextEdit::InsertAndReplace {
                        insert: new_insert,
                        replace: new_replace,
                        new_text,
                    },
                )
                &&& same_range(source@, insert, new_insert)
                &&& same_range(source@, replace, new_replace)
                &&& new_text@ == item.label@
                &&& r.insert_text == item.insert_text
            },
            None => {
                &&& r.text_edit is None
                &&& r.insert_text matches Some(t)
                &&& t@ == item.label@
            },
        },
{
    match item.text_edit {
        Some(TextEdit::Edit { range, .. }) => Completion {
            text_edit: Some(
                TextEdit::Edit {
                    range: rseq_lsp_range_to_gpui_range(source, range),
                    new_text: item.label.clone(),
                },
            ),
            label: item.label,
            insert_text: item.insert_text,
            plain: true,
        },
        Some(TextEdit::InsertAndReplace { insert, replace, .. }) => Completion {
            text_edit: Some(
                TextEdit::InsertAndReplace {
                    insert: rseq_lsp_range_to_gpui_range(source, insert),
                    replace: rseq_lsp_range_to_gpui_range(source, replace),
                    new_text: item.label.clone(),
                },
            ),
            label: item.label,
            insert_text: item.insert_text,
            plain: true,
        },
        None => Completion {
            text_edit: None,
            insert_text: Some(item.label.clone()),
            label: item.label,
            plain: true,
        },
    }
}

/// A fault as an editor marks it.
#[derive(Debug, Clone, PartialEq, Eq)]
pub struct EditorFault {
    pub range: PositionRange,
    pub source: Option<String>,
    pub message: String,
}

/// Faults as an editor marks them, the columns of their ranges counted in characters.
pub fn editor_faults(source: &str, faults: Vec<EditorFault>) -> (marked: Vec<EditorFault>)
    requires
        source@.len() <= u32::MAX,
    ensures
        marked@.len() == faults@.len(),
        forall|i: int|
            0 <= i < marked@.len() ==> {
                &&& same_range(source@, faults@[i].range, (#[trigger] marked@[i]).range)
                &&& marked@[i].source == faults@[i].source
                &&& marked@[i].message == faults@[i].message
            },
{
    let ghost all = faults@;
    let mut marked: Vec<EditorFault> = Vec::new();
    for f in it: faults
        invariant
            it.seq() == all,
            source@.len() <= u32::MAX,
            marked@.len() == it.index(),
            forall|i: int|
                0 <= i < marked@.len() ==> {
                    &&& same_range(source@, all[i].range, (#[trigger] marked@[i]).range)
                    &&& marked@[i].source == all[i].source
                    &&& marked@[i].message == all[i].message
                },
    {
        let range = rseq_lsp_range_to_gpui_range(source, f.range);
        marked.push(EditorFault { range, source: f.source, message: f.message });
    }
    marked
}

} // verus!
