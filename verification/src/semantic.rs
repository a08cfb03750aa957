//! What the parts of a sequence text are, for highlighting.
use crate::completion;
use crate::completion::{
    is_ascii_digit, is_ascii_letter, rseq_is_ident_continue, rseq_is_ident_start,
};
use crate::position;
use crate::position::{locate, place_of, Located};
use crate::text;
use crate::text::{has_text, same_text, string_of, white};
use vstd::prelude::*;
use vstd::slice::slice_subrange;

verus! {

/// What a part of a text is.
#[derive(Debug, Clone, Copy, PartialEq, Eq, Structural)]
pub enum RseqSemanticKind {
    Comment,
    Text,
    Number,
    Keyword,
    Function,
    Type,
    Property,
    Constant,
    Variable,
    Operator,
    Punctuation,
    Label,
}

/// The number of a kind in the legend.
pub open spec fn kind_code(k: RseqSemanticKind) -> u32 {
    match k {
        RseqSemanticKind::Comment => 0,
        RseqSemanticKind::Text => 1,
        RseqSemanticKind::Number => 2,
        RseqSemanticKind::Keyword => 3,
        RseqSemanticKind::Function => 4,
        RseqSemanticKind::Type => 5,
        RseqSemanticKind::Property => 6,
        RseqSemanticKind::Constant => 7,
        RseqSemanticKind::Variable => 8,
        RseqSemanticKind::Operator => 9,
        RseqSemanticKind::Punctuation => 10,
        RseqSemanticKind::Label => 11,
    }
}

/// The name of a kind in the legend.
pub open spec fn kind_name(code: int) -> Seq<char> {
    if code == 0 {
        "comment"@
    } else if code == 1 {
        "string"@
    } else if code == 2 {
        "number"@
    } else if code == 3 {
        "keyword"@
    } else if code == 4 {
        "function"@
    } else if code == 5 {
        "type"@
    } else if code == 6 {
        "property"@
    } else if code == 7 {
        "constant"@
    } else if code == 8 {
        "variable"@
    } else if code == 9 {
        "operator"@
    } else if code == 10 {
        "punctuation"@
    } else {
        "label"@
    }
}

impl RseqSemanticKind {
    /// The number of the kind in the legend.
    pub fn token_type(self) -> (n: u32)
        ensures
            n == kind_code(self),
    {
        match self {
            Self::Comment => 0,
            Self::Text => 1,
            Self::Number => 2,
            Self::Keyword => 3,
            Self::Function => 4,
            Self::Type => 5,
            Self::Property => 6,
            Self::Constant => 7,
            Self::Variable => 8,
            Self::Operator => 9,
            Self::Punctuation => 10,
            Self::Label => 11,
        }
    }
}

/// The legend: the names of the kinds by number.
pub fn legend() -> (v: Vec<String>)
    ensures
        text::texts(v@) == Seq::new(12, |i: int| kind_name(i)),
{
    let v: Vec<String> = vec![
        "comment".to_owned(),
        "string".to_owned(),
        "number".to_owned(),
        "keyword".to_owned(),
        "function".to_owned(),
        "type".to_owned(),
        "property".to_owned(),
        "constant".to_owned(),
        "variable".to_owned(),
        "operator".to_owned(),
        "punctuation".to_owned(),
        "label".to_owned(),
    ];
    assert(text::texts(v@) =~= Seq::new(12, |i: int| kind_name(i)));
    v
}

// ---- names

/// What is known of the names in a text: pages, registers with their page, fields with their
/// page and register, and events.
#[derive(Debug, Clone, PartialEq, Eq)]
pub struct LanguageFacts {
    pub pages: Vec<String>,
    pub registers: Vec<(String, String)>,
    pub fields: Vec<(String, String, String)>,
    pub events: Vec<String>,
}

/// The names by what they name.
#[derive(Debug, Clone, PartialEq, Eq)]
pub struct RseqSemanticSymbols {
    pub pages: Vec<String>,
    pub registers: Vec<String>,
    pub fields: Vec<String>,
    pub events: Vec<String>,
}

/// The names by what they name, as a mathematical value.
pub struct SymbolsView {
    pub pages: Seq<Seq<char>>,
    pub registers: Seq<Seq<char>>,
    pub fields: Seq<Seq<char>>,
    pub events: Seq<Seq<char>>,
}

/// The names of registers: each alone and behind its page.
pub open spec fn register_names(list: Seq<(String, String)>) -> Seq<Seq<char>>
    decreases list.len(),
{
    if list.len() == 0 {
        Seq::empty()
    } else {
        let (page, name) = list.last();
        register_names(list.drop_last()).push(name@).push(page@ + "."@ + name@)
    }
}

/// The names of fields: each alone and behind its page and register.
pub open spec fn field_names(list: Seq<(String, String, String)>) -> Seq<Seq<char>>
    decreases list.len(),
{
    if list.len() == 0 {
        Seq::empty()
    } else {
        let (page, register, name) = list.last();
        field_names(list.drop_last()).push(name@).push(
            page@ + "."@ + register@ + "."@ + name@,
        )
    }
}

/// The names that facts give.
pub open spec fn symbols_of(f: LanguageFacts) -> SymbolsView {
    SymbolsView {
        pages: text::texts(f.pages@),
        registers: register_names(f.registers@),
        fields: field_names(f.fields@),
        events: text::texts(f.events@),
    }
}

fn push_name(list: &mut Vec<String>, name: String)
    ensures
        text::texts(final(list)@) == text::texts(old(list)@).push(name@),
{
    list.push(name);
    assert(text::texts(list@) =~= text::texts(old(list)@).push(name@));
}

/// Whether a text is one of the built-in functions.
pub open spec fn is_function(t: Seq<char>) -> bool {
    t == "chip!"@ || t == "bus!"@ || t == "bus_probe!"@ || t == "read!"@ || t == "write!"@ || t
        == "update!"@ || t == "irq!"@ || t == "wait!"@ || t == "repeat!"@ || t == "print!"@ || t
        == "report!"@ || t == "report_format!"@
}

/// Whether a text is a keyword.
pub open spec fn is_keyword(t: Seq<char>) -> bool {
    t == "let"@ || t == "if"@ || t == "else"@ || t == "on"@
}

/// Whether a text is a built-in type.
pub open spec fn is_type(t: Seq<char>) -> bool {
    t == "spi"@ || t == "i2c"@ || t == "i3c"@ || t == "i16_le"@ || t == "qmi8660_fifo6"@ || t
        == "physical_f32"@ || t == "raw_i16"@
}

/// Whether a text is a built-in property.
pub open spec fn is_property(t: Seq<char>) -> bool {
    t == "fields"@ || t == "gyro_fields"@ || t == "accel_fields"@ || t == "temp_field"@ || t
        == "accel_fs_g"@ || t == "gyro_fs_dps"@ || t == "temp_lsb_per_c"@ || t == "temp_offset_c"@
        || t == "output"@
}

/// Whether a text is a built-in constant.
pub open spec fn is_constant(t: Seq<char>) -> bool {
    t == "FIFO_RAW"@ || t == "AMD"@ || t == "SMD"@ || t == "DRDY"@
}

/// What a name is.
pub open spec fn classified(sy: SymbolsView, t: Seq<char>) -> RseqSemanticKind {
    if is_function(t) {
        RseqSemanticKind::Function
    } else if is_keyword(t) {
        RseqSemanticKind::Keyword
    } else if is_type(t) || sy.pages.contains(t) {
        RseqSemanticKind::Type
    } else if is_constant(t) {
        RseqSemanticKind::Constant
    } else if is_property(t) || sy.registers.contains(t) || sy.fields.contains(t) {
        RseqSemanticKind::Property
    } else if sy.events.contains(t) {
        RseqSemanticKind::Label
    } else {
        RseqSemanticKind::Variable
    }
}

fn names_function(t: &str) -> (r: bool)
    ensures
        r == is_function(t@),
{
    same_text(t, "chip!") || same_text(t, "bus!") || same_text(t, "bus_probe!") || same_text(
        t,
        "read!",
    ) || same_text(t, "write!") || same_text(t, "update!") || same_text(t, "irq!") || same_text(
        t,
        "wait!",
    ) || same_text(t, "repeat!") || same_text(t, "print!") || same_text(t, "report!") || same_text(
        t,
        "report_format!",
    )
}

fn names_type(t: &str) -> (r: bool)
    ensures
        r == is_type(t@),
{
    same_text(t, "spi") || same_text(t, "i2c") || same_text(t, "i3c") || same_text(t, "i16_le")
        || same_text(t, "qmi8660_fifo6") || same_text(t, "physical_f32") || same_text(t, "raw_i16")
}

fn names_property(t: &str) -> (r: bool)
    ensures
        r == is_property(t@),
{
    same_text(t, "fields") || same_text(t, "gyro_fields") || same_text(t, "accel_fields")
        || same_text(t, "temp_field") || same_text(t, "accel_fs_g") || same_text(t, "gyro_fs_dps")
        || same_text(t, "temp_lsb_per_c") || same_text(t, "temp_offset_c") || same_text(t, "output")
}

impl RseqSemanticSymbols {
    pub open spec fn view(self) -> SymbolsView {
        SymbolsView {
            pages: text::texts(self.pages@),
            registers: text::texts(self.registers@),
            fields: text::texts(self.fields@),
            events: text::texts(self.events@),
        }
    }

    /// The names that facts give.
    pub fn from_facts(facts: &LanguageFacts) -> (sy: Self)
        ensures
            sy.view() == symbols_of(*facts),
    {
        let mut registers: Vec<String> = Vec::new();
        let mut i: usize = 0;
        assert(text::texts(registers@) =~= register_names(facts.registers@.take(0)));
        while i < facts.registers.len()
            invariant
                i <= facts.registers.len(),
                text::texts(registers@) == register_names(facts.registers@.take(i as int)),
            decreases facts.registers.len() - i,
        {
            assert(facts.registers@.take(i + 1).drop_last() =~= facts.registers@.take(i as int));
            let r = &facts.registers[i];
            push_name(&mut registers, r.1.clone());
            let mut s: String = r.0.clone();
            s.push_str(".");
            s.push_str(r.1.as_str());
            push_name(&mut registers, s);
            i += 1;
        }
        assert(facts.registers@.take(facts.registers@.len() as int) =~= facts.registers@);
        let mut fields: Vec<String> = Vec::new();
        let mut k: usize = 0;
        assert(text::texts(fields@) =~= field_names(facts.fields@.take(0)));
        while k < facts.fields.len()
            invariant
                k <= facts.fields.len(),
                text::texts(fields@) == field_names(facts.fields@.take(k as int)),
            decreases facts.fields.len() - k,
        {
            assert(facts.fields@.take(k + 1).drop_last() =~= facts.fields@.take(k as int));
            let f = &facts.fields[k];
            push_name(&mut fields, f.2.clone());
            let mut s: String = f.0.clone();
            s.push_str(".");
            s.push_str(f.1.as_str());
            s.push_str(".");
            s.push_str(f.2.as_str());
            push_name(&mut fields, s);
            k += 1;
        }
        assert(facts.fields@.take(facts.fields@.len() as int) =~= facts.fields@);
        RseqSemanticSymbols {
            pages: text::copy_texts(&facts.pages),
            registers,
            fields,
            events: text::copy_texts(&facts.events),
        }
    }

    /// What a name is.
    pub fn classify_ident(&self, token: &str) -> (k: RseqSemanticKind)
        ensures
            k == classified(self.view(), token@),
    {
        if names_function(token) {
            RseqSemanticKind::Function
        } else if same_text(token, "let") || same_text(token, "if") || same_text(token, "else")
            || same_text(token, "on") {
            RseqSemanticKind::Keyword
        } else if names_type(token) || has_text(&self.pages, token) {
            RseqSemanticKind::Type
        } else if same_text(token, "FIFO_RAW") || same_text(token, "AMD") || same_text(token, "SMD")
            || same_text(token, "DRDY") {
            RseqSemanticKind::Constant
        } else if names_property(token) || has_text(&self.registers, token) || has_text(
            &self.fields,
            token,
        ) {
            RseqSemanticKind::Property
        } else if has_text(&self.events, token) {
            RseqSemanticKind::Label
        } else {
            RseqSemanticKind::Variable
        }
    }
}

// ---- parts

/// Where a string ends that starts before the `i`-th character. A quotation mark or a line
/// end that is not escaped ends it.
pub open spec fn string_end(s: Seq<char>, i: int, escaped: bool) -> int
    decreases s.len() - i,
{
    if i < 0 || i >= s.len() {
        i
    } else if escaped {
        string_end(s, i + 1, false)
    } else if s[i] == '\\' {
        string_end(s, i + 1, true)
    } else if s[i] == '"' || s[i] == '\n' {
        i + 1
    } else {
        string_end(s, i + 1, false)
    }
}

/// Whether a number can go on with a character.
pub open spec fn number_continue(c: char) -> bool {
    completion::ascii_letter(c) || completion::ascii_digit(c) || c == '_' || c == '.'
}

/// Whether a character is an operator.
pub open spec fn operator(c: char) -> bool {
    c == '=' || c == '|' || c == '&' || c == '<' || c == '>' || c == '+' || c == '-' || c == '*' || c
        == '/' || c == '%' || c == '^' || c == '!'
}

/// Whether a character is punctuation.
pub open spec fn punctuation(c: char) -> bool {
    c == '{' || c == '}' || c == '(' || c == ')' || c == '[' || c == ']' || c == ',' || c == ':' || c
        == ';'
}

/// The kinds of runs of characters.
#[derive(Clone, Copy, PartialEq, Eq, Structural)]
pub enum Run {
    Number,
    Name,
    Operators,
}

/// Whether a run can go on with a character.
pub open spec fn run_continue(run: Run, c: char) -> bool {
    match run {
        Run::Number => number_continue(c),
        Run::Name => completion::ident_continue(c),
        Run::Operators => operator(c),
    }
}

/// Where a run ends.
pub open spec fn run_end(run: Run, s: Seq<char>, i: int) -> int
    decreases s.len() - i,
{
    if i < 0 || i >= s.len() || !run_continue(run, s[i]) {
        i
    } else {
        run_end(run, s, i + 1)
    }
}

/// A part of a text, by characters.
pub struct Part {
    pub start: int,
    pub end: int,
    pub kind: RseqSemanticKind,
}

/// Whether a comment starts at the `i`-th character.
pub open spec fn comment_at(s: Seq<char>, i: int) -> bool {
    i + 1 < s.len() && s[i] == '/' && s[i + 1] == '/'
}

/// The part that starts at the `i`-th character, if one does.
pub open spec fn part_at(sy: SymbolsView, s: Seq<char>, i: int) -> Option<Part> {
    let c = s[i];
    if text::is_white(c) {
        None
    } else if comment_at(s, i) {
        Some(Part { start: i, end: position::line_end(s, i), kind: RseqSemanticKind::Comment })
    } else if c == '"' {
        Some(Part { start: i, end: string_end(s, i + 1, false), kind: RseqSemanticKind::Text })
    } else if completion::ascii_digit(c) {
        Some(
            Part {
                start: i,
                end: run_end(Run::Number, s, i),
                kind: RseqSemanticKind::Number,
            },
        )
    } else if completion::ident_start(c) {
        let end = run_end(Run::Name, s, i);
        Some(Part { start: i, end, kind: classified(sy, s.subrange(i, end)) })
    } else if punctuation(c) {
        Some(Part { start: i, end: i + 1, kind: RseqSemanticKind::Punctuation })
    } else if operator(c) {
        Some(
            Part {
                start: i,
                end: run_end(Run::Operators, s, i),
                kind: RseqSemanticKind::Operator,
            },
        )
    } else {
        None
    }
}

/// The parts of a text from the `i`-th character on.
pub open spec fn parts_from(sy: SymbolsView, s: Seq<char>, i: int) -> Seq<Part>
    decreases s.len() - i,
{
    if i < 0 || i >= s.len() {
        Seq::empty()
    } else {
        match part_at(sy, s, i) {
            Some(p) => if i < p.end <= s.len() {
                seq![p] + parts_from(sy, s, p.end)
            } else {
                Seq::empty()
            },
            None => parts_from(sy, s, i + 1),
        }
    }
}

proof fn lemma_string_end(s: Seq<char>, i: int, escaped: bool)
    requires
        0 <= i <= s.len(),
    ensures
        i <= string_end(s, i, escaped) <= s.len(),
    decreases s.len() - i,
{
    if i < s.len() {
        lemma_string_end(s, i + 1, false);
        lemma_string_end(s, i + 1, true);
    }
}

proof fn lemma_run_end(run: Run, s: Seq<char>, i: int)
    requires
        0 <= i <= s.len(),
    ensures
        i <= run_end(run, s, i) <= s.len(),
        i < s.len() && run_continue(run, s[i]) ==> i < run_end(run, s, i),
    decreases s.len() - i,
{
    if i < s.len() && run_continue(run, s[i]) {
        lemma_run_end(run, s, i + 1);
    }
}

proof fn lemma_line_end_within(s: Seq<char>, i: int)
    requires
        0 <= i <= s.len(),
    ensures
        i <= position::line_end(s, i) <= s.len(),
        i < s.len() && s[i] != '\n' ==> i < position::line_end(s, i),
    decreases s.len() - i,
{
    if i < s.len() && s[i] != '\n' {
        lemma_line_end_within(s, i + 1);
    }
}

/// A part is not empty and lies within the text.
pub proof fn law_part_within(sy: SymbolsView, s: Seq<char>, i: int)
    requires
        0 <= i < s.len(),
    ensures
        part_at(sy, s, i) matches Some(p) ==> p.start == i && i < p.end <= s.len(),
{
    lemma_line_end_within(s, i);
    lemma_string_end(s, i + 1, false);
    lemma_run_end(Run::Number, s, i);
    lemma_run_end(Run::Name, s, i);
    lemma_run_end(Run::Operators, s, i);
}

/// The parts of a text stand in order and do not overlap.
pub open spec fn apart(parts: Seq<Part>, from: int, to: int) -> bool {
    &&& forall|k: int|
        0 <= k < parts.len() ==> from <= (#[trigger] parts[k]).start < parts[k].end <= to
    &&& forall|j: int, k: int| 0 <= j < k < parts.len() ==> parts[j].end <= parts[k].start
}

/// The parts of a text stand in order, are not empty and do not overlap.
pub proof fn law_parts_apart(sy: SymbolsView, s: Seq<char>, i: int)
    requires
        0 <= i <= s.len(),
    ensures
        apart(parts_from(sy, s, i), i, s.len() as int),
    decreases s.len() - i,
{
    if i < s.len() {
        law_part_within(sy, s, i);
        match part_at(sy, s, i) {
            Some(p) => {
                law_parts_apart(sy, s, p.end);
                let rest = parts_from(sy, s, p.end);
                let all = parts_from(sy, s, i);
                assert(all == seq![p] + rest);
                assert forall|k: int| 0 <= k < all.len() implies i <= (#[trigger] all[k]).start
                    < all[k].end <= s.len() by {
                    if k > 0 {
                        assert(all[k] == rest[k - 1]);
                    }
                }
                assert forall|j: int, k: int| 0 <= j < k < all.len() implies all[j].end
                    <= all[k].start by {
                    assert(all[k] == rest[k - 1]);
                    if j > 0 {
                        assert(all[j] == rest[j - 1]);
                    }
                }
            },
            None => {
                law_parts_apart(sy, s, i + 1);
                assert(parts_from(sy, s, i) == parts_from(sy, s, i + 1));
            },
        }
    }
}

// ---- scanning

/// Where a string ends that starts at the `start`-th character.
pub fn rseq_scan_string(chars: &[char], start: usize) -> (end: usize)
    requires
        start < chars@.len(),
    ensures
        end == string_end(chars@, start + 1, false),
        start < end <= chars@.len(),
{
    let n: usize = chars.len();
    let mut escaped: bool = false;
    let mut i: usize = start + 1;
    while i < n
        invariant
            start < i <= n == chars@.len(),
            string_end(chars@, start + 1, false) == string_end(chars@, i as int, escaped),
        decreases n - i,
    {
        let c = chars[i];
        i += 1;
        if escaped {
            escaped = false;
        } else if c == '\\' {
            escaped = true;
        } else if c == '"' || c == '\n' {
            return i;
        }
    }
    i
}

/// Whether a character is punctuation.
pub fn rseq_is_punctuation(c: char) -> (r: bool)
    ensures
        r == punctuation(c),
{
    c == '{' || c == '}' || c == '(' || c == ')' || c == '[' || c == ']' || c == ',' || c == ':' || c
        == ';'
}

/// Whether a character is an operator.
pub fn rseq_is_operator(c: char) -> (r: bool)
    ensures
        r == operator(c),
{
    c == '=' || c == '|' || c == '&' || c == '<' || c == '>' || c == '+' || c == '-' || c == '*' || c
        == '/' || c == '%' || c == '^' || c == '!'
}

fn continues(run: Run, c: char) -> (r: bool)
    ensures
        r == run_continue(run, c),
{
    match run {
        Run::Number => is_ascii_letter(c) || is_ascii_digit(c) || c == '_' || c == '.',
        Run::Name => rseq_is_ident_continue(c),
        Run::Operators => rseq_is_operator(c),
    }
}

fn scan_run(run: Run, chars: &[char], start: usize) -> (end: usize)
    requires
        start <= chars@.len(),
    ensures
        end == run_end(run, chars@, start as int),
        start <= end <= chars@.len(),
{
    let mut i: usize = start;
    while i < chars.len() && continues(run, chars[i])
        invariant
            start <= i <= chars@.len(),
            run_end(run, chars@, start as int) == run_end(run, chars@, i as int),
        decreases chars.len() - i,
    {
        i += 1;
    }
    i
}

/// Where a number ends.
pub fn rseq_scan_number(chars: &[char], start: usize) -> (end: usize)
    requires
        start <= chars@.len(),
    ensures
        end == run_end(Run::Number, chars@, start as int),
        start <= end <= chars@.len(),
{
    scan_run(Run::Number, chars, start)
}

/// Where a name ends.
pub fn rseq_scan_ident(chars: &[char], start: usize) -> (end: usize)
    requires
        start <= chars@.len(),
    ensures
        end == run_end(Run::Name, chars@, start as int),
        start <= end <= chars@.len(),
{
    scan_run(Run::Name, chars, start)
}

/// Where operators end.
pub fn rseq_scan_operator(chars: &[char], start: usize) -> (end: usize)
    requires
        start <= chars@.len(),
    ensures
        end == run_end(Run::Operators, chars@, start as int),
        start <= end <= chars@.len(),
{
    scan_run(Run::Operators, chars, start)
}

fn scan_comment(chars: &[char], start: usize) -> (end: usize)
    requires
        start <= chars@.len(),
    ensures
        end == position::line_end(chars@, start as int),
        start <= end <= chars@.len(),
{
    let mut i: usize = start;
    while i < chars.len() && chars[i] != '\n'
        invariant
            start <= i <= chars@.len(),
            position::line_end(chars@, start as int) == position::line_end(chars@, i as int),
        decreases chars.len() - i,
    {
        i += 1;
    }
    i
}

fn scan_part(sy: &RseqSemanticSymbols, chars: &[char], i: usize) -> (p: Option<
    (usize, RseqSemanticKind),
>)
    requires
        i < chars@.len(),
    ensures
        match p {
            Some((end, kind)) => part_at(sy.view(), chars@, i as int) == Some(
                Part { start: i as int, end: end as int, kind },
            ) && i < end <= chars@.len(),
            None => part_at(sy.view(), chars@, i as int) is None,
        },
{
    proof {
        law_part_within(sy.view(), chars@, i as int);
    }
    let c = chars[i];
    if white(c) {
        None
    } else if c == '/' && chars.len() - i > 1 && chars[i + 1] == '/' {
        Some((scan_comment(chars, i), RseqSemanticKind::Comment))
    } else if c == '"' {
        Some((rseq_scan_string(chars, i), RseqSemanticKind::Text))
    } else if is_ascii_digit(c) {
        Some((rseq_scan_number(chars, i), RseqSemanticKind::Number))
    } else if rseq_is_ident_start(c) {
        let end: usize = rseq_scan_ident(chars, i);
        let token = string_of(slice_subrange(chars, i, end));
        Some((end, sy.classify_ident(token.as_str())))
    } else if rseq_is_punctuation(c) {
        Some((i + 1, RseqSemanticKind::Punctuation))
    } else if rseq_is_operator(c) {
        Some((rseq_scan_operator(chars, i), RseqSemanticKind::Operator))
    } else {
        None
    }
}

/// A part of a text, by bytes.
#[derive(Debug, Clone, Copy, PartialEq, Eq)]
pub struct RseqSemanticHit {
    pub start: usize,
    pub end: usize,
    pub kind: RseqSemanticKind,
}

/// Whether a part reaches into a range of bytes.
pub open spec fn reaches(s: Seq<char>, start: int, end: int) -> spec_fn(Part) -> bool {
    |p: Part| position::offset(s, p.end) > start && position::offset(s, p.start) < end
}

/// A part, by bytes.
pub open spec fn hit_of(s: Seq<char>, p: Part) -> RseqSemanticHit {
    RseqSemanticHit {
        start: position::offset(s, p.start) as usize,
        end: position::offset(s, p.end) as usize,
        kind: p.kind,
    }
}

/// The parts of a text that reach into a range of bytes.
pub open spec fn parts_in(sy: SymbolsView, s: Seq<char>, start: int, end: int) -> Seq<Part> {
    parts_from(sy, s, 0).filter(reaches(s, start, end))
}

/// The parts of a text that reach into a range of bytes, by bytes.
pub open spec fn hits_in(sy: SymbolsView, s: Seq<char>, start: int, end: int) -> Seq<
    RseqSemanticHit,
> {
    parts_in(sy, s, start, end).map_values(|p: Part| hit_of(s, p))
}

proof fn lemma_filter_cons(p: Part, rest: Seq<Part>, f: spec_fn(Part) -> bool)
    ensures
        (seq![p] + rest).filter(f) == (if f(p) {
            seq![p] + rest.filter(f)
        } else {
            rest.filter(f)
        }),
    decreases rest.len(),
{
    reveal(Seq::filter);
    let all = seq![p] + rest;
    if rest.len() == 0 {
        assert(all.drop_last() =~= Seq::<Part>::empty());
        assert(all.drop_last().filter(f) =~= Seq::<Part>::empty());
        assert(rest.filter(f) =~= Seq::<Part>::empty());
        assert(all.filter(f) =~= (if f(p) {
            seq![p] + rest.filter(f)
        } else {
            rest.filter(f)
        }));
    } else {
        lemma_filter_cons(p, rest.drop_last(), f);
        assert(all.drop_last() =~= seq![p] + rest.drop_last());
        assert(all.last() == rest.last());
        assert(all.filter(f) =~= (if f(p) {
            seq![p] + rest.filter(f)
        } else {
            rest.filter(f)
        }));
    }
}

/// A part as it was found in a text: by characters, and what it is.
pub struct FoundPart {
    pub start: usize,
    pub end: usize,
    pub kind: RseqSemanticKind,
}

/// What found parts stand for.
pub open spec fn found_views(v: Seq<FoundPart>) -> Seq<Part> {
    v.map_values(|f: FoundPart| Part { start: f.start as int, end: f.end as int, kind: f.kind })
}

/// The parts of a text that reach into a range of bytes, by characters.
pub fn find_parts(l: &Located, sy: &RseqSemanticSymbols, start: usize, end: usize) -> (v: Vec<
    FoundPart,
>)
    requires
        l.wf(),
    ensures
        found_views(v@) == parts_in(sy.view(), l.chars@, start as int, end as int),
{
    let ghost s = l.chars@;
    let ghost f = reaches(s, start as int, end as int);
    let ghost whole = parts_in(sy.view(), s, start as int, end as int);
    let mut v: Vec<FoundPart> = Vec::new();
    let mut i: usize = 0;
    assert(found_views(v@) + whole =~= whole);
    while i < l.chars.len()
        invariant
            l.wf(),
            s == l.chars@,
            i <= s.len(),
            f == reaches(s, start as int, end as int),
            whole == found_views(v@) + parts_from(sy.view(), s, i as int).filter(f),
        decreases l.chars.len() - i,
    {
        match scan_part(sy, &l.chars, i) {
            None => {
                i += 1;
            },
            Some((e, kind)) => {
                let ghost p = Part { start: i as int, end: e as int, kind };
                let ghost rest = parts_from(sy.view(), s, e as int);
                let ghost before = found_views(v@);
                proof {
                    lemma_filter_cons(p, rest, f);
                    assert(parts_from(sy.view(), s, i as int) == seq![p] + rest);
                }
                if l.offsets[e] > start && l.offsets[i] < end {
                    v.push(FoundPart { start: i, end: e, kind });
                    assert(found_views(v@) =~= before.push(p));
                    assert(before + (seq![p] + rest.filter(f)) =~= before.push(p) + rest.filter(f));
                }
                i = e;
            },
        }
    }
    proof {
        reveal(Seq::filter);
        assert(parts_from(sy.view(), s, i as int).filter(f) =~= Seq::<Part>::empty());
        assert(found_views(v@) + Seq::<Part>::empty() =~= found_views(v@));
    }
    v
}

/// The parts of a text that reach into a range of bytes, by bytes.
pub fn rseq_semantic_hits(source: &str, start: usize, end: usize, facts: &LanguageFacts) -> (hits: Vec<
    RseqSemanticHit,
>)
    ensures
        hits@ == hits_in(symbols_of(*facts), source@, start as int, end as int),
{
    let sy = RseqSemanticSymbols::from_facts(facts);
    let l = locate(source);
    let parts = find_parts(&l, &sy, start, end);
    let ghost all = parts_in(sy.view(), source@, start as int, end as int);
    proof {
        lemma_filtered_apart(sy.view(), source@, start as int, end as int);
    }
    let mut hits: Vec<RseqSemanticHit> = Vec::new();
    let mut k: usize = 0;
    while k < parts.len()
        invariant
            k <= parts.len(),
            l.wf(),
            l.chars@ == source@,
            all == found_views(parts@),
            apart(all, 0, source@.len() as int),
            hits@ == all.take(k as int).map_values(|p: Part| hit_of(source@, p)),
        decreases parts.len() - k,
    {
        let p = &parts[k];
        assert(all[k as int].start == p.start && all[k as int].end == p.end);
        hits.push(
            RseqSemanticHit { start: l.offsets[p.start], end: l.offsets[p.end], kind: p.kind },
        );
        k += 1;
        assert(hits@ =~= all.take(k as int).map_values(|p: Part| hit_of(source@, p)));
    }
    assert(all.take(all.len() as int) =~= all);
    hits
}

proof fn lemma_filtered_apart(sy: SymbolsView, s: Seq<char>, start: int, end: int)
    ensures
        apart(parts_in(sy, s, start, end), 0, s.len() as int),
{
    law_parts_apart(sy, s, 0);
    lemma_apart_filter(parts_from(sy, s, 0), 0, s.len() as int, reaches(s, start, end));
}

proof fn lemma_apart_filter(parts: Seq<Part>, from: int, to: int, f: spec_fn(Part) -> bool)
    requires
        apart(parts, from, to),
    ensures
        apart(parts.filter(f), from, to),
        forall|k: int|
            0 <= k < parts.filter(f).len() ==> parts.len() > 0 && (#[trigger] parts.filter(
                f,
            )[k]).end <= parts.last().end,
    decreases parts.len(),
{
    reveal(Seq::filter);
    if parts.len() > 0 {
        let rest = parts.drop_last();
        assert forall|k: int| 0 <= k < rest.len() implies from <= (#[trigger] rest[k]).start
            < rest[k].end <= to by {
            assert(rest[k] == parts[k]);
        }
        assert(apart(rest, from, to));
        lemma_apart_filter(rest, from, to, f);
        let x = parts.last();
        assert(parts[parts.len() - 1] == x);
        let r = rest.filter(f);
        if rest.len() > 0 {
            assert(rest.last() == parts[parts.len() - 2]);
            assert(rest.last().end <= x.start);
        }
        assert forall|k: int| 0 <= k < r.len() implies (#[trigger] r[k]).end <= x.start by {
            assert(rest.len() > 0);
        }
    }
}

// ---- tokens

/// A part as editors take it: where it stands behind the part before it, how long it is, and
/// what it is.
#[derive(Debug, Clone, Copy, PartialEq, Eq)]
pub struct SemanticToken {
    pub delta_line: u32,
    pub delta_start: u32,
    pub length: u32,
    pub token_type: u32,
}

/// The part behind one that starts at a line and a column.
pub open spec fn token_of(s: Seq<char>, p: Part, line: nat, column: nat) -> SemanticToken {
    let l = position::line_of(s, p.start);
    let c = position::column_of(s, p.start);
    SemanticToken {
        delta_line: (if l >= line {
            l - line
        } else {
            0
        }) as u32,
        delta_start: (if l > line {
            c as int
        } else if c >= column {
            c - column
        } else {
            0
        }) as u32,
        length: (p.end - p.start) as u32,
        token_type: kind_code(p.kind),
    }
}

/// The parts as editors take them, from the `k`-th on.
pub open spec fn tokens_from(s: Seq<char>, parts: Seq<Part>, line: nat, column: nat) -> Seq<
    SemanticToken,
>
    decreases parts.len(),
{
    if parts.len() == 0 {
        Seq::empty()
    } else {
        let p = parts[0];
        seq![token_of(s, p, line, column)] + tokens_from(
            s,
            parts.skip(1),
            position::line_of(s, p.start),
            position::column_of(s, p.start),
        )
    }
}

fn less(a: u32, b: u32) -> (r: u32)
    ensures
        r == (if a >= b {
            a - b
        } else {
            0
        }),
{
    if a >= b {
        a - b
    } else {
        0
    }
}

/// The parts of a text that reach into a range of bytes, as editors take them.
pub fn rseq_semantic_tokens(source: &str, start: usize, end: usize, facts: &LanguageFacts) -> (tokens:
    Vec<SemanticToken>)
    requires
        source@.len() <= u32::MAX,
    ensures
        tokens@ == tokens_from(
            source@,
            parts_in(symbols_of(*facts), source@, start as int, end as int),
            0,
            0,
        ),
{
    let sy = RseqSemanticSymbols::from_facts(facts);
    let l = locate(source);
    let parts = find_parts(&l, &sy, start, end);
    let ghost s = source@;
    let ghost all = parts_in(sy.view(), s, start as int, end as int);
    proof {
        lemma_filtered_apart(sy.view(), s, start as int, end as int);
    }
    let mut tokens: Vec<SemanticToken> = Vec::new();
    let mut line: u32 = 0;
    let mut column: u32 = 0;
    let mut k: usize = 0;
    assert(all.skip(0) =~= all);
    assert(tokens@ + tokens_from(s, all, 0, 0) =~= tokens_from(s, all, 0, 0));
    while k < parts.len()
        invariant
            k <= parts.len(),
            l.chars@ == s,
            s == source@,
            s.len() <= u32::MAX,
            all == found_views(parts@),
            apart(all, 0, s.len() as int),
            tokens_from(s, all, 0, 0) == tokens@ + tokens_from(
                s,
                all.skip(k as int),
                line as nat,
                column as nat,
            ),
        decreases parts.len() - k,
    {
        let p = &parts[k];
        let ghost v = all[k as int];
        assert(v.start == p.start && v.end == p.end && v.kind == p.kind);
        let (at, col) = place_of(&l.chars, p.start);
        let delta_line: u32 = less(at, line);
        let delta_start: u32 = if delta_line == 0 {
            less(col, column)
        } else {
            col
        };
        let token = SemanticToken {
            delta_line,
            delta_start,
            length: (p.end - p.start) as u32,
            token_type: p.kind.token_type(),
        };
        proof {
            let rest = all.skip(k as int);
            assert(rest[0] == v);
            assert(rest.skip(1) =~= all.skip(k + 1));
            assert(token == token_of(s, v, line as nat, column as nat));
            let more = tokens_from(s, all.skip(k + 1), at as nat, col as nat);
            assert(tokens@ + (seq![token] + more) =~= tokens@.push(token) + more);
        }
        tokens.push(token);
        line = at;
        column = col;
        k += 1;
    }
    assert(tokens@ + Seq::<SemanticToken>::empty() =~= tokens@);
    tokens
}

// ---- laws of tokens

/// Where tokens stand: line, column, length and kind of each, behind a line and a column.
pub open spec fn token_places(tokens: Seq<SemanticToken>, line: int, column: int) -> Seq<
    (int, int, int, int),
>
    decreases tokens.len(),
{
    if tokens.len() == 0 {
        Seq::empty()
    } else {
        let t = tokens[0];
        let l = line + t.delta_line;
        let c = if t.delta_line == 0 {
            column + t.delta_start
        } else {
            t.delta_start as int
        };
        seq![(l, c, t.length as int, t.token_type as int)] + token_places(tokens.skip(1), l, c)
    }
}

/// Where parts stand: line, column, length and kind of each.
pub open spec fn part_places(s: Seq<char>, parts: Seq<Part>) -> Seq<(int, int, int, int)> {
    parts.map_values(
        |p: Part|
            (
                position::line_of(s, p.start) as int,
                position::column_of(s, p.start) as int,
                p.end - p.start,
                kind_code(p.kind) as int,
            ),
    )
}

proof fn lemma_places_grow(s: Seq<char>, i: int, j: int)
    requires
        0 <= i <= j <= s.len(),
    ensures
        position::line_of(s, i) <= position::line_of(s, j),
        position::line_of(s, i) == position::line_of(s, j) ==> position::column_of(s, i)
            <= position::column_of(s, j),
    decreases j - i,
{
    if i < j {
        lemma_places_grow(s, i, j - 1);
    }
}

proof fn lemma_token_places(s: Seq<char>, parts: Seq<Part>, from: int)
    requires
        s.len() <= u32::MAX,
        0 <= from <= s.len(),
        apart(parts, from, s.len() as int),
    ensures
        token_places(
            tokens_from(s, parts, position::line_of(s, from), position::column_of(s, from)),
            position::line_of(s, from) as int,
            position::column_of(s, from) as int,
        ) == part_places(s, parts),
    decreases parts.len(),
{
    if parts.len() > 0 {
        let p = parts[0];
        let rest = parts.skip(1);
        assert(apart(rest, p.start, s.len() as int)) by {
            assert forall|k: int| 0 <= k < rest.len() implies p.start <= (#[trigger] rest[k]).start
                < rest[k].end <= s.len() by {
                assert(rest[k] == parts[k + 1]);
                assert(parts[0].end <= parts[k + 1].start);
            }
            assert forall|j: int, k: int| 0 <= j < k < rest.len() implies rest[j].end
                <= rest[k].start by {
                assert(rest[j] == parts[j + 1] && rest[k] == parts[k + 1]);
            }
        }
        lemma_places_grow(s, from, p.start);
        position::lemma_line_and_column(s, p.start);
        position::lemma_line_and_column(s, from);
        lemma_token_places(s, rest, p.start);
        let t = token_of(s, p, position::line_of(s, from), position::column_of(s, from));
        let more = tokens_from(
            s,
            rest,
            position::line_of(s, p.start),
            position::column_of(s, p.start),
        );
        let all = seq![t] + more;
        assert(all.skip(1) =~= more);
        assert(part_places(s, parts) =~= seq![
            (
                position::line_of(s, p.start) as int,
                position::column_of(s, p.start) as int,
                p.end - p.start,
                kind_code(p.kind) as int,
            ),
        ] + part_places(s, rest));
    } else {
        assert(part_places(s, parts) =~= Seq::<(int, int, int, int)>::empty());
    }
}

/// The tokens say of every part where it stands, how long it is and what it is.
pub proof fn law_tokens_place_parts(sy: SymbolsView, s: Seq<char>, start: int, end: int)
    requires
        s.len() <= u32::MAX,
    ensures
        token_places(tokens_from(s, parts_in(sy, s, start, end), 0, 0), 0, 0) == part_places(
            s,
            parts_in(sy, s, start, end),
        ),
{
    lemma_filtered_apart(sy, s, start, end);
    lemma_token_places(s, parts_in(sy, s, start, end), 0);
}

} // verus!
