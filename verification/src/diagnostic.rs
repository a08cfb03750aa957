//! Faults in a source as they are drawn below the line they are in.
use crate::metadata::SourceFault;
use crate::position;
use crate::position::byte_span_to_char_span;
use ariadne::{Color, Label, Report, ReportKind, Source};
use vstd::prelude::*;

verus! {

// ---- styles

/// How long the style is that a text starts with: all up to its first `m`.
pub open spec fn style_len(s: Seq<char>) -> nat
    decreases s.len(),
{
    if s.len() == 0 {
        0
    } else if s[0] == 'm' {
        1
    } else {
        1 + style_len(s.skip(1))
    }
}

/// A style is no longer than the text it starts.
pub proof fn lemma_style_len(s: Seq<char>)
    ensures
        style_len(s) <= s.len(),
    decreases s.len(),
{
    if s.len() > 0 && s[0] != 'm' {
        lemma_style_len(s.skip(1));
    }
}

/// A text without its styles: whatever stands from an escape character to the next `m` is left
/// out.
pub open spec fn unstyled(s: Seq<char>) -> Seq<char>
    decreases s.len(),
{
    if s.len() == 0 {
        s
    } else if s[0] == '\u{1b}' {
        proof {
            lemma_style_len(s.skip(1));
        }
        unstyled(s.skip(style_len(s.skip(1)) as int + 1))
    } else {
        seq![s[0]] + unstyled(s.skip(1))
    }
}

/// Whether a text holds no escape character.
pub open spec fn is_plain(s: Seq<char>) -> bool {
    !s.contains('\u{1b}')
}

/// A text without an escape character has no styles.
pub proof fn law_plain_has_no_styles(s: Seq<char>)
    requires
        is_plain(s),
    ensures
        unstyled(s) == s,
    decreases s.len(),
{
    if s.len() > 0 {
        assert(s[0] != '\u{1b}') by {
            assert(s.contains(s[0]));
        }
        assert(is_plain(s.skip(1))) by {
            assert forall|i: int| 0 <= i < s.skip(1).len() implies s.skip(1)[i] != '\u{1b}' by {
                assert(s.contains(s[i + 1]));
            }
        }
        law_plain_has_no_styles(s.skip(1));
        assert(seq![s[0]] + s.skip(1) =~= s);
    }
}

// ---- a fault as it is drawn

/// A help text, if there is one.
pub open spec fn help_view(help: Option<&str>) -> Option<Seq<char>> {
    match help {
        Some(h) => Some(h@),
        None => None,
    }
}

/// What a fault is told with: where it is told, what it is called, what stands at the span, and
/// what may help.
pub struct Told {
    pub title: Seq<char>,
    pub label: Seq<char>,
    pub help: Option<Seq<char>>,
}

/// Whether nothing that is told holds an escape character.
pub open spec fn told_plainly(name: Seq<char>, source: Seq<char>, told: Told) -> bool {
    is_plain(name) && is_plain(source) && is_plain(told.title) && is_plain(told.label)
        && match told.help {
        Some(h) => is_plain(h),
        None => true,
    }
}

/// A fault at a range of characters of a source as it is drawn, without styles.
pub uninterp spec fn drawn(
    name: Seq<char>,
    source: Seq<char>,
    start: int,
    end: int,
    title: Seq<char>,
    label: Seq<char>,
    help: Option<Seq<char>>,
) -> Seq<char>;

/// Whether a character ends a line.
pub open spec fn is_line_break(c: char) -> bool {
    c == '\r' || c == '\n' || c == '\u{b}' || c == '\u{c}' || c == '\u{85}' || c == '\u{2028}' || c
        == '\u{2029}'
}

/// How many characters of a text end a line.
pub open spec fn line_breaks(s: Seq<char>) -> nat {
    s.filter(|c: char| is_line_break(c)).len()
}

/// The most lines of a source that a fault can be drawn in.
pub const MAX_LINES: usize = 999_999_999;

/// A text has no more line breaks than characters.
pub proof fn law_line_breaks_are_characters(s: Seq<char>)
    ensures
        line_breaks(s) <= s.len(),
{
    s.lemma_filter_len(|c: char| is_line_break(c));
}

/// `ariadne::Report::write` of an error at one range of characters, with one label there and at
/// most one help text. The text is a function of what the report is built from, up to the colours
/// around its parts: `yansi` writes those between an escape character and an `m`, and not on every
/// machine. So the contract speaks of the text without its styles, and of texts that hold no
/// escape character themselves; what comes of others is left unsaid. Such a report cannot be drawn
/// for a range that ends before it starts, nor in a source of a thousand million lines. It is
/// written into a `Vec`, which grows as needed, so that writing does not fail.
#[verifier::external_body]
fn draw(
    name: &str,
    source: &str,
    start: usize,
    end: usize,
    title: &str,
    label: &str,
    help: Option<&str>,
) -> (r: Result<String, String>)
    requires
        start <= end,
        line_breaks(source@) < MAX_LINES,
    ensures
        r is Ok,
        told_plainly(name@, source@, Told { title: title@, label: label@, help: help_view(help) })
            ==> unstyled(r->Ok_0@) == drawn(
            name@,
            source@,
            start as int,
            end as int,
            title@,
            label@,
            help_view(help),
        ),
{
    let at = (name.to_string(), start..end);
    let place = Label::new(at.clone()).with_message(label).with_color(Color::Red);
    let mut report = Report::build(ReportKind::Error, at).with_message(title).with_label(place);
    report.with_helps(help);
    let mut out: Vec<u8> = Vec::new();
    match report.finish().write((name.to_string(), Source::from(source.to_string())), &mut out) {
        Ok(()) => Ok(String::from_utf8_lossy(&out).into_owned()),
        Err(e) => Err(e.to_string()),
    }
}

// ---- what is told

/// What is told of a fault that could not be drawn.
pub open spec fn undrawn(told: Told, why: Seq<char>) -> Seq<char> {
    told.title + ": "@ + told.label + "\n"@ + (match told.help {
        Some(h) => "help: "@ + h + "\n"@,
        None => Seq::empty(),
    }) + "failed to render diagnostic: "@ + why + "\n"@
}

/// What is told of a fault: as it was drawn, or in plain lines with why it could not be.
pub fn diagnostic_text(
    drawing: Result<String, String>,
    title: &str,
    label: &str,
    help: Option<&str>,
) -> (s: String)
    ensures
        s@ == (match drawing {
            Ok(text) => text@,
            Err(why) => undrawn(
                Told { title: title@, label: label@, help: help_view(help) },
                why@,
            ),
        }),
{
    match drawing {
        Ok(text) => text,
        Err(why) => {
            let mut s: String = title.to_owned();
            s.push_str(": ");
            s.push_str(label);
            s.push_str("\n");
            let ghost before = s@;
            match help {
                Some(h) => {
                    s.push_str("help: ");
                    s.push_str(h);
                    s.push_str("\n");
                    assert(s@ =~= before + ("help: "@ + h@ + "\n"@));
                },
                None => {
                    assert(s@ =~= before + Seq::<char>::empty());
                },
            }
            s.push_str("failed to render diagnostic: ");
            s.push_str(why.as_str());
            s.push_str("\n");
            s
        },
    }
}

/// Whether `s` is what is told of a fault at a range of bytes, up to its styles.
pub open spec fn tells(
    s: Seq<char>,
    name: Seq<char>,
    source: Seq<char>,
    start: int,
    end: int,
    told: Told,
) -> bool {
    let span = position::char_span(source, start, end);
    told_plainly(name, source, told) ==> unstyled(s) == drawn(
        name,
        source,
        span.0,
        span.1,
        told.title,
        told.label,
        told.help,
    )
}

/// What is told of a fault at a range of bytes of a source: drawn at the characters that the
/// range covers, at least at one.
pub fn emit_diagnostic(
    source_name: &str,
    source: &str,
    start: usize,
    end: usize,
    title: &str,
    label: &str,
    help: Option<&str>,
) -> (s: String)
    requires
        line_breaks(source@) < MAX_LINES,
    ensures
        tells(
            s@,
            source_name@,
            source@,
            start as int,
            end as int,
            Told { title: title@, label: label@, help: help_view(help) },
        ),
{
    let (from, to) = byte_span_to_char_span(source, start, end);
    let drawing = draw(source_name, source, from, to, title, label, help);
    diagnostic_text(drawing, title, label, help)
}

/// What is told of a source that cannot be parsed.
pub open spec fn parse_told(f: SourceFault) -> Told {
    Told {
        title: "could not parse rseq source"@,
        label: f.message@,
        help: Some("check the macro syntax and punctuation near this location"@),
    }
}

/// What is told of each fault of a source that cannot be parsed, in their order.
pub fn parse_diagnostics(name: &str, source: &str, faults: &[SourceFault]) -> (texts: Vec<String>)
    requires
        line_breaks(source@) < MAX_LINES,
    ensures
        texts@.len() == faults@.len(),
        forall|i: int|
            0 <= i < texts@.len() ==> tells(
                (#[trigger] texts@[i])@,
                name@,
                source@,
                faults@[i].start as int,
                faults@[i].end as int,
                parse_told(faults@[i]),
            ),
{
    let mut texts: Vec<String> = Vec::new();
    let mut i: usize = 0;
    while i < faults.len()
        invariant
            i <= faults@.len(),
            texts@.len() == i,
            line_breaks(source@) < MAX_LINES,
            forall|j: int|
                0 <= j < i ==> tells(
                    (#[trigger] texts@[j])@,
                    name@,
                    source@,
                    faults@[j].start as int,
                    faults@[j].end as int,
                    parse_told(faults@[j]),
                ),
        decreases faults.len() - i,
    {
        let f = &faults[i];
        texts.push(
            emit_diagnostic(
                name,
                source,
                f.start,
                f.end,
                "could not parse rseq source",
                f.message.as_str(),
                Some("check the macro syntax and punctuation near this location"),
            ),
        );
        i += 1;
    }
    texts
}

/// What is told of a source that cannot be compiled.
pub fn compile_diagnostic(name: &str, source: &str, f: &SourceFault, help: Option<&str>) -> (s:
    String)
    requires
        line_breaks(source@) < MAX_LINES,
    ensures
        tells(
            s@,
            name@,
            source@,
            f.start as int,
            f.end as int,
            Told {
                title: "could not compile rseq source"@,
                label: f.message@,
                help: help_view(help),
            },
        ),
{
    emit_diagnostic(
        name,
        source,
        f.start,
        f.end,
        "could not compile rseq source",
        f.message.as_str(),
        help,
    )
}

proof fn lemma_style_of(body: Seq<char>, rest: Seq<char>)
    requires
        !body.contains('m'),
    ensures
        style_len(body + seq!['m'] + rest) == body.len() + 1,
    decreases body.len(),
{
    let s = body + seq!['m'] + rest;
    if body.len() > 0 {
        assert(body.contains(body[0]));
        let less = body.skip(1);
        assert(!less.contains('m')) by {
            if less.contains('m') {
                let i = choose|i: int| 0 <= i < less.len() && less[i] == 'm';
                assert(body[i + 1] == 'm');
            }
        }
        lemma_style_of(less, rest);
        assert(s.skip(1) =~= less + seq!['m'] + rest);
    }
}

/// A text without styles is the text without each escape character and what follows it up to the
/// next `m`; every other character stays in its place.
pub proof fn law_styles_are_left_out(c: char, body: Seq<char>, rest: Seq<char>)
    requires
        !body.contains('m'),
    ensures
        unstyled(Seq::empty()) == Seq::<char>::empty(),
        c != '\u{1b}' ==> unstyled(seq![c] + rest) == seq![c] + unstyled(rest),
        unstyled(seq!['\u{1b}'] + body + seq!['m'] + rest) == unstyled(rest),
{
    assert((seq![c] + rest).skip(1) =~= rest);
    let s = seq!['\u{1b}'] + body + seq!['m'] + rest;
    assert(s.skip(1) =~= body + seq!['m'] + rest);
    lemma_style_of(body, rest);
    assert(s.skip(body.len() as int + 2) =~= rest);
}

} // verus!
