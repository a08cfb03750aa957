//! What the panels of the workbench show.
use crate::bits;
use crate::blocks;
use crate::blocks::{visual_safety_errors, VisualEditor};
use crate::bounded::MAX_HISTORY_BARS;
use crate::catalog;
use crate::catalog::{RegView, RegisterCatalog, RegisterInfo};
use crate::dump;
use crate::health::ReportHealth;
use crate::input;
use crate::input::parse_register_write_bytes;
use crate::modes;
use crate::modes::{MotionSeries, RegisterViewMode};
use crate::page;
use crate::panel::RegisterPanel;
use crate::regview;
use crate::regview::{field_bit_label, field_value_text, format_addr, is_field_active};
use crate::regview::{register_value_text, width_of};
use crate::session::{two, CompiledProgram};
use crate::text;
use crate::text::{chars_of, dec_text, push_dec, push_padded, same_text};
use crate::visual;
use crate::visual::{VisualStepBlueprint, VisualStepKind};
use crate::visual::SequenceView;
use crate::visual_source;
use crate::visual_source::visual_sequence_errors;
use crate::workspace::{chip_paths_label, program_text, sequence_title};
use std::collections::VecDeque;
use vstd::prelude::*;

verus! {

// ---- sequences

/// What stands beside the sequence that is worked on.
#[derive(Debug, Clone, PartialEq, Eq)]
pub struct SequenceSidebar {
    pub title: String,
    pub unsaved: bool,
    /// Whether the sequence can be compiled, run and watched.
    pub ready: bool,
    pub source: String,
    pub chip: String,
    pub compile: String,
    pub program: String,
    pub metadata: String,
}

/// What stands beside the sequence that is worked on.
pub fn sequence_sidebar(
    path: Option<&str>,
    file_name: Option<&str>,
    dirty: bool,
    has_source: bool,
    chips: &[String],
    status: &str,
    program: Option<&CompiledProgram>,
    decoders: usize,
    registers: usize,
) -> (b: SequenceSidebar)
    ensures
        b.title@ == (match file_name {
            Some(n) => n@,
            None => "untitled.rseq"@,
        }),
        b.unsaved == dirty,
        b.ready == has_source,
        b.source@ == (match path {
            Some(p) => p@,
            None => "untitled.rseq"@,
        }),
        b.chip@ == (if chips@.len() == 0 {
            "from chip!(...) or none"@
        } else {
            text::joined(text::texts(chips@), "\n"@)
        }),
        b.compile@ == status@,
        b.program@ == (match program {
            Some(p) => "main="@ + text::dec(p.main@.len()) + " bytes\nirq_handlers="@ + text::dec(
                p.irq_bytecodes@.len(),
            ),
            None => "not compiled"@,
        }),
        b.metadata@ == "reports="@ + text::dec(decoders as nat) + "\nregisters="@ + text::dec(
            registers as nat,
        ),
{
    let mut metadata: String = "reports=".to_owned();
    push_dec(&mut metadata, decoders as u128);
    metadata.push_str("\nregisters=");
    push_dec(&mut metadata, registers as u128);
    SequenceSidebar {
        title: sequence_title(file_name),
        unsaved: dirty,
        ready: has_source,
        source: sequence_title(path),
        chip: chip_paths_label(chips),
        compile: status.to_owned(),
        program: program_text(program),
        metadata,
    }
}

/// A sequence in the list of sequences.
#[derive(Debug, Clone, PartialEq, Eq)]
pub struct SequenceRow {
    pub name: String,
    pub steps: String,
    pub selected: bool,
}

/// The list of sequences.
#[derive(Debug, Clone, PartialEq, Eq)]
pub struct SequenceList {
    pub rows: Vec<SequenceRow>,
    /// Whether a sequence can be deleted.
    pub deletable: bool,
    /// Whether the sequence that is shown can be run.
    pub runnable: bool,
}

/// Whether a row of the list shows a sequence.
pub open spec fn row_shows(row: SequenceRow, s: SequenceView, selected: bool) -> bool {
    &&& row.name@ == blocks::settled_name(s.name)
    &&& row.steps@ == text::dec(s.steps.len())
    &&& row.selected == selected
}

/// The list of sequences. The one that is shown can be run once its device is reached, or where
/// it has none to reach.
pub fn visual_sequence_list(e: &VisualEditor, connected: bool, has_serial: bool) -> (l: SequenceList)
    ensures
        l.rows@.len() == e.view().sequences.len(),
        forall|i: int|
            0 <= i < l.rows@.len() ==> row_shows(
                #[trigger] l.rows@[i],
                e.view().sequences[i],
                e.active == i,
            ),
        l.deletable == (e.view().sequences.len() > 0),
        l.runnable == (connected || !has_serial),
{
    let mut rows: Vec<SequenceRow> = Vec::new();
    let mut i: usize = 0;
    while i < e.sequences.len()
        invariant
            i <= e.sequences.len(),
            rows@.len() == i,
            forall|k: int|
                0 <= k < i ==> row_shows(
                    #[trigger] rows@[k],
                    e.view().sequences[k],
                    e.active == k,
                ),
        decreases e.sequences.len() - i,
    {
        assert(e.view().sequences[i as int] == e.sequences@[i as int].view());
        let b = e.sequences[i].to_blueprint();
        rows.push(
            SequenceRow {
                name: b.name,
                steps: dec_text(e.sequences[i].steps.len() as u128),
                selected: e.active == i,
            },
        );
        i += 1;
    }
    SequenceList { rows, deletable: e.sequences.len() > 0, runnable: connected || !has_serial }
}

/// A step in the table of steps.
#[derive(Debug, Clone, PartialEq, Eq)]
pub struct StepRow {
    pub drag_label: String,
    pub number: String,
    pub kind: String,
    /// How many bytes are written, or nothing where the length is typed.
    pub length: Option<String>,
    /// Whether data is typed.
    pub takes_data: bool,
}

/// A number with at least two digits.
pub open spec fn two_digits(n: nat) -> Seq<char> {
    text::zero_padded(text::dec(n), 2)
}

/// How many bytes data has, as it is shown.
pub open spec fn length_text(data: Seq<char>) -> Seq<char> {
    match input::write_bytes(data) {
        Ok(b) => text::dec(b.len()) + " B"@,
        Err(_) => "--"@,
    }
}

/// A step in the table of steps.
pub fn visual_step_row(index: usize, step: &VisualStepBlueprint) -> (r: StepRow)
    ensures
        r.number@ == two_digits((index + 1) as nat),
        r.drag_label@ == "#"@ + two_digits((index + 1) as nat) + " "@ + visual::kind_label(step.kind),
        r.kind@ == visual::kind_label(step.kind),
        catalog::opt_text(r.length) == (match step.kind {
            VisualStepKind::Read => None,
            VisualStepKind::Write => Some(length_text(step.data@)),
        }),
        r.takes_data == (step.kind is Write),
{
    let digits = chars_of(dec_text(index as u128 + 1).as_str());
    let mut number: String = String::new();
    push_padded(&mut number, &digits, 2);
    assert(number@ =~= two_digits((index + 1) as nat));
    let mut drag_label: String = two("#", number.as_str());
    drag_label.push_str(" ");
    drag_label.push_str(step.kind.label());
    let length: Option<String> = match step.kind {
        VisualStepKind::Read => None,
        VisualStepKind::Write => match parse_register_write_bytes(step.data.as_str()) {
            Ok(b) => {
                let mut s: String = dec_text(b.len() as u128);
                s.push_str(" B");
                Some(s)
            },
            Err(_) => Some("--".to_owned()),
        },
    };
    let takes_data: bool = match step.kind {
        VisualStepKind::Read => false,
        VisualStepKind::Write => true,
    };
    StepRow { drag_label, number, kind: step.kind.label().to_owned(), length, takes_data }
}

/// How many things that are wrong are shown.
pub const ISSUES_SHOWN: usize = 4;

/// Whether sequences can be written: nothing is wrong, or how much is, and the first of it.
pub open spec fn validation(wrong: Seq<Seq<char>>) -> Seq<Seq<char>> {
    if wrong.len() == 0 {
        seq!["Valid blocks; ready to generate rseq."@]
    } else {
        seq![text::dec(wrong.len()) + " issue(s)"@] + (if wrong.len() > ISSUES_SHOWN {
            wrong.take(ISSUES_SHOWN as int)
        } else {
            wrong
        })
    }
}

/// Whether the sequences can be written, as it is shown.
pub fn visual_validation(e: &VisualEditor, c: &RegisterCatalog) -> (lines: Vec<String>)
    requires
        blocks::all_end_in_range(c.regs()),
    ensures
        text::texts(lines@) == validation(
            visual_source::faults(blocks::blueprints(e.view().sequences)) + blocks::objections(
                c.regs(),
                blocks::blueprints(e.view().sequences),
            ),
        ),
{
    let list = e.blueprints();
    let mut errors = visual_sequence_errors(&list);
    let mut more = visual_safety_errors(c, &list);
    let ghost a = text::texts(errors@);
    let ghost b = text::texts(more@);
    errors.append(&mut more);
    let ghost wrong = a + b;
    assert(text::texts(errors@) =~= wrong);
    let mut lines: Vec<String> = Vec::new();
    if errors.len() == 0 {
        lines.push("Valid blocks; ready to generate rseq.".to_owned());
        assert(text::texts(lines@) =~= validation(wrong));
        return lines;
    }
    let mut s: String = dec_text(errors.len() as u128);
    s.push_str(" issue(s)");
    lines.push(s);
    let n: usize = if errors.len() > ISSUES_SHOWN {
        ISSUES_SHOWN
    } else {
        errors.len()
    };
    let mut i: usize = 0;
    assert(text::texts(lines@) =~= seq![s@] + wrong.take(0));
    while i < n
        invariant
            i <= n <= errors.len(),
            text::texts(errors@) == wrong,
            text::texts(lines@) == seq![s@] + wrong.take(i as int),
        decreases n - i,
    {
        let ghost before = text::texts(lines@);
        assert(wrong[i as int] == errors@[i as int]@);
        lines.push(errors[i].clone());
        assert(text::texts(lines@) =~= before.push(wrong[i as int]));
        assert(text::texts(lines@) =~= seq![s@] + wrong.take(i + 1));
        i += 1;
    }
    assert(text::texts(lines@) =~= validation(wrong));
    lines
}

// ---- registers

/// A field in the list of registers.
#[derive(Debug, Clone, PartialEq, Eq)]
pub struct FieldCell {
    pub bits: String,
    pub value: String,
    pub active: bool,
    pub name: String,
    pub desc: String,
}

/// Whether a cell shows a field.
pub open spec fn cell_shows(c: FieldCell, f: catalog::FieldView, bytes: Seq<u8>) -> bool {
    &&& c.bits@ == regview::bits_text(f)
    &&& c.value@ == regview::field_text(f, bytes)
    &&& c.active == regview::field_active(f, bytes)
    &&& c.name@ == f.name
    &&& c.desc@ == f.desc
}

/// A register in the list of registers.
#[derive(Debug, Clone, PartialEq, Eq)]
pub struct RegisterRow {
    pub page: String,
    pub name: String,
    pub access: String,
    pub width: String,
    pub desc: Option<String>,
    pub addr: String,
    pub value: String,
    /// Whether nothing is known of the value.
    pub muted: bool,
    pub selected: bool,
    /// Whether the value is being edited in its place.
    pub edited: bool,
    pub fields: Vec<FieldCell>,
}

/// Whether what is known of a register can be shown in a row.
pub open spec fn row_fits(p: RegisterPanel, reg: RegView) -> bool {
    &&& reg.addr + dump::reg_bytes(reg) <= 0x1_0000_0000
    &&& regview::fields_ok(
        reg,
        crate::panel::bytes_at(p.values(), reg.addr, dump::reg_bytes(reg)),
    )
}

/// Whether a row shows a register.
pub open spec fn register_row_shows(row: RegisterRow, p: RegisterPanel, reg: RegView) -> bool {
    let width = dump::reg_bytes(reg);
    let bytes = crate::panel::bytes_at(p.values(), reg.addr, width);
    &&& row.page@ == reg.page
    &&& row.name@ == reg.name
    &&& row.access@ == reg.access
    &&& row.width@ == text::dec(width) + "B"@
    &&& catalog::opt_text(row.desc) == regview::filled(reg.desc)
    &&& row.addr@ == regview::addr_text(reg.addr)
    &&& row.value@ == regview::value_text(bytes, width, reg.no_dump)
    &&& row.muted == (bytes.len() == 0 || reg.no_dump)
    &&& row.selected == (p.selected == reg.addr)
    &&& row.edited == (p.inline_write == Some(reg.addr))
    &&& row.fields@.len() == reg.fields.len()
    &&& forall|i: int|
        0 <= i < row.fields@.len() ==> cell_shows(#[trigger] row.fields@[i], reg.fields[i], bytes)
}

/// A register in the list of registers.
pub fn register_map_row(p: &RegisterPanel, reg: &RegisterInfo) -> (row: RegisterRow)
    requires
        row_fits(*p, reg.view()),
    ensures
        register_row_shows(row, *p, reg.view()),
{
    let width: usize = width_of(reg);
    let bytes: Vec<u8> = p.register_bytes(reg.addr, width);
    let ghost v = reg.view();
    let mut fields: Vec<FieldCell> = Vec::new();
    let mut i: usize = 0;
    while i < reg.fields.len()
        invariant
            i <= reg.fields.len(),
            v == reg.view(),
            regview::fields_ok(v, bytes@),
            fields@.len() == i,
            forall|k: int|
                0 <= k < i ==> cell_shows(#[trigger] fields@[k], v.fields[k], bytes@),
        decreases reg.fields.len() - i,
    {
        let f = &reg.fields[i];
        assert(v.fields[i as int] == f.view());
        assert(regview::field_ok(v.fields[i as int], bytes@));
        fields.push(
            FieldCell {
                bits: field_bit_label(f),
                value: field_value_text(f, &bytes),
                active: is_field_active(f, &bytes),
                name: f.name.clone(),
                desc: f.desc.clone(),
            },
        );
        i += 1;
    }
    let mut width_text: String = dec_text(width as u128);
    width_text.push_str("B");
    let desc: Option<String> = if chars_of(reg.desc.as_str()).len() > 0 {
        Some(reg.desc.clone())
    } else {
        None
    };
    RegisterRow {
        page: reg.page.clone(),
        name: reg.name.clone(),
        access: reg.access.clone(),
        width: width_text,
        desc,
        addr: format_addr(reg.addr),
        value: register_value_text(&bytes, width, reg.no_dump),
        muted: bytes.len() == 0 || reg.no_dump,
        selected: p.selected == reg.addr,
        edited: p.is_edited(reg.addr),
        fields,
    }
}

/// The list of registers: a row for each of the page, by page, address and name, or what stands
/// there where there are none.
pub fn register_map(p: &RegisterPanel) -> (r: Result<Vec<RegisterRow>, &'static str>)
    requires
        forall|i: int|
            0 <= i < p.shown_regs().len() ==> row_fits(*p, #[trigger] p.shown_regs()[i]),
    ensures
        match r {
            Ok(rows) => {
                let list = page::reg_ordered(p.shown_regs());
                &&& p.shown_regs().len() > 0
                &&& rows@.len() == list.len()
                &&& forall|i: int|
                    0 <= i < rows@.len() ==> register_row_shows(#[trigger] rows@[i], *p, list[i])
            },
            Err(s) => p.shown_regs().len() == 0 && s@ == "no register metadata loaded"@,
        },
{
    let regs: Vec<RegisterInfo> = p.listed_registers();
    let ghost list = catalog::regs_view(regs@);
    let ghost shown = p.shown_regs();
    proof {
        page::law_reg_ordered(shown);
        shown.to_multiset_ensures();
        list.to_multiset_ensures();
        assert(list.len() == shown.len());
        assert forall|i: int| 0 <= i < list.len() implies row_fits(*p, #[trigger] list[i]) by {
            assert(list.contains(list[i]));
            assert(shown.contains(list[i])) by {
                assert(list.to_multiset().count(list[i]) > 0);
                assert(shown.to_multiset().count(list[i]) > 0);
            }
            let k = choose|k: int| 0 <= k < shown.len() && shown[k] == list[i];
            assert(row_fits(*p, shown[k]));
        }
    }
    if regs.len() == 0 {
        return Err("no register metadata loaded");
    }
    let mut rows: Vec<RegisterRow> = Vec::new();
    let mut i: usize = 0;
    while i < regs.len()
        invariant
            i <= regs.len(),
            list == catalog::regs_view(regs@),
            forall|k: int| 0 <= k < list.len() ==> row_fits(*p, #[trigger] list[k]),
            rows@.len() == i,
            forall|k: int| 0 <= k < i ==> register_row_shows(#[trigger] rows@[k], *p, list[k]),
        decreases regs.len() - i,
    {
        assert(list[i as int] == regs@[i as int].view());
        rows.push(register_map_row(p, &regs[i]));
        i += 1;
    }
    Ok(rows)
}

/// A page in the toolbar of the registers.
#[derive(Debug, Clone, PartialEq, Eq)]
pub struct PageButton {
    pub page: String,
    pub selected: bool,
}

/// The toolbar of the registers: the pages or what stands there where there are none, what can be
/// done in the view, and the address that is selected.
#[derive(Debug, Clone, PartialEq, Eq)]
pub struct RegisterToolbar {
    pub pages: Vec<PageButton>,
    pub no_pages: Option<&'static str>,
    pub hint: &'static str,
    /// The view that is chosen.
    pub mode: RegisterViewMode,
    pub selected: String,
    /// Whether registers can be read and written.
    pub enabled: bool,
}

/// The toolbar of the registers.
pub fn register_toolbar(p: &RegisterPanel, mode: RegisterViewMode, connected: bool) -> (t:
    RegisterToolbar)
    ensures
        match t.no_pages {
            Some(s) => t.pages@.len() == 0 && s@ == "no register metadata"@,
            None => t.pages@.len() > 0,
        },
        t.hint@ == modes::register_hint(mode),
        t.mode == mode,
        t.enabled == connected,
        t.pages@.len() == catalog::pages_of(p.catalog.regs()).len(),
        forall|i: int|
            0 <= i < t.pages@.len() ==> (#[trigger] t.pages@[i]).page@ == catalog::pages_of(
                p.catalog.regs(),
            )[i] && t.pages@[i].selected == (p.page_view() == Some(t.pages@[i].page@)),
        t.selected@ == "selected "@ + regview::addr_text(p.selected),
{
    let pages = p.catalog.pages();
    let ghost all = catalog::pages_of(p.catalog.regs());
    let mut buttons: Vec<PageButton> = Vec::new();
    let mut i: usize = 0;
    while i < pages.len()
        invariant
            i <= pages.len(),
            all == text::texts(pages@),
            buttons@.len() == i,
            forall|k: int|
                0 <= k < i ==> (#[trigger] buttons@[k]).page@ == all[k] && buttons@[k].selected == (
                p.page_view() == Some(buttons@[k].page@)),
        decreases pages.len() - i,
    {
        assert(all[i as int] == pages@[i as int]@);
        let selected: bool = match &p.page {
            Some(active) => same_text(active.as_str(), pages[i].as_str()),
            None => false,
        };
        buttons.push(PageButton { page: pages[i].clone(), selected });
        i += 1;
    }
    let no_pages: Option<&'static str> = if buttons.len() == 0 {
        Some("no register metadata")
    } else {
        None
    };
    RegisterToolbar {
        pages: buttons,
        no_pages,
        hint: mode.hint(),
        mode,
        enabled: connected,
        selected: two("selected ", format_addr(p.selected).as_str()),
    }
}

// ---- motion

/// What is told of the samples.
pub fn motion_summary(samples: usize, skip_remaining: usize) -> (s: String)
    ensures
        s@ == "samples="@ + text::dec(samples as nat) + " skip_remaining="@ + text::dec(
            skip_remaining as nat,
        ),
{
    let mut s: String = "samples=".to_owned();
    push_dec(&mut s, samples as u128);
    s.push_str(" skip_remaining=");
    push_dec(&mut s, skip_remaining as u128);
    s
}

/// How the temperature is shown.
#[derive(Debug, Clone, Copy, PartialEq, Eq, Structural)]
pub enum TemperatureView {
    Absent,
    Collapsed,
    Shown,
}

/// How the temperature is shown: not at all where none is known.
pub fn temperature_view(known: bool, wanted: bool) -> (v: TemperatureView)
    ensures
        v == (if !known {
            TemperatureView::Absent
        } else if wanted {
            TemperatureView::Shown
        } else {
            TemperatureView::Collapsed
        }),
{
    if !known {
        TemperatureView::Absent
    } else if wanted {
        TemperatureView::Shown
    } else {
        TemperatureView::Collapsed
    }
}

/// A bar of history that is looked into.
#[derive(Debug, Clone, Copy, PartialEq, Eq, Structural)]
pub struct Intraday {
    pub series: MotionSeries,
    pub bar_index: usize,
    pub bar_count: usize,
    pub samples: usize,
}

/// What stands above the history.
pub open spec fn history_text(bars: nat, view: Option<Intraday>) -> Seq<char> {
    match view {
        Some(v) => modes::series_label(v.series) + " intraday · bar "@ + text::dec(
            (v.bar_index + 1) as nat,
        ) + "/"@ + text::dec(v.bar_count as nat) + " · "@ + text::dec(v.samples as nat)
            + " samples"@,
        None => text::dec(bars) + "/"@ + text::dec(MAX_HISTORY_BARS as nat)
            + " bars · double-click a chart"@,
    }
}

/// What stands above the history.
pub fn history_header(bars: usize, view: Option<Intraday>) -> (s: String)
    ensures
        s@ == history_text(bars as nat, view),
{
    match view {
        Some(v) => {
            let mut s: String = v.series.label().to_owned();
            s.push_str(" intraday · bar ");
            push_dec(&mut s, v.bar_index as u128 + 1);
            s.push_str("/");
            push_dec(&mut s, v.bar_count as u128);
            s.push_str(" · ");
            push_dec(&mut s, v.samples as u128);
            s.push_str(" samples");
            s
        },
        None => {
            let mut s: String = dec_text(bars as u128);
            s.push_str("/");
            push_dec(&mut s, MAX_HISTORY_BARS as u128);
            s.push_str(" bars · double-click a chart");
            s
        },
    }
}

// ---- reports and logs

/// What is told of the reports that can be saved.
pub fn capture_summary(records: usize, decoders: usize) -> (s: String)
    ensures
        s@ == text::dec(records as nat) + " record(s), "@ + text::dec(decoders as nat)
            + " decoder(s)"@,
{
    let mut s: String = dec_text(records as u128);
    s.push_str(" record(s), ");
    push_dec(&mut s, decoders as u128);
    s.push_str(" decoder(s)");
    s
}

/// How many lines of text are shown.
pub const LINES_SHOWN: usize = 240;

/// The newest lines of a text.
pub fn newest_lines(lines: &VecDeque<String>) -> (r: Vec<String>)
    ensures
        text::texts(r@) == (if lines@.len() > LINES_SHOWN {
            text::texts(lines@).skip(lines@.len() - LINES_SHOWN)
        } else {
            text::texts(lines@)
        }),
{
    let n: usize = lines.len();
    let from: usize = if n > LINES_SHOWN {
        n - LINES_SHOWN
    } else {
        0
    };
    let ghost all = text::texts(lines@);
    let mut r: Vec<String> = Vec::new();
    let mut i: usize = from;
    assert(text::texts(r@) =~= all.subrange(from as int, from as int));
    while i < n
        invariant
            from <= i <= n,
            n == lines@.len(),
            all == text::texts(lines@),
            text::texts(r@) == all.subrange(from as int, i as int),
        decreases n - i,
    {
        let ghost before = text::texts(r@);
        assert(all[i as int] == lines@[i as int]@);
        r.push(lines[i].clone());
        assert(text::texts(r@) =~= before.push(all[i as int]));
        assert(text::texts(r@) =~= all.subrange(from as int, i + 1));
        i += 1;
    }
    assert(all.subrange(0, n as int) =~= all);
    assert(all.subrange(from as int, n as int) =~= all.skip(from as int));
    r
}

/// The parts of the status bar.
pub fn status_bar(samples: usize, h: &ReportHealth, registers: usize, mode: &str) -> (parts: Vec<String>)
    ensures
        text::texts(parts@) == seq![
            "samples "@ + text::dec(samples as nat),
            "reports "@ + text::dec(h.total_reports as nat),
            "dropped "@ + text::dec(h.dropped_frames as nat),
            "regs "@ + text::dec(registers as nat),
            "mode "@ + mode@,
        ],
{
    let parts: Vec<String> = vec![
        two("samples ", dec_text(samples as u128).as_str()),
        two("reports ", dec_text(h.total_reports as u128).as_str()),
        two("dropped ", dec_text(h.dropped_frames as u128).as_str()),
        two("regs ", dec_text(registers as u128).as_str()),
        two("mode ", mode),
    ];
    assert(text::texts(parts@) =~= seq![
        "samples "@ + text::dec(samples as nat),
        "reports "@ + text::dec(h.total_reports as nat),
        "dropped "@ + text::dec(h.dropped_frames as nat),
        "regs "@ + text::dec(registers as nat),
        "mode "@ + mode@,
    ]);
    parts
}

} // verus!
