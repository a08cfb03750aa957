//! What values stand for: each quantity is that of its name.

use vstd::prelude::*;

use crate::capture;
use crate::capture::ReportCaptureRecord;
use crate::catalog;
use crate::catalog::{FieldInfo, RegView, Register, RegisterInfo};
use crate::decoder::{I16LeReportDecoder, ReportDecoder};
use crate::dump;
use crate::history::HistoryBar;
use crate::order;
use crate::page;
use crate::panel;
use crate::panel::RegisterPanel;
use crate::processor::ReportSummary;
use crate::regview;
use crate::report;
use crate::report::ReportArg;
use crate::samples;
use crate::samples::MotionSample;
use crate::semantic;
use crate::semantic::{LanguageFacts, Part};
use crate::shown;
use crate::shown::{RegisterRow, SequenceRow};
use crate::text;
use crate::visual::{SequenceView, VisualSequenceBlueprint, VisualStepBlueprint};
use crate::watch;
use crate::watch_lines;
use crate::wire;
use crate::wire::ArgView;
use crate::workbench::Workbench;

verus! {

/// A register stands for what it says of itself, and one of a page for that on the page.
pub proof fn law_register_view(r: RegisterInfo, on: Register, page: Seq<char>, i: int)
    ensures
        ({
            let v = r.view();
            let w = on.on_page(page);
            &&& v.page == r.page@ && v.name == r.name@ && v.addr == r.addr && v.access == r.access@
            &&& v.width == r.width && v.desc == r.desc@
            &&& v.no_dump == r.no_dump && v.no_dump_reason == r.no_dump_reason@
            &&& v.fields.len() == r.fields@.len()
            &&& 0 <= i < r.fields@.len() ==> v.fields[i] == r.fields@[i].view()
            &&& w.page == page && w.name == on.name@ && w.addr == on.addr && w.access == on.access@
            &&& w.width == on.width && w.desc == on.desc@
            &&& w.no_dump == on.no_dump && w.no_dump_reason == on.no_dump_reason@
            &&& w.fields.len() == on.fields@.len()
            &&& 0 <= i < on.fields@.len() ==> w.fields[i] == on.fields@[i].view()
        }),
{
}

/// A field stands for its name, its bits, its description and its event.
pub proof fn law_field_view(f: FieldInfo)
    ensures
        f.view().name == f.name@,
        f.view().bit_hi == f.bit_hi,
        f.view().bit_lo == f.bit_lo,
        f.view().desc == f.desc@,
        f.event is None ==> f.view().event is None,
        f.event matches Some(e) ==> f.view().event == Some(e@),
{
}

/// A decoder stands for its label, its fields by what they measure, its scales and its output.
pub proof fn law_decoder_view(d: I16LeReportDecoder)
    ensures
        ({
            let v = d.view();
            &&& v.label == d.label@
            &&& v.fields == text::texts(d.fields@)
            &&& v.accel_fields == text::texts(d.accel_fields@)
            &&& v.gyro_fields == text::texts(d.gyro_fields@)
            &&& d.temp_field is None ==> v.temp_field is None
            &&& d.temp_field matches Some(t) ==> v.temp_field == Some(t@)
            &&& v.accel_fs_g == d.accel_fs_g && v.gyro_fs_dps == d.gyro_fs_dps
            &&& v.temp_lsb_per_c == d.temp_lsb_per_c && v.temp_offset_c == d.temp_offset_c
            &&& v.output == d.output
        }),
{
}

/// Texts and arguments stand for what they hold, in their order.
pub proof fn law_list_views(v: Seq<String>, args: Seq<ReportArg>, records: Seq<ReportCaptureRecord>, i: int)
    ensures
        text::texts(v).len() == v.len(),
        0 <= i < v.len() ==> text::texts(v)[i] == v[i]@,
        report::arg_views(args).len() == args.len(),
        0 <= i < args.len() ==> (args[i] matches ReportArg::U32(n) ==> report::arg_views(args)[i]
            == ArgView::U32(n)),
        0 <= i < args.len() ==> (args[i] matches ReportArg::Bytes(b) ==> report::arg_views(args)[i]
            == ArgView::Bytes(b@)),
        capture::records_view(records).len() == records.len(),
        0 <= i < records.len() ==> {
            let r = capture::records_view(records)[i];
            r.meta == records[i].meta && r.kind == records[i].kind && r.args == report::arg_views(
                records[i].args@,
            )
        },
{
}

/// A sample stands for its time, its axes by sensor and its temperature.
pub proof fn law_motion_view(m: MotionSample)
    ensures
        m.view().timestamp_us == m.timestamp_us,
        m.view().acc == m.acc@,
        m.view().gyro == m.gyro@,
        m.view().temp == m.temp,
{
}

/// A bar stands for its ranges and its samples by sensor.
pub proof fn law_bar_view(b: HistoryBar, i: int)
    ensures
        b.view().acc == b.acc@,
        b.view().gyro == b.gyro@,
        b.view().acc_samples.len() == b.acc_samples@.len(),
        b.view().gyro_samples.len() == b.gyro_samples@.len(),
        0 <= i < b.acc_samples@.len() ==> b.view().acc_samples[i] == b.acc_samples@[i]@,
        0 <= i < b.gyro_samples@.len() ==> b.view().gyro_samples[i] == b.gyro_samples@[i]@,
{
}

/// A summary stands for what it tells of its report.
pub proof fn law_summary_view(s: ReportSummary)
    ensures
        ({
            let v = s.view();
            &&& v.meta == s.meta && v.kind == s.kind && v.args == report::arg_views(s.args@)
            &&& v.label == s.label@ && v.line == s.line@ && v.fifo_len == s.fifo_len
            &&& s.data_len is None ==> v.data_len is None
            &&& s.data_len matches Some(n) ==> v.data_len == Some(n as nat)
            &&& v.sample_count == s.sample_count && v.trailing_bytes == s.trailing_bytes
            &&& v.health == s.health
        }),
{
}

/// A step and a sequence stand for what was typed.
pub proof fn law_block_views(t: VisualStepBlueprint, s: VisualSequenceBlueprint, i: int)
    ensures
        ({
            let v = t.view();
            &&& v.kind == t.kind && v.address == t.address@ && v.read_len == t.read_len@
            &&& v.data == t.data@ && v.delay_us == t.delay_us@
        }),
        s.view().name == s.name@,
        s.view().steps.len() == s.steps@.len(),
        0 <= i < s.steps@.len() ==> s.view().steps[i] == s.steps@[i].view(),
{
}

/// What a workbench has seen is what it keeps of each thing.
pub proof fn law_workbench_view(w: Workbench, i: int)
    ensures
        ({
            let v = w.stream();
            &&& v.connected == w.connected && v.label == w.connection_label@ && v.mode
                == w.session_mode@
            &&& v.logs == text::texts(w.logs@) && v.reports == text::texts(w.reports@)
            &&& v.capture == capture::records_view(w.capture_records@)
            &&& v.samples.len() == w.samples@.len()
            &&& 0 <= i < w.samples@.len() ==> v.samples[i] == w.samples@[i].view()
            &&& v.skip_count == w.sample_skip_count && v.skip_remaining == w.sample_skip_remaining
            &&& v.history == w.history.view() && v.health == w.health
        }),
{
}

/// What is known of a chip: its pages and events by name, and each register and field by its own
/// name and by its full one.
pub proof fn law_known_names(f: LanguageFacts, i: int)
    ensures
        ({
            let s = semantic::symbols_of(f);
            &&& s.pages == text::texts(f.pages@) && s.events == text::texts(f.events@)
            &&& s.registers.len() == 2 * f.registers@.len()
            &&& 0 <= i < f.registers@.len() ==> s.registers[2 * i] == f.registers@[i].1@
                && s.registers[2 * i + 1] == f.registers@[i].0@ + "."@ + f.registers@[i].1@
            &&& s.fields.len() == 2 * f.fields@.len()
            &&& 0 <= i < f.fields@.len() ==> s.fields[2 * i] == f.fields@[i].2@ && s.fields[2 * i
                + 1] == f.fields@[i].0@ + "."@ + f.fields@[i].1@ + "."@ + f.fields@[i].2@
        }),
{
    lemma_register_names(f.registers@, i);
    lemma_field_names(f.fields@, i);
}

proof fn lemma_register_names(list: Seq<(String, String)>, i: int)
    ensures
        semantic::register_names(list).len() == 2 * list.len(),
        0 <= i < list.len() ==> semantic::register_names(list)[2 * i] == list[i].1@
            && semantic::register_names(list)[2 * i + 1] == list[i].0@ + "."@ + list[i].1@,
    decreases list.len(),
{
    if list.len() > 0 {
        lemma_register_names(list.drop_last(), i);
    }
}

proof fn lemma_field_names(list: Seq<(String, String, String)>, i: int)
    ensures
        semantic::field_names(list).len() == 2 * list.len(),
        0 <= i < list.len() ==> semantic::field_names(list)[2 * i] == list[i].2@
            && semantic::field_names(list)[2 * i + 1] == list[i].0@ + "."@ + list[i].1@ + "."@
            + list[i].2@,
    decreases list.len(),
{
    if list.len() > 0 {
        lemma_field_names(list.drop_last(), i);
    }
}

// ---- what predicates say

/// A list of counts by kind tells each kind that was counted once, with its count, and no other.
pub proof fn law_listed_counts(list: Seq<(u32, u64)>, kinds: Map<u32, u64>, k: u32)
    requires
        watch::lists_counts(list, kinds),
    ensures
        kinds.dom().contains(k) <==> exists|i: int| 0 <= i < list.len() && (#[trigger] list[i]).0 == k,
        forall|i: int| 0 <= i < list.len() ==> kinds[(#[trigger] list[i]).0] == list[i].1,
        forall|i: int, j: int| 0 <= i < j < list.len() ==> list[i].0 != list[j].0,
{
}

/// A list of decoders tells each kind that has one once, with its decoder, and no other.
pub proof fn law_listed_decoders(
    list: Seq<(u32, &ReportDecoder)>,
    m: Map<u32, ReportDecoder>,
    k: u32,
)
    requires
        samples::lists(list, m),
    ensures
        m.dom().contains(k) <==> exists|i: int| 0 <= i < list.len() && (#[trigger] list[i]).0 == k,
        forall|i: int| 0 <= i < list.len() ==> m[(#[trigger] list[i]).0] == *list[i].1,
        forall|i: int, j: int| 0 <= i < j < list.len() ==> list[i].0 != list[j].0,
{
}

/// A list of kinds holds each kind that was counted once.
pub proof fn law_listed_kinds(listed: Seq<u32>, kinds: Map<u32, u64>, k: u32)
    requires
        watch_lines::lists_kinds(listed, kinds),
    ensures
        listed.contains(k) <==> kinds.dom().contains(k),
        forall|i: int, j: int| 0 <= i < j < listed.len() ==> listed[i] != listed[j],
{
    assert(listed.to_set().contains(k) <==> listed.contains(k));
}

/// Texts and registers are in order where none stands before a smaller one.
pub proof fn law_in_order(texts: Seq<Seq<char>>, regs: Seq<RegView>, i: int, j: int)
    ensures
        order::in_order(texts) && 0 <= i < j < texts.len() ==> order::text_le(texts[i], texts[j]),
        page::regs_in_order(regs) && 0 <= i < j < regs.len() ==> page::reg_le(regs[i], regs[j]),
{
}

/// A list of addresses goes upwards and holds exactly those of the set.
pub proof fn law_listed_addresses(list: Seq<u32>, set: Set<u32>, a: u32)
    requires
        dump::lists(list, set),
    ensures
        list.contains(a) <==> set.contains(a),
        forall|i: int, j: int| 0 <= i < j < list.len() ==> list[i] < list[j],
{
    assert(list.to_set().contains(a) <==> list.contains(a));
}

/// Parts that are apart follow one another without touching what is before them, within their bounds.
pub proof fn law_parts_follow(parts: Seq<Part>, from: int, to: int, i: int, j: int)
    requires
        semantic::apart(parts, from, to),
        0 <= i < j < parts.len(),
    ensures
        from <= parts[i].start < parts[i].end <= parts[j].start < parts[j].end <= to,
{
}

/// The largest address of a set is in it, and none is larger; an empty set has none.
pub proof fn law_largest(m: Option<u32>, set: Set<u32>, a: u32)
    requires
        catalog::is_largest(m, set),
    ensures
        m is None <==> !exists|b: u32| set.contains(b),
        m matches Some(n) ==> set.contains(n) && (set.contains(a) ==> a <= n),
{
}

/// The row of a register shows that register and what is known of it, field by field.
pub proof fn law_register_row(row: RegisterRow, p: RegisterPanel, reg: RegView, i: int)
    requires
        shown::register_row_shows(row, p, reg),
    ensures
        ({
            let width = if reg.width == 0 {
                1nat
            } else {
                reg.width as nat
            };
            let bytes = panel::bytes_at(p.values(), reg.addr, width);
            &&& row.page@ == reg.page && row.name@ == reg.name && row.access@ == reg.access
            &&& row.width@ == text::dec(width) + "B"@
            &&& row.addr@ == "0x"@ + text::hex(reg.addr as nat, 2)
            &&& row.value@ == regview::value_text(bytes, width, reg.no_dump)
            &&& row.muted <==> bytes.len() == 0 || reg.no_dump
            &&& row.selected <==> p.selected == reg.addr
            &&& row.edited <==> p.inline_write == Some(reg.addr)
            &&& row.fields@.len() == reg.fields.len()
            &&& 0 <= i < reg.fields.len() ==> {
                let (cell, f) = (row.fields@[i], reg.fields[i]);
                &&& cell.bits@ == regview::bits_text(f)
                &&& cell.value@ == regview::field_text(f, bytes)
                &&& cell.active == regview::field_active(f, bytes)
                &&& cell.name@ == f.name && cell.desc@ == f.desc
            }
        }),
{
    if 0 <= i < reg.fields.len() {
        assert(shown::cell_shows(
            row.fields@[i],
            reg.fields[i],
            panel::bytes_at(
                p.values(),
                reg.addr,
                if reg.width == 0 {
                    1nat
                } else {
                    reg.width as nat
                },
            ),
        ));
    }
}

/// The row of a sequence shows its name, how many steps it has, and whether it is the one shown.
pub proof fn law_sequence_row(row: SequenceRow, s: SequenceView, selected: bool)
    requires
        shown::row_shows(row, s, selected),
    ensures
        text::trimmed(s.name).len() > 0 ==> row.name@ == text::trimmed(s.name),
        row.steps@ == text::dec(s.steps.len()),
        row.selected == selected,
{
}

/// A load payload is complete where all the segments that it tells are there.
pub proof fn law_complete_load(p: Seq<u8>)
    ensures
        wire::load_complete(p) <==> p.len() >= 2 && wire::segs_of(p.skip(2), p[1] as nat).len()
            == p[1],
{
}

} // verus!
