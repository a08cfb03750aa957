//! Reports as rows of a table.
use crate::decoder::{I16LeReportDecoder, ReportDecoder, ReportOutputMode};
use crate::decoder::DecoderView;
use crate::report;
use crate::report::{
    first_report_bytes, first_report_u32, hex_bytes, report_kind_label, ReportArg, ReportKinds,
};
use crate::samples;
use crate::samples::{decode_i16_le_fifo_samples, I16LeFieldValue, I16LeFifoSample};
use crate::text;
use crate::text_laws;
use crate::text::{chars_of, dec_text, has_char, has_text, join, push_dec_int, same_text};
use crate::watch::ReportObserveInfo;
use crate::watch_lines;
use crate::watch_text;
use crate::watch_text::format_watch_args;
use crate::wire::ArgView;
use vstd::prelude::*;

verus! {

// ---- cells

/// Whether a cell has to stand between quotation marks.
pub open spec fn needs_quotes(s: Seq<char>) -> bool {
    s.contains(',') || s.contains('"') || s.contains('\n') || s.contains('\r')
}

/// A text with its quotation marks doubled.
pub open spec fn doubled(s: Seq<char>) -> Seq<char>
    decreases s.len(),
{
    if s.len() == 0 {
        Seq::empty()
    } else if s.last() == '"' {
        doubled(s.drop_last()).push('"').push('"')
    } else {
        doubled(s.drop_last()).push(s.last())
    }
}

/// A cell as it is written.
pub open spec fn escaped(s: Seq<char>) -> Seq<char> {
    if needs_quotes(s) {
        seq!['"'] + doubled(s) + seq!['"']
    } else {
        s
    }
}

/// A cell as it is written.
pub fn csv_escape(value: &str) -> (s: String)
    ensures
        s@ == escaped(value@),
{
    let c = chars_of(value);
    if !has_char(&c, ',') && !has_char(&c, '"') && !has_char(&c, '\n') && !has_char(&c, '\r') {
        return value.to_owned();
    }
    let mut s: String = String::new();
    s.push('"');
    let mut i: usize = 0;
    assert(s@ =~= seq!['"'] + doubled(c@.take(0)));
    while i < c.len()
        invariant
            i <= c.len(),
            s@ == seq!['"'] + doubled(c@.take(i as int)),
        decreases c.len() - i,
    {
        assert(c@.take(i + 1).drop_last() =~= c@.take(i as int));
        if c[i] == '"' {
            s.push('"');
        }
        s.push(c[i]);
        i += 1;
        assert(s@ =~= seq!['"'] + doubled(c@.take(i as int)));
    }
    assert(c@.take(c@.len() as int) =~= c@);
    s.push('"');
    assert(s@ =~= escaped(value@));
    s
}

/// A text with its doubled quotation marks read as one.
pub open spec fn undoubled(s: Seq<char>) -> Seq<char>
    decreases s.len(),
{
    if s.len() == 0 {
        Seq::empty()
    } else if s.last() == '"' && s.len() >= 2 && s[s.len() - 2] == '"' {
        undoubled(s.take(s.len() - 2)).push('"')
    } else {
        undoubled(s.drop_last()).push(s.last())
    }
}

/// What a cell that is written like `s` holds.
pub open spec fn cell_value(s: Seq<char>) -> Seq<char> {
    if s.len() >= 2 && s[0] == '"' {
        undoubled(s.subrange(1, s.len() - 1))
    } else {
        s
    }
}

proof fn lemma_undoubled(s: Seq<char>)
    ensures
        undoubled(doubled(s)) == s,
    decreases s.len(),
{
    if s.len() > 0 {
        lemma_undoubled(s.drop_last());
        let d = doubled(s.drop_last());
        if s.last() == '"' {
            let e = d.push('"').push('"');
            assert(e.take(e.len() - 2) =~= d);
        } else {
            assert(d.push(s.last()).drop_last() =~= d);
        }
        assert(undoubled(doubled(s)) =~= s);
    } else {
        assert(undoubled(doubled(s)) =~= s);
    }
}

/// A cell reads back from how it is written.
pub proof fn law_cell_round_trip(s: Seq<char>)
    ensures
        cell_value(escaped(s)) == s,
{
    if needs_quotes(s) {
        let e = escaped(s);
        assert(e.subrange(1, e.len() - 1) =~= doubled(s));
        lemma_undoubled(s);
    } else if s.len() >= 2 && s[0] == '"' {
        assert(s.contains(s[0]));
    }
}

// ---- rows

/// The columns.
pub fn csv_header() -> (s: &'static str)
    ensures
        s@ == text::joined(columns(), ","@),
        s@
            == "seq,kind,frame_id,timestamp_us,dt_us,fifo_len,data_len,sample_index,field,raw_i16,value,unit,data_hex,args"@,
{
    proof {
        lemma_header();
    }
    "seq,kind,frame_id,timestamp_us,dt_us,fifo_len,data_len,sample_index,field,raw_i16,value,unit,data_hex,args"
}

/// A number, or nothing.
pub open spec fn dec_opt(n: Option<nat>) -> Seq<char> {
    match n {
        Some(n) => text::dec(n),
        None => Seq::empty(),
    }
}

fn dec_or_empty(n: Option<u64>) -> (s: String)
    ensures
        s@ == dec_opt(watch_text::opt64(n)),
{
    match n {
        Some(n) => dec_text(n as u128),
        None => String::new(),
    }
}

/// What a row holds besides what is known of the report.
pub struct RowView {
    pub fifo_len: Option<u32>,
    pub data_len: nat,
    pub sample_index: Option<nat>,
    pub field: Seq<char>,
    pub raw_i16: Seq<char>,
    pub value: Seq<char>,
    pub unit: Seq<char>,
    pub data_hex: Seq<char>,
    pub args: Seq<char>,
}

/// The cells of a row.
pub open spec fn row_cells(label: Seq<char>, info: ReportObserveInfo, row: RowView) -> Seq<Seq<char>> {
    seq![
        text::dec(info.seq as nat),
        label,
        dec_opt(
            match info.meta {
                Some(m) => Some(m.frame_id as nat),
                None => None,
            },
        ),
        dec_opt(watch_text::opt64(samples::time_of(info.meta))),
        dec_opt(watch_text::opt64(info.dt_us)),
        dec_opt(watch_text::opt32(row.fifo_len)),
        text::dec(row.data_len),
        dec_opt(row.sample_index),
        row.field,
        row.raw_i16,
        row.value,
        row.unit,
        row.data_hex,
        row.args,
    ]
}

/// A row as it is written.
pub open spec fn row_text(label: Seq<char>, info: ReportObserveInfo, row: RowView) -> Seq<char> {
    text::joined(row_cells(label, info, row).map_values(|c: Seq<char>| escaped(c)), ","@)
}

fn escape_all(cells: &[String]) -> (v: Vec<String>)
    ensures
        text::texts(v@) == text::texts(cells@).map_values(|c: Seq<char>| escaped(c)),
{
    let mut v: Vec<String> = Vec::new();
    let mut i: usize = 0;
    while i < cells.len()
        invariant
            i <= cells.len(),
            v@.len() == i,
            forall|k: int| 0 <= k < i ==> (#[trigger] v@[k])@ == escaped(cells@[k]@),
        decreases cells.len() - i,
    {
        v.push(csv_escape(cells[i].as_str()));
        i += 1;
    }
    assert(text::texts(v@) =~= text::texts(cells@).map_values(|c: Seq<char>| escaped(c)));
    v
}

/// A row as it is written.
pub fn format_row(
    label: &str,
    info: &ReportObserveInfo,
    fifo_len: Option<u32>,
    data_len: usize,
    sample_index: Option<u64>,
    field: &str,
    raw_i16: &str,
    value: &str,
    unit: &str,
    data_hex: &str,
    args: &str,
) -> (s: String)
    ensures
        s@ == row_text(
            label@,
            *info,
            RowView {
                fifo_len,
                data_len: data_len as nat,
                sample_index: watch_text::opt64(sample_index),
                field: field@,
                raw_i16: raw_i16@,
                value: value@,
                unit: unit@,
                data_hex: data_hex@,
                args: args@,
            },
        ),
{
    let mut frame_id: Option<u64> = None;
    let mut time: Option<u64> = None;
    match info.meta {
        Some(m) => {
            frame_id = Some(m.frame_id as u64);
            if m.timestamp_valid() {
                time = Some(m.timestamp_us);
            }
        },
        None => {},
    }
    let len: Option<u64> = match fifo_len {
        Some(n) => Some(n as u64),
        None => None,
    };
    let cells: Vec<String> = vec![
        dec_text(info.seq as u128),
        label.to_owned(),
        dec_or_empty(frame_id),
        dec_or_empty(time),
        dec_or_empty(info.dt_us),
        dec_or_empty(len),
        dec_text(data_len as u128),
        dec_or_empty(sample_index),
        field.to_owned(),
        raw_i16.to_owned(),
        value.to_owned(),
        unit.to_owned(),
        data_hex.to_owned(),
        args.to_owned(),
    ];
    let ghost row = RowView {
        fifo_len,
        data_len: data_len as nat,
        sample_index: watch_text::opt64(sample_index),
        field: field@,
        raw_i16: raw_i16@,
        value: value@,
        unit: unit@,
        data_hex: data_hex@,
        args: args@,
    };
    assert(text::texts(cells@) =~= row_cells(label@, *info, row));
    join(&escape_all(&cells), ",")
}

// ---- values

/// The unit in which the values of a field are given.
pub open spec fn unit_of(field: Seq<char>, d: DecoderView) -> Seq<char> {
    if d.output != ReportOutputMode::PhysicalF32 {
        "count"@
    } else if d.gyro_fields.contains(field) {
        "rad/s"@
    } else if d.accel_fields.contains(field) {
        "m/s^2"@
    } else if d.temp_field == Some(field) {
        "C"@
    } else {
        "count"@
    }
}

/// How the values of a field are scaled.
#[derive(Debug, Clone, Copy, PartialEq, Eq, Structural)]
pub enum ScaleKind {
    Gyro,
    Accel,
    Temp,
    Count,
}

/// How the values of a field are scaled.
pub open spec fn scale_kind_of(field: Seq<char>, d: DecoderView) -> ScaleKind {
    if d.output != ReportOutputMode::PhysicalF32 {
        ScaleKind::Count
    } else if d.gyro_fields.contains(field) {
        ScaleKind::Gyro
    } else if d.accel_fields.contains(field) {
        ScaleKind::Accel
    } else if d.temp_field == Some(field) {
        ScaleKind::Temp
    } else {
        ScaleKind::Count
    }
}

/// How the values of a field are scaled.
pub fn field_scale(field: &str, decoder: &I16LeReportDecoder) -> (k: ScaleKind)
    ensures
        k == scale_kind_of(field@, decoder.view()),
{
    match decoder.output {
        ReportOutputMode::RawI16 => ScaleKind::Count,
        ReportOutputMode::PhysicalF32 => {
            if has_text(&decoder.gyro_fields, field) {
                ScaleKind::Gyro
            } else if has_text(&decoder.accel_fields, field) {
                ScaleKind::Accel
            } else {
                match &decoder.temp_field {
                    Some(t) => if same_text(t.as_str(), field) {
                        ScaleKind::Temp
                    } else {
                        ScaleKind::Count
                    },
                    None => ScaleKind::Count,
                }
            }
        },
    }
}

/// The unit in which the values of a field are given.
pub fn field_unit(field: &str, decoder: &I16LeReportDecoder) -> (u: &'static str)
    ensures
        u@ == unit_of(field@, decoder.view()),
{
    match field_scale(field, decoder) {
        ScaleKind::Gyro => "rad/s",
        ScaleKind::Accel => "m/s^2",
        ScaleKind::Temp => "C",
        ScaleKind::Count => "count",
    }
}

/// A value as it is written: a count with nine zeros behind the point, else as given.
pub open spec fn value_cell(
    value: i16,
    field: Seq<char>,
    d: DecoderView,
    shown: Seq<char>,
) -> Seq<char> {
    if scale_kind_of(field, d) == ScaleKind::Count {
        text::dec_int(value as int) + ".000000000"@
    } else {
        shown
    }
}

/// What is common to the rows of a report.
pub struct ReportRow {
    pub label: Seq<char>,
    pub info: ReportObserveInfo,
    pub fifo_len: Option<u32>,
    pub data_len: nat,
}

/// The row of one value of a sample.
pub open spec fn value_row(
    r: ReportRow,
    index: nat,
    v: I16LeFieldValue,
    d: DecoderView,
    shown: Seq<char>,
) -> Seq<char> {
    let field = d.fields[v.field_index as int];
    row_text(
        r.label,
        r.info,
        RowView {
            fifo_len: r.fifo_len,
            data_len: r.data_len,
            sample_index: Some(index),
            field,
            raw_i16: text::dec_int(v.value as int),
            value: value_cell(v.value, field, d, shown),
            unit: unit_of(field, d),
            data_hex: Seq::empty(),
            args: Seq::empty(),
        },
    )
}

/// The rows of the first `n` samples.
pub open spec fn sample_rows(
    r: ReportRow,
    all: Seq<Seq<I16LeFieldValue>>,
    n: nat,
    d: DecoderView,
    shown: Seq<Vec<String>>,
) -> Seq<Seq<char>>
    decreases n,
{
    if n == 0 {
        Seq::empty()
    } else {
        let k = (n - 1) as nat;
        sample_rows(r, all, k, d, shown) + Seq::new(
            all[k as int].len(),
            |i: int| value_row(r, k, all[k as int][i], d, shown[k as int]@[i]@),
        )
    }
}

/// The one row of a report whose samples are not given.
pub open spec fn plain_row(r: ReportRow, args: Seq<ArgView>) -> Seq<char> {
    row_text(
        r.label,
        r.info,
        RowView {
            fifo_len: r.fifo_len,
            data_len: r.data_len,
            sample_index: None,
            field: Seq::empty(),
            raw_i16: Seq::empty(),
            value: Seq::empty(),
            unit: Seq::empty(),
            data_hex: match report::first_bytes(args) {
                Some(b) => report::hex_text(b),
                None => Seq::empty(),
            },
            args: watch_text::watch_args(args),
        },
    )
}

/// The rows of a report: one for each value of each sample where there are some, else one.
pub open spec fn report_rows(
    fifo: bool,
    label: Seq<char>,
    info: ReportObserveInfo,
    args: Seq<ArgView>,
    decoder: Option<DecoderView>,
    shown: Seq<Vec<String>>,
) -> Seq<Seq<char>> {
    let bytes = report::first_bytes(args);
    let r = ReportRow {
        label,
        info,
        fifo_len: report::first_u32(args),
        data_len: match bytes {
            Some(b) => b.len(),
            None => 0,
        },
    };
    if fifo && bytes is Some && decoder is Some && watch_lines::samples_in(
        bytes->Some_0,
        decoder->Some_0,
    ).len() > 0 {
        let all = watch_lines::samples_in(bytes->Some_0, decoder->Some_0);
        sample_rows(r, all, all.len(), decoder->Some_0, shown)
    } else {
        seq![plain_row(r, args)]
    }
}

/// Whether there is a text for every value of every sample.
pub open spec fn values_shown(all: Seq<Seq<I16LeFieldValue>>, shown: Seq<Vec<String>>) -> bool {
    shown.len() >= all.len() && forall|k: int|
        0 <= k < all.len() ==> (#[trigger] shown[k])@.len() >= all[k].len()
}

fn push_sample_rows(
    rows: &mut Vec<String>,
    label: &str,
    info: &ReportObserveInfo,
    fifo_len: Option<u32>,
    data_len: usize,
    index: usize,
    sample: &I16LeFifoSample,
    decoder: &I16LeReportDecoder,
    shown: &Vec<String>,
)
    requires
        samples::indexed(sample.values@, decoder.view().fields.len()),
        shown@.len() >= sample.values@.len(),
    ensures
        text::texts(final(rows)@) == text::texts(old(rows)@) + Seq::new(
            sample.values@.len(),
            |i: int|
                value_row(
                    ReportRow { label: label@, info: *info, fifo_len, data_len: data_len as nat },
                    index as nat,
                    sample.values@[i],
                    decoder.view(),
                    shown@[i]@,
                ),
        ),
{
    let ghost r = ReportRow { label: label@, info: *info, fifo_len, data_len: data_len as nat };
    let ghost d = decoder.view();
    let ghost start = text::texts(rows@);
    let ghost add = Seq::new(
        sample.values@.len(),
        |i: int| value_row(r, index as nat, sample.values@[i], d, shown@[i]@),
    );
    let mut i: usize = 0;
    assert(start + add.take(0) =~= start);
    while i < sample.values.len()
        invariant
            i <= sample.values.len(),
            d == decoder.view(),
            samples::indexed(sample.values@, d.fields.len()),
            shown@.len() >= sample.values@.len(),
            r == (ReportRow { label: label@, info: *info, fifo_len, data_len: data_len as nat }),
            add == Seq::new(
                sample.values@.len(),
                |i: int| value_row(r, index as nat, sample.values@[i], d, shown@[i]@),
            ),
            text::texts(rows@) == start + add.take(i as int),
        decreases sample.values.len() - i,
    {
        let value = sample.values[i];
        assert(sample.values@[i as int].field_index < d.fields.len());
        let field = &decoder.fields[value.field_index];
        assert(d.fields[value.field_index as int] == field@);
        let mut raw: String = String::new();
        push_dec_int(&mut raw, value.value as i64);
        assert(raw@ =~= text::dec_int(value.value as int));
        let scale = field_scale(field.as_str(), decoder);
        let cell: String = match scale {
            ScaleKind::Count => {
                let mut c: String = raw.clone();
                c.push_str(".000000000");
                c
            },
            _ => shown[i].clone(),
        };
        let row = format_row(
            label,
            info,
            fifo_len,
            data_len,
            Some(index as u64),
            field.as_str(),
            raw.as_str(),
            cell.as_str(),
            field_unit(field.as_str(), decoder),
            "",
            "",
        );
        proof {
            reveal_strlit("");
            assert(""@ =~= Seq::<char>::empty());
        }
        let ghost before = text::texts(rows@);
        rows.push(row);
        i += 1;
        proof {
            assert(text::texts(rows@) =~= before.push(row@));
            assert(row@ == add[i - 1]);
            assert(add.take(i as int) =~= add.take(i - 1).push(add[i - 1]));
            assert(start + add.take(i as int) =~= before.push(row@));
        }
    }
    assert(add.take(add.len() as int) =~= add);
}

/// The rows of a report.
pub fn format_report_rows(
    kinds: &ReportKinds,
    info: &ReportObserveInfo,
    kind: u32,
    args: &[ReportArg],
    decoder: Option<&ReportDecoder>,
    shown: &[Vec<String>],
) -> (rows: Vec<String>)
    requires
        kind == kinds.fifo_raw && report::first_bytes(report::arg_views(args@)) is Some
            && decoder is Some ==> values_shown(
            watch_lines::samples_in(
                report::first_bytes(report::arg_views(args@))->Some_0,
                decoder->Some_0.view(),
            ),
            shown@,
        ),
    ensures
        text::texts(rows@) == report_rows(
            kind == kinds.fifo_raw,
            report::kind_label(kinds.names@, kind),
            *info,
            report::arg_views(args@),
            watch_lines::decoder_view(decoder),
            shown@,
        ),
{
    let label = report_kind_label(kinds, kind);
    let fifo_len: Option<u32> = first_report_u32(args);
    let ghost view = report::arg_views(args@);
    let mut rows: Vec<String> = Vec::new();
    let mut data_len: usize = 0;
    let mut data_hex: String = String::new();
    match first_report_bytes(args) {
        Some(bytes) => {
            data_len = bytes.len();
            if kind == kinds.fifo_raw {
                match decoder {
                    Some(ReportDecoder::I16Le(d)) => {
                        let decoded = decode_i16_le_fifo_samples(bytes, d);
                        let ghost all = samples::sample_views(decoded.samples@);
                        let ghost r = ReportRow {
                            label: label@,
                            info: *info,
                            fifo_len,
                            data_len: data_len as nat,
                        };
                        assert(text::texts(rows@) =~= sample_rows(r, all, 0, d.view(), shown@));
                        let mut k: usize = 0;
                        while k < decoded.samples.len()
                            invariant
                                k <= decoded.samples.len(),
                                all == samples::sample_views(decoded.samples@),
                                values_shown(all, shown@),
                                r == (ReportRow {
                                    label: label@,
                                    info: *info,
                                    fifo_len,
                                    data_len: data_len as nat,
                                }),
                                forall|i: int|
                                    0 <= i < decoded.samples.len() ==> samples::indexed(
                                        (#[trigger] decoded.samples@[i]).values@,
                                        d.view().fields.len(),
                                    ),
                                text::texts(rows@) == sample_rows(
                                    r,
                                    all,
                                    k as nat,
                                    d.view(),
                                    shown@,
                                ),
                            decreases decoded.samples.len() - k,
                        {
                            assert(all[k as int] == decoded.samples@[k as int].values@);
                            assert(shown@[k as int]@.len() >= all[k as int].len());
                            push_sample_rows(
                                &mut rows,
                                label.as_str(),
                                info,
                                fifo_len,
                                data_len,
                                k,
                                &decoded.samples[k],
                                d,
                                &shown[k],
                            );
                            k += 1;
                        }
                        assert(all.len() == decoded.samples@.len());
                        if decoded.samples.len() > 0 {
                            return rows;
                        }
                    },
                    None => {},
                }
            }
            data_hex = hex_bytes(bytes);
        },
        None => {},
    }
    let row = format_row(
        label.as_str(),
        info,
        fifo_len,
        data_len,
        None,
        "",
        "",
        "",
        "",
        data_hex.as_str(),
        format_watch_args(args).as_str(),
    );
    proof {
        reveal_strlit("");
        assert(""@ =~= Seq::<char>::empty());
    }
    let mut one: Vec<String> = Vec::new();
    one.push(row);
    assert(text::texts(one@) =~= seq![row@]);
    one
}

// ---- laws

/// What was read of a row so far: the cells that are complete, how the next one is written, and
/// whether it is between quotation marks.
pub struct Reading {
    pub done: Seq<Seq<char>>,
    pub cell: Seq<char>,
    pub quoted: bool,
}

/// What was read of a row with one more character. A comma outside quotation marks ends a cell.
pub open spec fn read_char(r: Reading, c: char) -> Reading {
    if c == ',' && !r.quoted {
        Reading { done: r.done.push(cell_value(r.cell)), cell: Seq::empty(), quoted: false }
    } else {
        Reading {
            done: r.done,
            cell: r.cell.push(c),
            quoted: if c == '"' {
                !r.quoted
            } else {
                r.quoted
            },
        }
    }
}

/// What was read of a row with more characters.
pub open spec fn read_chars(r: Reading, s: Seq<char>) -> Reading
    decreases s.len(),
{
    if s.len() == 0 {
        r
    } else {
        read_char(read_chars(r, s.drop_last()), s.last())
    }
}

/// The cells that a reader of the table finds in a row.
pub open spec fn cells_read(s: Seq<char>) -> Seq<Seq<char>> {
    let r = read_chars(Reading { done: Seq::empty(), cell: Seq::empty(), quoted: false }, s);
    r.done.push(cell_value(r.cell))
}

proof fn lemma_read_on(r: Reading, a: Seq<char>, b: Seq<char>)
    ensures
        read_chars(r, a + b) == read_chars(read_chars(r, a), b),
    decreases b.len(),
{
    if b.len() == 0 {
        assert(a + b =~= a);
    } else {
        assert((a + b).drop_last() =~= a + b.drop_last());
        lemma_read_on(r, a, b.drop_last());
    }
}

proof fn lemma_read_doubled(done: Seq<Seq<char>>, s: Seq<char>)
    ensures
        read_chars(Reading { done, cell: seq!['"'], quoted: true }, doubled(s)) == (Reading {
            done,
            cell: seq!['"'] + doubled(s),
            quoted: true,
        }),
    decreases s.len(),
{
    let start = Reading { done, cell: seq!['"'], quoted: true };
    if s.len() == 0 {
        assert(seq!['"'] + doubled(s) =~= seq!['"']);
    } else {
        let d = doubled(s.drop_last());
        lemma_read_doubled(done, s.drop_last());
        if s.last() == '"' {
            let one = d.push('"');
            let two = one.push('"');
            assert(two.drop_last() =~= one);
            assert(one.drop_last() =~= d);
            assert(read_chars(start, one) == read_char(read_chars(start, d), '"'));
            assert((seq!['"'] + d).push('"').push('"') =~= seq!['"'] + two);
        } else {
            let one = d.push(s.last());
            assert(one.drop_last() =~= d);
            assert((seq!['"'] + d).push(s.last()) =~= seq!['"'] + one);
        }
    }
}

proof fn lemma_read_plain(done: Seq<Seq<char>>, s: Seq<char>)
    requires
        !s.contains(','),
        !s.contains('"'),
    ensures
        read_chars(Reading { done, cell: Seq::empty(), quoted: false }, s) == (Reading {
            done,
            cell: s,
            quoted: false,
        }),
    decreases s.len(),
{
    if s.len() == 0 {
        assert(s =~= Seq::<char>::empty());
    } else {
        let less = s.drop_last();
        assert(forall|i: int| 0 <= i < less.len() ==> less[i] == s[i]);
        assert(!less.contains(',') && !less.contains('"')) by {
            if less.contains(',') {
                let i = choose|i: int| 0 <= i < less.len() && less[i] == ',';
                assert(s[i] == ',');
            }
            if less.contains('"') {
                let i = choose|i: int| 0 <= i < less.len() && less[i] == '"';
                assert(s[i] == '"');
            }
        }
        lemma_read_plain(done, less);
        assert(s.contains(s.last()));
        assert(less.push(s.last()) =~= s);
    }
}

proof fn lemma_read_cell(done: Seq<Seq<char>>, c: Seq<char>)
    ensures
        read_chars(Reading { done, cell: Seq::empty(), quoted: false }, escaped(c)) == (Reading {
            done,
            cell: escaped(c),
            quoted: false,
        }),
{
    let start = Reading { done, cell: Seq::empty(), quoted: false };
    if needs_quotes(c) {
        let open = seq!['"'];
        let d = doubled(c);
        assert(open.drop_last() =~= Seq::<char>::empty());
        assert(Seq::<char>::empty().push('"') =~= open);
        assert(read_chars(start, open.drop_last()) == start);
        assert(read_chars(start, open) == (Reading { done, cell: open, quoted: true }));
        lemma_read_on(start, open, d);
        lemma_read_doubled(done, c);
        let all = open + d + seq!['"'];
        assert(all.drop_last() =~= open + d);
        assert(all =~= (open + d).push('"'));
    } else {
        lemma_read_plain(done, c);
    }
}

proof fn lemma_read_cells(cells: Seq<Seq<char>>)
    requires
        cells.len() > 0,
    ensures
        ({
            let r = read_chars(
                Reading { done: Seq::empty(), cell: Seq::empty(), quoted: false },
                text::joined(cells.map_values(|c: Seq<char>| escaped(c)), ","@),
            );
            &&& r.done == cells.drop_last()
            &&& r.cell == escaped(cells.last())
            &&& !r.quoted
        }),
    decreases cells.len(),
{
    let start = Reading { done: Seq::empty(), cell: Seq::empty(), quoted: false };
    let all = cells.map_values(|c: Seq<char>| escaped(c));
    if cells.len() == 1 {
        lemma_read_cell(Seq::empty(), cells[0]);
        assert(cells.drop_last() =~= Seq::<Seq<char>>::empty());
    } else {
        let less = cells.drop_last();
        lemma_read_cells(less);
        assert(all.drop_last() =~= less.map_values(|c: Seq<char>| escaped(c)));
        reveal_strlit(",");
        let comma = ","@;
        assert(comma =~= seq![',']);
        let front = text::joined(all.drop_last(), comma);
        lemma_read_on(start, front, comma);
        lemma_read_on(start, front + comma, all.last());
        let r = read_chars(start, front);
        assert(comma.drop_last() =~= Seq::<char>::empty());
        assert(read_chars(r, comma.drop_last()) == r);
        law_cell_round_trip(less.last());
        assert(r.done.push(less.last()) =~= less);
        assert(read_chars(r, comma) == (Reading {
            done: less,
            cell: Seq::empty(),
            quoted: false,
        }));
        lemma_read_cell(less, cells.last());
    }
}

/// The names of the columns.
pub open spec fn columns() -> Seq<Seq<char>> {
    seq![
        "seq"@,
        "kind"@,
        "frame_id"@,
        "timestamp_us"@,
        "dt_us"@,
        "fifo_len"@,
        "data_len"@,
        "sample_index"@,
        "field"@,
        "raw_i16"@,
        "value"@,
        "unit"@,
        "data_hex"@,
        "args"@,
    ]
}

proof fn lemma_header()
    ensures
        text::joined(columns(), ","@)
            == "seq,kind,frame_id,timestamp_us,dt_us,fifo_len,data_len,sample_index,field,raw_i16,value,unit,data_hex,args"@,
{
    reveal_strlit(",");
    reveal_strlit("seq");
    reveal_strlit("kind");
    reveal_strlit("frame_id");
    reveal_strlit("timestamp_us");
    reveal_strlit("dt_us");
    reveal_strlit("fifo_len");
    reveal_strlit("data_len");
    reveal_strlit("sample_index");
    reveal_strlit("field");
    reveal_strlit("raw_i16");
    reveal_strlit("value");
    reveal_strlit("unit");
    reveal_strlit("data_hex");
    reveal_strlit("args");
    reveal_strlit(
        "seq,kind,frame_id,timestamp_us,dt_us,fifo_len,data_len,sample_index,field,raw_i16,value,unit,data_hex,args",
    );
    let c = columns();
    lemma_joined_step(c, 14);
    lemma_joined_step(c, 13);
    lemma_joined_step(c, 12);
    lemma_joined_step(c, 11);
    lemma_joined_step(c, 10);
    lemma_joined_step(c, 9);
    lemma_joined_step(c, 8);
    lemma_joined_step(c, 7);
    lemma_joined_step(c, 6);
    lemma_joined_step(c, 5);
    lemma_joined_step(c, 4);
    lemma_joined_step(c, 3);
    lemma_joined_step(c, 2);
    assert(c.take(14) =~= c);
    assert(text::joined(c.take(1), ","@) == c[0]);
    let all = text::joined(c, ","@);
    let header =
        "seq,kind,frame_id,timestamp_us,dt_us,fifo_len,data_len,sample_index,field,raw_i16,value,unit,data_hex,args"@;
    assert(all.len() == header.len());
    assert(all =~= header);
}

proof fn lemma_joined_step(c: Seq<Seq<char>>, n: int)
    requires
        2 <= n <= c.len(),
    ensures
        text::joined(c.take(n), ","@) == text::joined(c.take(n - 1), ","@) + ","@ + c[n - 1],
{
    assert(c.take(n).drop_last() =~= c.take(n - 1));
}

/// A reader of the table finds in a row one cell for each column, and under the name of a column
/// the quantity of that name: under `timestamp_us` the time of the report where its metadata gives a
/// valid one, under `dt_us` the time since the report before, and so on.
pub proof fn law_cells_stand_under_their_names(
    label: Seq<char>,
    info: ReportObserveInfo,
    row: RowView,
)
    ensures
        ({
            let cells = cells_read(row_text(label, info, row));
            let number = |n: Option<nat>|
                match n {
                    Some(n) => text::dec(n),
                    None => Seq::<char>::empty(),
                };
            &&& cells.len() == columns().len()
            &&& columns()[0] == "seq"@ && cells[0] == text::dec(info.seq as nat)
            &&& columns()[1] == "kind"@ && cells[1] == label
            &&& columns()[2] == "frame_id"@ && cells[2] == number(
                match info.meta {
                    Some(m) => Some(m.frame_id as nat),
                    None => None,
                },
            )
            &&& columns()[3] == "timestamp_us"@ && cells[3] == number(
                match info.meta {
                    Some(m) if m.flags % 2 == 1 => Some(m.timestamp_us as nat),
                    _ => None,
                },
            )
            &&& columns()[4] == "dt_us"@ && cells[4] == number(
                match info.dt_us {
                    Some(dt) => Some(dt as nat),
                    None => None,
                },
            )
            &&& columns()[5] == "fifo_len"@ && cells[5] == number(
                match row.fifo_len {
                    Some(n) => Some(n as nat),
                    None => None,
                },
            )
            &&& columns()[6] == "data_len"@ && cells[6] == text::dec(row.data_len)
            &&& columns()[7] == "sample_index"@ && cells[7] == number(row.sample_index)
            &&& columns()[8] == "field"@ && cells[8] == row.field
            &&& columns()[9] == "raw_i16"@ && cells[9] == row.raw_i16
            &&& columns()[10] == "value"@ && cells[10] == row.value
            &&& columns()[11] == "unit"@ && cells[11] == row.unit
            &&& columns()[12] == "data_hex"@ && cells[12] == row.data_hex
            &&& columns()[13] == "args"@ && cells[13] == row.args
        }),
{
    let cells = row_cells(label, info, row);
    lemma_read_cells(cells);
    law_cell_round_trip(cells.last());
    assert(cells.drop_last().push(cells.last()) =~= cells);
    assert(cells_read(row_text(label, info, row)) == cells);
}

proof fn lemma_rows_before(
    r: ReportRow,
    all: Seq<Seq<I16LeFieldValue>>,
    n: nat,
    m: nat,
    d: DecoderView,
    shown: Seq<Vec<String>>,
    k: int,
    i: int,
)
    requires
        0 <= k < n <= all.len(),
        0 <= i < m,
        forall|j: int| 0 <= j < n ==> (#[trigger] all[j]).len() == m,
    ensures
        sample_rows(r, all, n, d, shown).len() == n * m,
        0 <= k * m + i < n * m,
        sample_rows(r, all, n, d, shown)[k * m + i] == value_row(
            r,
            k as nat,
            all[k][i],
            d,
            shown[k]@[i]@,
        ),
    decreases n,
{
    let p = (n - 1) as nat;
    assert(n * m == p * m + m) by (nonlinear_arith)
        requires
            n == p + 1,
    ;
    assert(0 <= k * m + i < n * m) by (nonlinear_arith)
        requires
            0 <= k < n,
            0 <= i < m,
    ;
    if p > 0 {
        lemma_rows_before(r, all, p, m, d, shown, 0, 0);
    } else {
        assert(p * m == 0) by (nonlinear_arith)
            requires
                p == 0,
        ;
        assert(sample_rows(r, all, 0, d, shown).len() == 0);
    }
    assert(all[p as int].len() == m);
    if k < p {
        lemma_rows_before(r, all, p, m, d, shown, k, i);
    } else {
        assert(k * m == p * m);
    }
}

/// The rows of the samples of a report: a row for each value of each sample, in the order of the
/// samples and, in each, of its values. Row `k * m + i` of samples with `m` values tells value `i`
/// of sample `k`.
pub proof fn law_row_of_a_value(
    r: ReportRow,
    all: Seq<Seq<I16LeFieldValue>>,
    m: nat,
    d: DecoderView,
    shown: Seq<Vec<String>>,
    k: int,
    i: int,
)
    requires
        0 <= k < all.len(),
        0 <= i < m,
        forall|j: int| 0 <= j < all.len() ==> (#[trigger] all[j]).len() == m,
    ensures
        ({
            let rows = sample_rows(r, all, all.len(), d, shown);
            let cells = cells_read(rows[k * m + i]);
            let field = d.fields[all[k][i].field_index as int];
            let physical = d.output == ReportOutputMode::PhysicalF32;
            let gyro = physical && d.gyro_fields.contains(field);
            let accel = physical && !gyro && d.accel_fields.contains(field);
            let temp = physical && !gyro && !accel && d.temp_field == Some(field);
            &&& rows.len() == all.len() * m
            &&& cells.len() == 14
            &&& cells[0] == text::dec(r.info.seq as nat)
            &&& cells[1] == r.label
            &&& cells[6] == text::dec(r.data_len)
            &&& cells[7] == text::dec(k as nat)
            &&& cells[8] == field
            &&& cells[9] == text::dec_int(all[k][i].value as int)
            &&& (gyro || accel || temp) ==> cells[10] == shown[k]@[i]@
            &&& !(gyro || accel || temp) ==> cells[10] == text::dec_int(all[k][i].value as int)
                + ".000000000"@
            &&& gyro ==> cells[11] == "rad/s"@
            &&& accel ==> cells[11] == "m/s^2"@
            &&& temp ==> cells[11] == "C"@
            &&& !(gyro || accel || temp) ==> cells[11] == "count"@
            &&& cells[12] == Seq::<char>::empty()
            &&& cells[13] == Seq::<char>::empty()
        }),
{
    lemma_rows_before(r, all, all.len(), m, d, shown, k, i);
    let v = all[k][i];
    let field = d.fields[v.field_index as int];
    law_cells_stand_under_their_names(
        r.label,
        r.info,
        RowView {
            fifo_len: r.fifo_len,
            data_len: r.data_len,
            sample_index: Some(k as nat),
            field,
            raw_i16: text::dec_int(v.value as int),
            value: value_cell(v.value, field, d, shown[k]@[i]@),
            unit: unit_of(field, d),
            data_hex: Seq::empty(),
            args: Seq::empty(),
        },
    );
}

/// A report without samples is told in one row, with the bytes of its first byte argument and no
/// sample.
pub proof fn law_row_without_samples(
    fifo: bool,
    label: Seq<char>,
    info: ReportObserveInfo,
    args: Seq<ArgView>,
    decoder: Option<DecoderView>,
    shown: Seq<Vec<String>>,
)
    requires
        !fifo || decoder is None || forall|k: int| 0 <= k < args.len() ==> !(args[k] is Bytes),
    ensures
        ({
            let rows = report_rows(fifo, label, info, args, decoder, shown);
            let cells = cells_read(rows[0]);
            &&& rows.len() == 1
            &&& cells.len() == 14
            &&& cells[1] == label
            &&& cells[7] == Seq::<char>::empty()
            &&& cells[8] == Seq::<char>::empty()
            &&& cells[9] == Seq::<char>::empty()
            &&& cells[10] == Seq::<char>::empty()
            &&& cells[11] == Seq::<char>::empty()
            &&& cells[13] == watch_text::watch_args(args)
            &&& (forall|k: int| 0 <= k < args.len() ==> !(args[k] is Bytes)) ==> cells[6]
                == text::dec(0) && cells[12] == Seq::<char>::empty()
            &&& forall|k: int|
                0 <= k < args.len() && #[trigger] args[k] is Bytes && (forall|j: int|
                    0 <= j < k ==> !(args[j] is Bytes)) ==> cells[6] == text::dec(
                    args[k]->Bytes_0.len(),
                ) && cells[12] == report::hex_text(args[k]->Bytes_0)
        }),
{
    assert forall|k: int| 0 <= k < args.len() && #[trigger] args[k] is Bytes && (forall|j: int|
        0 <= j < k ==> !(args[j] is Bytes)) implies report::first_bytes(args) == Some(
        args[k]->Bytes_0,
    ) by {
        text_laws::law_first_arguments(args, k);
    }
    if args.len() > 0 {
        text_laws::law_first_arguments(args, 0);
    }
    let bytes = report::first_bytes(args);
    law_cells_stand_under_their_names(
        label,
        info,
        RowView {
            fifo_len: report::first_u32(args),
            data_len: match bytes {
                Some(b) => b.len(),
                None => 0,
            },
            sample_index: None,
            field: Seq::empty(),
            raw_i16: Seq::empty(),
            value: Seq::empty(),
            unit: Seq::empty(),
            data_hex: match bytes {
                Some(b) => report::hex_text(b),
                None => Seq::empty(),
            },
            args: watch_text::watch_args(args),
        },
    );
}

/// A cell stands between quotation marks where it holds a comma, a quotation mark or a line break,
/// and is otherwise written as it is.
pub proof fn law_quoted_cells(s: Seq<char>)
    ensures
        s.contains(',') || s.contains('"') || s.contains('\n') || s.contains('\r') ==> {
            &&& escaped(s).len() >= s.len() + 2
            &&& escaped(s)[0] == '"' && escaped(s).last() == '"'
        },
        !s.contains(',') && !s.contains('"') && !s.contains('\n') && !s.contains('\r') ==> escaped(s)
            == s,
        !s.contains('"') && escaped(s) != s ==> escaped(s) == seq!['"'] + s + seq!['"'],
{
    lemma_doubled_len(s);
}

proof fn lemma_doubled_len(s: Seq<char>)
    ensures
        doubled(s).len() >= s.len(),
        !s.contains('"') ==> doubled(s) == s,
    decreases s.len(),
{
    if s.len() > 0 {
        let less = s.drop_last();
        lemma_doubled_len(less);
        assert(s.contains(s.last()));
        if !s.contains('"') {
            assert(!less.contains('"')) by {
                if less.contains('"') {
                    let i = choose|i: int| 0 <= i < less.len() && less[i] == '"';
                    assert(s[i] == '"');
                }
            }
            assert(less.push(s.last()) =~= s);
        }
    }
}

} // verus!
