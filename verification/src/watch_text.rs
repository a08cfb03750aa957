//! What is shown of watched reports.
use crate::decoder::{I16LeReportDecoder, ReportOutputMode};
use crate::decoder::DecoderView;
use crate::report;
use crate::report::{hex_bytes, ReportArg};
use crate::samples;
use crate::samples::{I16LeFieldValue, I16LeFifoDecode, I16LeFifoSample};
use crate::text;
use crate::text::{chars_of, copy_texts, has_text, join, push_dec, push_dec_int, push_hex};
use crate::watch::ReportObserveInfo;
use crate::watch;
use crate::wire::ArgView;
use vstd::prelude::*;
use vstd::slice::slice_subrange;

verus! {

/// How many samples of a report are shown.
pub const FIFO_DECODE_PREVIEW_SAMPLES: usize = 8;

// ---- metadata

/// A note with a number, where there is one.
pub open spec fn note(name: Seq<char>, n: Option<nat>) -> Seq<char> {
    match n {
        Some(n) => name + text::dec(n),
        None => Seq::empty(),
    }
}

/// A note with two numbers, where there are some.
pub open spec fn note_pair(name: Seq<char>, p: Option<(nat, nat)>) -> Seq<char> {
    match p {
        Some((a, b)) => name + text::dec(a) + "->"@ + text::dec(b),
        None => Seq::empty(),
    }
}

/// An optional number.
pub open spec fn opt32(n: Option<u32>) -> Option<nat> {
    match n {
        Some(n) => Some(n as nat),
        None => None,
    }
}

/// An optional number.
pub open spec fn opt64(n: Option<u64>) -> Option<nat> {
    match n {
        Some(n) => Some(n as nat),
        None => None,
    }
}

/// What is shown of the place of a report among the others.
pub open spec fn watch_meta(info: ReportObserveInfo) -> Seq<char> {
    let time = samples::time_of(info.meta);
    note(
        " frame_id="@,
        match info.meta {
            Some(m) => Some(m.frame_id as nat),
            None => None,
        },
    ) + note(" ts_us="@, opt64(time)) + note(
        " dt_us="@,
        if time is Some {
            opt64(info.dt_us)
        } else {
            None
        },
    ) + note(" frame_gap="@, opt32(info.frame_gap)) + note_pair(
        " frame_id_reset="@,
        match info.frame_reset {
            Some((a, b)) => Some((a as nat, b as nat)),
            None => None,
        },
    ) + note_pair(
        " ts_rewind="@,
        match info.timestamp_rewind {
            Some((a, b)) => Some((a as nat, b as nat)),
            None => None,
        },
    )
}

fn push_note(out: &mut String, name: &str, n: Option<u64>)
    ensures
        final(out)@ == old(out)@ + note(name@, opt64(n)),
{
    match n {
        Some(n) => {
            out.push_str(name);
            push_dec(out, n as u128);
            assert(out@ =~= old(out)@ + (name@ + text::dec(n as nat)));
        },
        None => {
            assert(out@ =~= old(out)@ + Seq::<char>::empty());
        },
    }
}

fn push_note_pair(out: &mut String, name: &str, p: Option<(u64, u64)>)
    ensures
        final(out)@ == old(out)@ + note_pair(
            name@,
            match p {
                Some((a, b)) => Some((a as nat, b as nat)),
                None => None,
            },
        ),
{
    match p {
        Some((a, b)) => {
            out.push_str(name);
            push_dec(out, a as u128);
            out.push_str("->");
            push_dec(out, b as u128);
            assert(out@ =~= old(out)@ + (name@ + text::dec(a as nat) + "->"@ + text::dec(
                b as nat,
            )));
        },
        None => {
            assert(out@ =~= old(out)@ + Seq::<char>::empty());
        },
    }
}

fn wide(n: Option<u32>) -> (r: Option<u64>)
    ensures
        opt64(r) == opt32(n),
{
    match n {
        Some(n) => Some(n as u64),
        None => None,
    }
}

/// What is shown of the place of a report among the others.
pub fn format_report_watch_meta(info: &ReportObserveInfo) -> (s: String)
    ensures
        s@ == watch_meta(*info),
{
    let mut s: String = String::new();
    let mut frame_id: Option<u64> = None;
    let mut time: Option<u64> = None;
    let mut dt: Option<u64> = None;
    match info.meta {
        Some(m) => {
            frame_id = Some(m.frame_id as u64);
            if m.timestamp_valid() {
                time = Some(m.timestamp_us);
                dt = info.dt_us;
            }
        },
        None => {},
    }
    push_note(&mut s, " frame_id=", frame_id);
    assert(s@ =~= note(" frame_id="@, opt64(frame_id)));
    push_note(&mut s, " ts_us=", time);
    push_note(&mut s, " dt_us=", dt);
    push_note(&mut s, " frame_gap=", wide(info.frame_gap));
    let reset: Option<(u64, u64)> = match info.frame_reset {
        Some((a, b)) => Some((a as u64, b as u64)),
        None => None,
    };
    push_note_pair(&mut s, " frame_id_reset=", reset);
    push_note_pair(&mut s, " ts_rewind=", info.timestamp_rewind);
    s
}

// ---- arguments

/// A number read as a signed one.
pub open spec fn signed32(n: u32) -> int {
    if n < 0x8000_0000 {
        n as int
    } else {
        n - 0x1_0000_0000
    }
}

/// An argument as it is shown while watching.
pub open spec fn watch_arg(arg: ArgView) -> Seq<char> {
    match arg {
        ArgView::U32(v) => "u32=0x"@ + text::hex(v as nat, 8) + " ("@ + text::dec_int(signed32(v))
            + ")"@,
        ArgView::Bytes(b) => if b.len() > 16 {
            "bytes["@ + text::dec(b.len()) + "]=["@ + report::hex_text(b.take(16)) + " ...]"@
        } else {
            "bytes["@ + text::dec(b.len()) + "]=["@ + report::hex_text(b) + "]"@
        },
    }
}

/// Arguments as they are shown while watching.
pub open spec fn watch_args(args: Seq<ArgView>) -> Seq<char> {
    text::joined(args.map_values(|a: ArgView| watch_arg(a)), ", "@)
}

fn format_watch_arg(arg: &ReportArg) -> (s: String)
    ensures
        s@ == watch_arg(arg.view()),
{
    match arg {
        ReportArg::U32(v) => {
            let mut s: String = "u32=0x".to_owned();
            push_hex(&mut s, *v as u128, 8);
            s.push_str(" (");
            let signed: i64 = if *v < 0x8000_0000 {
                *v as i64
            } else {
                *v as i64 - 0x1_0000_0000
            };
            push_dec_int(&mut s, signed);
            s.push_str(")");
            s
        },
        ReportArg::Bytes(b) => {
            let mut s: String = "bytes[".to_owned();
            push_dec(&mut s, b.len() as u128);
            s.push_str("]=[");
            if b.len() > 16 {
                assert(b@.subrange(0, 16) =~= b@.take(16));
                s.push_str(hex_bytes(slice_subrange(b, 0, 16)).as_str());
                s.push_str(" ...]");
            } else {
                s.push_str(hex_bytes(b).as_str());
                s.push_str("]");
            }
            s
        },
    }
}

/// Arguments as they are shown while watching.
pub fn format_watch_args(args: &[ReportArg]) -> (s: String)
    ensures
        s@ == watch_args(report::arg_views(args@)),
{
    let mut parts: Vec<String> = Vec::new();
    let mut i: usize = 0;
    while i < args.len()
        invariant
            i <= args.len(),
            parts@.len() == i,
            forall|k: int| 0 <= k < i ==> (#[trigger] parts@[k])@ == watch_arg(args@[k].view()),
        decreases args.len() - i,
    {
        parts.push(format_watch_arg(&args[i]));
        i += 1;
    }
    assert(text::texts(parts@) =~= report::arg_views(args@).map_values(|a: ArgView| watch_arg(a)));
    join(&parts, ", ")
}

// ---- samples

/// The values of one sample that are scaled, as text: of the rates, the accelerations and
/// the temperature that the decoder names.
#[derive(Debug, Clone, PartialEq, Eq)]
pub struct ScaledTexts {
    pub gyro: Vec<String>,
    pub accel: Vec<String>,
    pub temp: String,
}

/// Whether there is a text for every named value.
pub open spec fn covers(t: ScaledTexts, d: DecoderView) -> bool {
    t.gyro@.len() == d.gyro_fields.len() && t.accel@.len() == d.accel_fields.len()
}

/// A named value as it is shown: its text where the sample has it.
pub open spec fn scaled_text(
    values: Seq<I16LeFieldValue>,
    fields: Seq<Seq<char>>,
    name: Seq<char>,
    shown: Seq<char>,
) -> Seq<char> {
    name + "="@ + (if samples::named_value(values, fields, name) is Some {
        shown
    } else {
        "missing"@
    })
}

/// Named values as they are shown.
pub open spec fn scaled_texts(
    values: Seq<I16LeFieldValue>,
    fields: Seq<Seq<char>>,
    names: Seq<Seq<char>>,
    shown: Seq<Seq<char>>,
) -> Seq<char> {
    text::joined(
        Seq::new(names.len(), |i: int| scaled_text(values, fields, names[i], shown[i])),
        ","@,
    )
}

fn format_scaled_field(
    sample: &I16LeFifoSample,
    decoder: &I16LeReportDecoder,
    name: &str,
    shown: &str,
) -> (s: String)
    requires
        samples::indexed(sample.values@, decoder.view().fields.len()),
    ensures
        s@ == scaled_text(sample.values@, decoder.view().fields, name@, shown@),
{
    let mut s: String = name.to_owned();
    s.push_str("=");
    match sample.value_by_name(decoder, name) {
        Some(_) => {
            s.push_str(shown);
        },
        None => {
            s.push_str("missing");
        },
    }
    s
}

/// Named values as they are shown.
pub fn format_scaled_fields(
    sample: &I16LeFifoSample,
    decoder: &I16LeReportDecoder,
    names: &[String],
    shown: &[String],
) -> (s: String)
    requires
        samples::indexed(sample.values@, decoder.view().fields.len()),
        names.len() == shown.len(),
    ensures
        s@ == scaled_texts(
            sample.values@,
            decoder.view().fields,
            text::texts(names@),
            text::texts(shown@),
        ),
{
    let mut parts: Vec<String> = Vec::new();
    let mut i: usize = 0;
    while i < names.len()
        invariant
            i <= names.len() == shown.len(),
            samples::indexed(sample.values@, decoder.view().fields.len()),
            parts@.len() == i,
            forall|k: int|
                0 <= k < i ==> (#[trigger] parts@[k])@ == scaled_text(
                    sample.values@,
                    decoder.view().fields,
                    names@[k]@,
                    shown@[k]@,
                ),
        decreases names.len() - i,
    {
        parts.push(format_scaled_field(sample, decoder, names[i].as_str(), shown[i].as_str()));
        i += 1;
    }
    assert(text::texts(parts@) =~= Seq::new(
        text::texts(names@).len(),
        |i: int|
            scaled_text(
                sample.values@,
                decoder.view().fields,
                text::texts(names@)[i],
                text::texts(shown@)[i],
            ),
    ));
    join(&parts, ",")
}

/// The values of a sample as they are, but for those of excluded fields.
pub open spec fn raw_parts(
    values: Seq<I16LeFieldValue>,
    fields: Seq<Seq<char>>,
    excluded: Seq<Seq<char>>,
) -> Seq<Seq<char>>
    decreases values.len(),
{
    if values.len() == 0 {
        Seq::empty()
    } else {
        let name = fields[values.last().field_index as int];
        let before = raw_parts(values.drop_last(), fields, excluded);
        if excluded.contains(name) {
            before
        } else {
            before.push(name + "="@ + text::dec_int(values.last().value as int))
        }
    }
}

/// The values of a sample as they are shown, but for those of excluded fields.
pub fn format_raw_fields(
    sample: &I16LeFifoSample,
    decoder: &I16LeReportDecoder,
    excluded: &[String],
) -> (s: String)
    requires
        samples::indexed(sample.values@, decoder.view().fields.len()),
    ensures
        s@ == text::joined(
            raw_parts(sample.values@, decoder.view().fields, text::texts(excluded@)),
            ","@,
        ),
{
    let ghost values = sample.values@;
    let ghost fields = decoder.view().fields;
    let mut parts: Vec<String> = Vec::new();
    let mut i: usize = 0;
    assert(text::texts(parts@) =~= raw_parts(values.take(0), fields, text::texts(excluded@)));
    while i < sample.values.len()
        invariant
            i <= sample.values.len(),
            values == sample.values@,
            fields == decoder.view().fields,
            samples::indexed(values, fields.len()),
            text::texts(parts@) == raw_parts(values.take(i as int), fields, text::texts(excluded@)),
        decreases sample.values.len() - i,
    {
        assert(values.take(i + 1).drop_last() =~= values.take(i as int));
        let value = sample.values[i];
        assert(values[i as int].field_index < fields.len());
        let field = &decoder.fields[value.field_index];
        assert(fields[value.field_index as int] == field@);
        if !has_text(excluded, field.as_str()) {
            let mut s: String = field.clone();
            s.push_str("=");
            push_dec_int(&mut s, value.value as i64);
            let ghost before = text::texts(parts@);
            parts.push(s);
            assert(text::texts(parts@) =~= before.push(s@));
        }
        i += 1;
    }
    assert(values.take(values.len() as int) =~= values);
    join(&parts, ",")
}

/// A list with those of `names` added that it does not hold.
pub open spec fn with_new(list: Seq<Seq<char>>, names: Seq<Seq<char>>) -> Seq<Seq<char>>
    decreases names.len(),
{
    if names.len() == 0 {
        list
    } else {
        let before = with_new(list, names.drop_last());
        if before.contains(names.last()) {
            before
        } else {
            before.push(names.last())
        }
    }
}

/// The names of the fields that are scaled.
pub open spec fn scaled_names(d: DecoderView) -> Seq<Seq<char>> {
    with_new(
        with_new(d.gyro_fields, d.accel_fields),
        match d.temp_field {
            Some(t) => seq![t],
            None => Seq::empty(),
        },
    )
}

fn add_new(list: &mut Vec<String>, names: &[String])
    ensures
        text::texts(final(list)@) == with_new(text::texts(old(list)@), text::texts(names@)),
{
    let ghost start = text::texts(list@);
    let ghost all = text::texts(names@);
    let mut i: usize = 0;
    while i < names.len()
        invariant
            i <= names.len(),
            all == text::texts(names@),
            text::texts(list@) == with_new(start, all.take(i as int)),
        decreases names.len() - i,
    {
        assert(all.take(i + 1).drop_last() =~= all.take(i as int));
        assert(all[i as int] == names@[i as int]@);
        if !has_text(list, names[i].as_str()) {
            let ghost before = text::texts(list@);
            list.push(names[i].clone());
            assert(text::texts(list@) =~= before.push(names@[i as int]@));
        }
        i += 1;
    }
    assert(all.take(all.len() as int) =~= all);
}

/// The names of the fields that are scaled.
pub fn scaled_field_names(decoder: &I16LeReportDecoder) -> (names: Vec<String>)
    ensures
        text::texts(names@) == scaled_names(decoder.view()),
{
    let mut names = copy_texts(&decoder.gyro_fields);
    add_new(&mut names, &decoder.accel_fields);
    let mut temp: Vec<String> = Vec::new();
    match &decoder.temp_field {
        Some(t) => {
            temp.push(t.clone());
            assert(text::texts(temp@) =~= seq![t@]);
        },
        None => {
            assert(text::texts(temp@) =~= Seq::<Seq<char>>::empty());
        },
    }
    add_new(&mut names, &temp);
    names
}

/// What is wrong with the data of a report.
pub open spec fn data_health(fifo_len: Option<u32>, data_len: nat, left: nat) -> Seq<char> {
    (if watch::len_differs(fifo_len, data_len) {
        " len_mismatch=status:"@ + text::dec(fifo_len->Some_0 as nat) + ",data:"@ + text::dec(
            data_len,
        )
    } else {
        Seq::empty()
    }) + (if left != 0 {
        " partial_bytes="@ + text::dec(left)
    } else {
        Seq::empty()
    })
}

/// What is wrong with the data of a report.
pub fn format_fifo_raw_health(fifo_len: Option<u32>, data_len: usize, decoded: &I16LeFifoDecode) -> (s:
    String)
    ensures
        s@ == data_health(fifo_len, data_len as nat, decoded.trailing_bytes as nat),
{
    let mut s: String = String::new();
    match fifo_len {
        Some(len) => {
            if len as u64 != data_len as u64 {
                s.push_str(" len_mismatch=status:");
                push_dec(&mut s, len as u128);
                s.push_str(",data:");
                push_dec(&mut s, data_len as u128);
                assert(s@ =~= " len_mismatch=status:"@ + text::dec(len as nat) + ",data:"@
                    + text::dec(data_len as nat));
            }
        },
        None => {},
    }
    let ghost head = s@;
    if decoded.trailing_bytes != 0 {
        s.push_str(" partial_bytes=");
        push_dec(&mut s, decoded.trailing_bytes as u128);
        assert(s@ =~= head + (" partial_bytes="@ + text::dec(decoded.trailing_bytes as nat)));
    } else {
        assert(s@ =~= head + Seq::<char>::empty());
    }
    s
}

/// A part of a line in brackets, where there is one.
pub open spec fn bracketed(before: Seq<char>, inner: Seq<char>, there: bool) -> Seq<char> {
    if there {
        before + inner + ")"@
    } else {
        Seq::empty()
    }
}

fn push_bracketed(out: &mut String, before: &str, inner: &str, there: bool)
    ensures
        final(out)@ == old(out)@ + bracketed(before@, inner@, there),
{
    if there {
        out.push_str(before);
        out.push_str(inner);
        out.push_str(")");
        assert(out@ =~= old(out)@ + (before@ + inner@ + ")"@));
    } else {
        assert(out@ =~= old(out)@ + Seq::<char>::empty());
    }
}

/// A sample as it is shown.
pub open spec fn sample_text(
    index: nat,
    values: Seq<I16LeFieldValue>,
    d: DecoderView,
    shown: ScaledTexts,
) -> Seq<char> {
    let head = "["@ + text::dec(index) + "]"@;
    match d.output {
        ReportOutputMode::RawI16 => head + bracketed(
            " raw=("@,
            text::joined(raw_parts(values, d.fields, Seq::empty()), ","@),
            true,
        ),
        ReportOutputMode::PhysicalF32 => {
            let raw = text::joined(raw_parts(values, d.fields, scaled_names(d)), ","@);
            head + bracketed(
                " gyro=("@,
                scaled_texts(values, d.fields, d.gyro_fields, text::texts(shown.gyro@)),
                d.gyro_fields.len() > 0,
            ) + bracketed(
                " acc=("@,
                scaled_texts(values, d.fields, d.accel_fields, text::texts(shown.accel@)),
                d.accel_fields.len() > 0,
            ) + bracketed(
                " temp=("@,
                scaled_text(values, d.fields, d.temp_field->Some_0, shown.temp@),
                d.temp_field is Some,
            ) + bracketed(" raw=("@, raw, raw.len() > 0)
        },
    }
}

fn format_sample(
    index: u64,
    sample: &I16LeFifoSample,
    decoder: &I16LeReportDecoder,
    shown: &ScaledTexts,
) -> (s: String)
    requires
        samples::indexed(sample.values@, decoder.view().fields.len()),
        covers(*shown, decoder.view()),
    ensures
        s@ == sample_text(index as nat, sample.values@, decoder.view(), *shown),
{
    let mut s: String = "[".to_owned();
    push_dec(&mut s, index as u128);
    s.push_str("]");
    match decoder.output {
        ReportOutputMode::RawI16 => {
            let none: Vec<String> = Vec::new();
            assert(text::texts(none@) =~= Seq::<Seq<char>>::empty());
            let raw = format_raw_fields(sample, decoder, &none);
            push_bracketed(&mut s, " raw=(", raw.as_str(), true);
        },
        ReportOutputMode::PhysicalF32 => {
            let gyro = format_scaled_fields(sample, decoder, &decoder.gyro_fields, &shown.gyro);
            push_bracketed(&mut s, " gyro=(", gyro.as_str(), decoder.gyro_fields.len() > 0);
            let accel = format_scaled_fields(sample, decoder, &decoder.accel_fields, &shown.accel);
            push_bracketed(&mut s, " acc=(", accel.as_str(), decoder.accel_fields.len() > 0);
            match &decoder.temp_field {
                Some(name) => {
                    let temp = format_scaled_field(
                        sample,
                        decoder,
                        name.as_str(),
                        shown.temp.as_str(),
                    );
                    push_bracketed(&mut s, " temp=(", temp.as_str(), true);
                },
                None => {
                    assert(s@ =~= s@ + Seq::<char>::empty());
                },
            }
            let raw = format_raw_fields(sample, decoder, &scaled_field_names(decoder));
            let there: bool = chars_of(raw.as_str()).len() > 0;
            push_bracketed(&mut s, " raw=(", raw.as_str(), there);
        },
    }
    s
}

/// How a list of samples is headed.
pub open spec fn samples_head(d: DecoderView) -> Seq<char> {
    let head = "decoded("@ + d.label + " "@ + d.output.name();
    let physical = d.output == ReportOutputMode::PhysicalF32;
    head + (if physical && d.gyro_fields.len() > 0 {
        " gyro_rad_s"@
    } else {
        Seq::empty()
    }) + (if physical && d.accel_fields.len() > 0 {
        " acc_m_s2"@
    } else {
        Seq::empty()
    }) + (if physical && d.temp_field is Some {
        " temp_c"@
    } else {
        Seq::empty()
    }) + "): "@
}

fn push_if(out: &mut String, what: &str, there: bool)
    ensures
        final(out)@ == old(out)@ + (if there {
            what@
        } else {
            Seq::empty()
        }),
{
    if there {
        out.push_str(what);
    } else {
        assert(out@ =~= old(out)@ + Seq::<char>::empty());
    }
}

/// How many of the samples are shown.
pub open spec fn shown_count(n: nat) -> nat {
    if n > FIFO_DECODE_PREVIEW_SAMPLES {
        FIFO_DECODE_PREVIEW_SAMPLES as nat
    } else {
        n
    }
}

/// The samples of a report as they are shown: the first few, numbered from `base` on, and how
/// many more there are.
pub open spec fn samples_text(
    base: nat,
    all: Seq<Seq<I16LeFieldValue>>,
    d: DecoderView,
    shown: Seq<ScaledTexts>,
) -> Seq<char> {
    if all.len() == 0 {
        Seq::empty()
    } else {
        samples_head(d) + text::joined(
            Seq::new(
                shown_count(all.len()),
                |i: int| sample_text((base + i) as nat, all[i], d, shown[i]),
            ),
            "; "@,
        ) + (if all.len() > FIFO_DECODE_PREVIEW_SAMPLES {
            "; ... +"@ + text::dec((all.len() - FIFO_DECODE_PREVIEW_SAMPLES) as nat) + " samples"@
        } else {
            Seq::empty()
        })
    }
}

/// The samples of a report as they are shown.
pub fn format_i16_le_fifo_decode(
    sample_base: u64,
    decoded: &I16LeFifoDecode,
    decoder: &I16LeReportDecoder,
    shown: &[ScaledTexts],
) -> (s: String)
    requires
        shown.len() >= shown_count(decoded.samples@.len()),
        sample_base + shown_count(decoded.samples@.len()) <= u64::MAX + 1,
        forall|i: int|
            0 <= i < shown_count(decoded.samples@.len()) ==> covers(
                #[trigger] shown@[i],
                decoder.view(),
            ),
        forall|i: int|
            0 <= i < decoded.samples.len() ==> samples::indexed(
                (#[trigger] decoded.samples@[i]).values@,
                decoder.view().fields.len(),
            ),
    ensures
        s@ == samples_text(
            sample_base as nat,
            samples::sample_views(decoded.samples@),
            decoder.view(),
            shown@,
        ),
{
    let total: usize = decoded.samples.len();
    if total == 0 {
        return String::new();
    }
    let ghost d = decoder.view();
    let ghost all = samples::sample_views(decoded.samples@);
    let mut s: String = "decoded(".to_owned();
    s.push_str(decoder.label.as_str());
    s.push_str(" ");
    s.push_str(decoder.output.as_str());
    let physical: bool = match decoder.output {
        ReportOutputMode::PhysicalF32 => true,
        ReportOutputMode::RawI16 => false,
    };
    push_if(&mut s, " gyro_rad_s", physical && decoder.gyro_fields.len() > 0);
    push_if(&mut s, " acc_m_s2", physical && decoder.accel_fields.len() > 0);
    push_if(&mut s, " temp_c", physical && decoder.temp_field.is_some());
    s.push_str("): ");
    assert(s@ == samples_head(d));
    let n: usize = if total > FIFO_DECODE_PREVIEW_SAMPLES {
        FIFO_DECODE_PREVIEW_SAMPLES
    } else {
        total
    };
    let mut parts: Vec<String> = Vec::new();
    let mut i: usize = 0;
    while i < n
        invariant
            i <= n,
            n == shown_count(all.len()),
            n <= total == decoded.samples.len(),
            n <= shown.len(),
            sample_base + n <= u64::MAX + 1,
            all == samples::sample_views(decoded.samples@),
            d == decoder.view(),
            forall|k: int| 0 <= k < n ==> covers(#[trigger] shown@[k], d),
            forall|k: int|
                0 <= k < decoded.samples.len() ==> samples::indexed(
                    (#[trigger] decoded.samples@[k]).values@,
                    d.fields.len(),
                ),
            parts@.len() == i,
            forall|k: int|
                0 <= k < i ==> (#[trigger] parts@[k])@ == sample_text(
                    (sample_base + k) as nat,
                    all[k],
                    d,
                    shown@[k],
                ),
        decreases n - i,
    {
        assert(all[i as int] == decoded.samples@[i as int].values@);
        assert(covers(shown@[i as int], d));
        parts.push(format_sample(sample_base + i as u64, &decoded.samples[i], decoder, &shown[i]));
        i += 1;
    }
    assert(text::texts(parts@) =~= Seq::new(
        n as nat,
        |i: int| sample_text((sample_base + i) as nat, all[i], d, shown@[i]),
    ));
    s.push_str(join(&parts, "; ").as_str());
    if total > FIFO_DECODE_PREVIEW_SAMPLES {
        let ghost before = s@;
        s.push_str("; ... +");
        push_dec(&mut s, (total - FIFO_DECODE_PREVIEW_SAMPLES) as u128);
        s.push_str(" samples");
        assert(s@ =~= before + ("; ... +"@ + text::dec(
            (total - FIFO_DECODE_PREVIEW_SAMPLES) as nat,
        ) + " samples"@));
    } else {
        assert(s@ =~= s@ + Seq::<char>::empty());
    }
    s
}

} // verus!
