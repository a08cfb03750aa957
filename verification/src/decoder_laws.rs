//! What report decoders are told, keep and make of reports, and what metadata is gathered.

use vstd::prelude::*;

use crate::capture_meta;
use crate::capture_meta::DecoderMetaView;
use crate::catalog;
use crate::decoder;
use crate::decoder::{DecoderView, ReportDecoder, ReportOutputMode, Scale};
use crate::decoder_options;
use crate::decoder_options::{ReportOption, ReportOptionValue};
use crate::health::ReportHealth;
use crate::metadata;
use crate::metadata::{Candidate, CatalogView, ChipRead, MetadataView, PageRegister, SourceRead};
use crate::ports;
use crate::ports::SerialPort;
use crate::processor;
use crate::program;
use crate::program::Collected;
use crate::processor::EventView;
use crate::report;
use crate::report::ReportKinds;
use crate::samples;
use crate::samples::I16LeFieldValue;
use crate::text;
use crate::transport;
use crate::transport::End;
use crate::wire::{ArgView, ReportMeta};

verus! {

// ---- declarations

proof fn lemma_first_repeat(names: Seq<Seq<char>>)
    ensures
        decoder::first_repeat(names) is None <==> names.no_duplicates(),
    decreases names.len(),
{
    if names.len() > 0 {
        let less = names.drop_last();
        lemma_first_repeat(less);
        assert(forall|i: int| 0 <= i < less.len() ==> less[i] == names[i]);
        if names.no_duplicates() {
            assert(less.no_duplicates());
            if less.contains(names.last()) {
                let i = choose|i: int| 0 <= i < less.len() && less[i] == names.last();
                assert(names[i] == names[names.len() - 1]);
            }
        } else if less.no_duplicates() && !less.contains(names.last()) {
            assert forall|i: int, j: int| 0 <= i < names.len() && 0 <= j < names.len() && i
                != j implies names[i] != names[j] by {
                if i < less.len() && j < less.len() {
                    assert(less[i] != less[j]);
                } else if i < less.len() {
                    assert(less[i] != names.last());
                } else {
                    assert(less[j] != names.last());
                }
            }
        }
    }
}

/// The first name that is not among the known ones.
pub proof fn law_first_missing(names: Seq<Seq<char>>, known: Seq<Seq<char>>, k: int)
    ensures
        0 <= k < names.len() && !known.contains(names[k]) && (forall|j: int|
            0 <= j < k ==> known.contains(#[trigger] names[j])) ==> decoder::first_missing(
            names,
            known,
        ) == Some(names[k]),
        (forall|j: int| 0 <= j < names.len() ==> known.contains(#[trigger] names[j]))
            <==> decoder::first_missing(names, known) is None,
    decreases names.len(),
{
    if names.len() > 0 {
        let rest = names.skip(1);
        assert(forall|j: int| 0 <= j < rest.len() ==> rest[j] == names[j + 1]);
        law_first_missing(rest, known, k - 1);
        if decoder::first_missing(names, known) is None {
            assert forall|j: int| 0 <= j < names.len() implies known.contains(#[trigger] names[j]) by {
                if j > 0 {
                    assert(known.contains(rest[j - 1]));
                }
            }
        }
        if forall|j: int| 0 <= j < names.len() ==> known.contains(#[trigger] names[j]) {
            assert(known.contains(names[0]));
            assert forall|j: int| 0 <= j < rest.len() implies known.contains(#[trigger] rest[j]) by {
                assert(known.contains(names[j + 1]));
            }
        }
    }
}

/// The first name that was there before.
pub proof fn law_first_repeat(names: Seq<Seq<char>>, k: int)
    ensures
        0 <= k < names.len() && names.take(k).no_duplicates() && names.take(k).contains(names[k])
            ==> decoder::first_repeat(names) == Some(names[k]),
        names.no_duplicates() <==> decoder::first_repeat(names) is None,
    decreases names.len(),
{
    lemma_first_repeat(names);
    if 0 <= k < names.len() {
        if k < names.len() - 1 {
            assert(names.drop_last().take(k) =~= names.take(k));
            law_first_repeat(names.drop_last(), k);
        } else {
            assert(names.drop_last() =~= names.take(k));
            lemma_first_repeat(names.take(k));
        }
    }
}

/// A decoder can be used where it has fields, each of its own name, every scaled field is among
/// them, and so is the temperature, whose scale is positive and finite.
pub proof fn law_usable_decoder(d: DecoderView)
    ensures
        decoder::decoder_fault(d) is None <==> {
            &&& d.fields.len() > 0
            &&& d.fields.no_duplicates()
            &&& forall|i: int|
                0 <= i < d.gyro_fields.len() ==> d.fields.contains(#[trigger] d.gyro_fields[i])
            &&& forall|i: int|
                0 <= i < d.accel_fields.len() ==> d.fields.contains(#[trigger] d.accel_fields[i])
            &&& d.temp_field matches Some(field) ==> {
                &&& d.fields.contains(field)
                &&& d.temp_lsb_per_c.finite() && d.temp_lsb_per_c.positive()
                &&& d.temp_offset_c.finite()
            }
        },
        decoder::checked(d) == match decoder::decoder_fault(d) {
            None => Ok(d),
            Some(e) => Err(e),
        },
{
    lemma_first_repeat(d.fields);
    let all = d.gyro_fields + d.accel_fields;
    law_first_missing(all, d.fields, 0);
    if forall|j: int| 0 <= j < all.len() ==> d.fields.contains(#[trigger] all[j]) {
        assert forall|i: int| 0 <= i < d.gyro_fields.len() implies d.fields.contains(
            #[trigger] d.gyro_fields[i],
        ) by {
            assert(all[i] == d.gyro_fields[i]);
        }
        assert forall|i: int| 0 <= i < d.accel_fields.len() implies d.fields.contains(
            #[trigger] d.accel_fields[i],
        ) by {
            assert(all[d.gyro_fields.len() + i] == d.accel_fields[i]);
        }
    } else {
        let j = choose|j: int| 0 <= j < all.len() && !d.fields.contains(#[trigger] all[j]);
        if j < d.gyro_fields.len() {
            assert(all[j] == d.gyro_fields[j]);
        } else {
            assert(all[j] == d.accel_fields[j - d.gyro_fields.len()]);
        }
    }
}

/// A double is finite unless all bits of its exponent are set, and positive where its sign bit is
/// clear and another bit is set. A whole number is finite.
pub proof fn law_scales(n: i64, bits: u64)
    ensures
        Scale::Whole(n).finite(),
        Scale::Whole(n).positive() <==> n > 0,
        Scale::Double(bits).finite() <==> (bits as int / 0x10_0000_0000_0000) % 2048 != 2047,
        Scale::Double(bits).positive() <==> bits != 0 && bits < 0x8000_0000_0000_0000,
{
}

/// Each option of a decoder of little-endian numbers sets the quantity of its name and leaves the
/// others as they are; an option of another form or another name is refused.
pub proof fn law_option_sets_its_own(d: DecoderView, option: ReportOption)
    ensures
        ({
            let after = decoder_options::with_option("i16_le"@, d, option);
            let name = option.0@;
            let listed = name == "fields"@ || name == "accel_fields"@ || name == "gyro_fields"@;
            let numbered = name == "accel_fs_g"@ || name == "gyro_fs_dps"@ || name
                == "temp_lsb_per_c"@ || name == "temp_offset_c"@;
            &&& after is Ok ==> listed || numbered || name == "temp_field"@ || name == "output"@
            &&& listed ==> (after is Ok <==> option.1 is IdentArray)
            &&& numbered ==> (after is Ok <==> option.1 is Number)
            &&& name == "temp_field"@ ==> (after is Ok <==> option.1 is Ident)
            &&& option.1 matches ReportOptionValue::IdentArray(v) ==> {
                &&& name == "fields"@ ==> after->Ok_0 == (DecoderView {
                    fields: text::texts(v@),
                    ..d
                })
                &&& name == "accel_fields"@ ==> after->Ok_0 == (DecoderView {
                    accel_fields: text::texts(v@),
                    ..d
                })
                &&& name == "gyro_fields"@ ==> after->Ok_0 == (DecoderView {
                    gyro_fields: text::texts(v@),
                    ..d
                })
            }
            &&& option.1 matches ReportOptionValue::Number(n) ==> {
                let s = Scale::Whole(n);
                &&& name == "accel_fs_g"@ ==> after->Ok_0 == (DecoderView { accel_fs_g: s, ..d })
                &&& name == "gyro_fs_dps"@ ==> after->Ok_0 == (DecoderView { gyro_fs_dps: s, ..d })
                &&& name == "temp_lsb_per_c"@ ==> after->Ok_0 == (DecoderView {
                    temp_lsb_per_c: s,
                    ..d
                })
                &&& name == "temp_offset_c"@ ==> after->Ok_0 == (DecoderView {
                    temp_offset_c: s,
                    ..d
                })
            }
            &&& option.1 matches ReportOptionValue::Ident(v) ==> {
                &&& name == "temp_field"@ ==> after->Ok_0 == (DecoderView {
                    temp_field: Some(v@),
                    ..d
                })
                &&& name == "output"@ && v@ == "physical_f32"@ ==> after
                    == Ok::<DecoderView, Seq<char>>(
                    DecoderView { output: ReportOutputMode::PhysicalF32, ..d },
                )
                &&& name == "output"@ && v@ == "raw_i16"@ ==> after
                    == Ok::<DecoderView, Seq<char>>(
                    DecoderView { output: ReportOutputMode::RawI16, ..d },
                )
                &&& name == "output"@ && v@ != "physical_f32"@ && v@ != "raw_i16"@ ==> after is Err
            }
            &&& name == "output"@ && !(option.1 is Ident) ==> after is Err
        }),
{
    lemma_names_differ();
}

proof fn lemma_names_differ()
    ensures
        "gyro_fields"@ != "fields"@ && "accel_fields"@ != "fields"@ && "temp_field"@ != "fields"@,
        "gyro_fields"@ != "accel_fields"@ && "temp_field"@ != "accel_fields"@,
        "temp_field"@ != "gyro_fields"@,
        "accel_fs_g"@ != "fields"@ && "accel_fs_g"@ != "accel_fields"@ && "accel_fs_g"@
            != "gyro_fields"@ && "accel_fs_g"@ != "temp_field"@,
        "gyro_fs_dps"@ != "fields"@ && "gyro_fs_dps"@ != "accel_fields"@ && "gyro_fs_dps"@
            != "gyro_fields"@ && "gyro_fs_dps"@ != "temp_field"@ && "gyro_fs_dps"@ != "accel_fs_g"@,
        "temp_lsb_per_c"@ != "fields"@ && "temp_lsb_per_c"@ != "accel_fields"@
            && "temp_lsb_per_c"@ != "gyro_fields"@ && "temp_lsb_per_c"@ != "temp_field"@
            && "temp_lsb_per_c"@ != "accel_fs_g"@ && "temp_lsb_per_c"@ != "gyro_fs_dps"@,
        "temp_offset_c"@ != "fields"@ && "temp_offset_c"@ != "accel_fields"@ && "temp_offset_c"@
            != "gyro_fields"@ && "temp_offset_c"@ != "temp_field"@ && "temp_offset_c"@
            != "accel_fs_g"@ && "temp_offset_c"@ != "gyro_fs_dps"@ && "temp_offset_c"@
            != "temp_lsb_per_c"@,
        "output"@ != "fields"@ && "output"@ != "accel_fields"@ && "output"@ != "gyro_fields"@
            && "output"@ != "temp_field"@ && "output"@ != "accel_fs_g"@ && "output"@
            != "gyro_fs_dps"@ && "output"@ != "temp_lsb_per_c"@ && "output"@ != "temp_offset_c"@,
        "physical_f32"@ != "raw_i16"@,
        "qmi8660_fifo6"@ != "i16_le"@,
{
    reveal_strlit("fields");
    reveal_strlit("accel_fields");
    reveal_strlit("gyro_fields");
    reveal_strlit("temp_field");
    reveal_strlit("accel_fs_g");
    reveal_strlit("gyro_fs_dps");
    reveal_strlit("temp_lsb_per_c");
    reveal_strlit("temp_offset_c");
    reveal_strlit("output");
    reveal_strlit("physical_f32");
    reveal_strlit("raw_i16");
    reveal_strlit("qmi8660_fifo6");
    reveal_strlit("i16_le");
    assert("fields"@.len() == 6 && "accel_fields"@.len() == 12 && "gyro_fields"@.len() == 11);
    assert("temp_field"@.len() == 10 && "accel_fs_g"@.len() == 10 && "gyro_fs_dps"@.len() == 11);
    assert("temp_lsb_per_c"@.len() == 14 && "temp_offset_c"@.len() == 13 && "output"@.len() == 6);
    assert("accel_fs_g"@[0] == 'a' && "temp_field"@[0] == 't');
    assert("gyro_fs_dps"@[6] == 's' && "gyro_fields"@[6] == 'i');
    assert("output"@[0] == 'o' && "fields"@[0] == 'f');
    assert("physical_f32"@.len() == 12 && "raw_i16"@.len() == 7);
    assert("i16_le"@.len() == 6 && "qmi8660_fifo6"@.len() == 13);
}

/// The options of a decoder are taken in one after the other, so that the last one of a name counts.
pub proof fn law_options_in_order(
    name: Seq<char>,
    d: DecoderView,
    options: Seq<ReportOption>,
    last: ReportOption,
)
    ensures
        decoder_options::with_options(name, d, Seq::empty()) == Ok::<DecoderView, Seq<char>>(d),
        decoder_options::with_options(name, d, options) matches Ok(e)
            ==> decoder_options::with_options(name, d, options.push(last))
            == decoder_options::with_option(name, e, last),
        decoder_options::with_options(name, d, options) matches Err(e)
            ==> decoder_options::with_options(name, d, options.push(last)) == Err::<
            DecoderView,
            Seq<char>,
        >(e),
{
    assert(options.push(last).drop_last() =~= options);
}

/// A decoder for six axes without options: three turn rates, three accelerations, in that order,
/// with the full scales that it has by itself.
pub proof fn law_six_axes()
    ensures
        decoder_options::declared("qmi8660_fifo6"@, Seq::empty()) == Ok::<DecoderView, Seq<char>>(
            DecoderView {
                label: "qmi8660_fifo6"@,
                fields: seq!["gx"@, "gy"@, "gz"@, "ax"@, "ay"@, "az"@],
                gyro_fields: seq!["gx"@, "gy"@, "gz"@],
                accel_fields: seq!["ax"@, "ay"@, "az"@],
                temp_field: None,
                accel_fs_g: Scale::Whole(16),
                gyro_fs_dps: Scale::Whole(4096),
                temp_lsb_per_c: Scale::Whole(1),
                temp_offset_c: Scale::Whole(0),
                output: ReportOutputMode::PhysicalF32,
            },
        ),
{
    lemma_names_differ();
    decoder_options::law_fifo6_is_usable(Seq::empty());
}

/// A decoder of little-endian numbers needs its fields; other decoders are not known.
pub proof fn law_declared_decoders(name: Seq<char>, options: Seq<ReportOption>)
    ensures
        decoder_options::declared(name, options) is Ok ==> name == "i16_le"@ || name
            == "qmi8660_fifo6"@,
        decoder_options::declared("i16_le"@, options) is Ok ==> exists|i: int|
            0 <= i < options.len() && (#[trigger] options[i]).0@ == "fields"@,
        name == "i16_le"@ ==> (decoder_options::declared(name, options) matches Ok(d)
            ==> decoder_options::with_options(
            name,
            DecoderView {
                label: name,
                fields: Seq::empty(),
                gyro_fields: Seq::empty(),
                accel_fields: Seq::empty(),
                temp_field: None,
                accel_fs_g: Scale::Whole(16),
                gyro_fs_dps: Scale::Whole(4096),
                temp_lsb_per_c: Scale::Whole(1),
                temp_offset_c: Scale::Whole(0),
                output: ReportOutputMode::PhysicalF32,
            },
            options,
        ) == Ok::<DecoderView, Seq<char>>(d)),
{
}

/// What is saved of a decoder beside a capture, each quantity under its own name.
pub proof fn law_saved_decoder(kinds: ReportKinds, kind: u32, d: DecoderView)
    ensures
        ({
            let m = capture_meta::saved(kinds, kind, d);
            &&& m.kind == kind
            &&& m.kind_label == report::kind_label(kinds.names@, kind)
            &&& m.decoder == d.label
            &&& m.fields == d.fields
            &&& m.gyro_fields == d.gyro_fields
            &&& m.accel_fields == d.accel_fields
            &&& m.temp_field == d.temp_field
            &&& m.accel_fs_g == d.accel_fs_g
            &&& m.gyro_fs_dps == d.gyro_fs_dps
            &&& m.temp_lsb_per_c == d.temp_lsb_per_c
            &&& m.temp_offset_c == d.temp_offset_c
            &&& d.output == ReportOutputMode::PhysicalF32 ==> m.output == "physical_f32"@
            &&& d.output == ReportOutputMode::RawI16 ==> m.output == "raw_i16"@
        }),
{
}

/// Saved decoders are entered one after the other under their kinds; the last one of a kind stays,
/// and the first one that cannot be used stands for all.
pub proof fn law_restored_decoders(metas: Seq<DecoderMetaView>, m: DecoderMetaView)
    ensures
        capture_meta::restored_all(Seq::empty()) == Ok::<Map<u32, DecoderView>, Seq<char>>(
            Map::empty(),
        ),
        capture_meta::restored_all(metas) matches Err(e) ==> capture_meta::restored_all(
            metas.push(m),
        ) == Err::<Map<u32, DecoderView>, Seq<char>>(e),
        capture_meta::restored_all(metas) matches Ok(all) ==> (match capture_meta::restored(m) {
            Ok(d) => capture_meta::restored_all(metas.push(m)) == Ok::<
                Map<u32, DecoderView>,
                Seq<char>,
            >(all.insert(m.kind, d)),
            Err(e) => capture_meta::restored_all(metas.push(m)) == Err::<
                Map<u32, DecoderView>,
                Seq<char>,
            >(e),
        }),
        capture_meta::restored(m) is Ok ==> m.output == "physical_f32"@ || m.output == "raw_i16"@,
{
    assert(metas.push(m).drop_last() =~= metas);
}

// ---- reports

proof fn lemma_motion_events(
    all: Seq<Seq<I16LeFieldValue>>,
    d: DecoderView,
    meta: Option<ReportMeta>,
)
    requires
        forall|k: int|
            0 <= k < all.len() ==> samples::motion_of(#[trigger] all[k], d, meta) is Some,
    ensures
        processor::motion_events(all, d, meta).len() == all.len(),
        forall|k: int|
            0 <= k < all.len() ==> #[trigger] processor::motion_events(all, d, meta)[k]
                == EventView::Sample(samples::motion_of(all[k], d, meta)->Some_0),
    decreases all.len(),
{
    if all.len() > 0 {
        let less = all.drop_last();
        assert forall|k: int| 0 <= k < less.len() implies samples::motion_of(
            #[trigger] less[k],
            d,
            meta,
        ) is Some by {
            assert(less[k] == all[k]);
        }
        assert(samples::motion_of(all[all.len() - 1], d, meta) is Some);
        lemma_motion_events(less, d, meta);
    }
}

/// What follows from a report: the motion of each sample in their order, where it is a data report
/// with bytes and a decoder; behind it the report itself, and last the counts.
pub proof fn law_report_events(
    kinds: ReportKinds,
    decoders: Map<u32, ReportDecoder>,
    health: ReportHealth,
    meta: Option<ReportMeta>,
    kind: u32,
    args: Seq<ArgView>,
)
    ensures
        ({
            let events = processor::report_events(kinds, decoders, health, meta, kind, args);
            let s = processor::summary_of(kinds, decoders, health, meta, kind, args);
            let n = events.len() - 2;
            let bytes = report::first_bytes(args);
            let decoded = kind == kinds.fifo_raw && bytes is Some && decoders.dom().contains(kind);
            &&& n >= 0
            &&& events[n] == EventView::Report(s)
            &&& events[n + 1] == EventView::Health(health)
            &&& !decoded ==> n == 0
            &&& decoded ==> {
                let d = decoders[kind].view();
                let all = samples::samples_from(bytes->Some_0, 0, d.fields.len());
                (forall|k: int|
                    0 <= k < all.len() ==> samples::motion_of(#[trigger] all[k], d, meta) is Some)
                    ==> n == all.len() && forall|k: int|
                    0 <= k < n ==> #[trigger] events[k] == EventView::Sample(
                        samples::motion_of(all[k], d, meta)->Some_0,
                    )
            }
        }),
{
    let bytes = report::first_bytes(args);
    if kind == kinds.fifo_raw && bytes is Some && decoders.dom().contains(kind) {
        let d = decoders[kind].view();
        let all = samples::samples_from(bytes->Some_0, 0, d.fields.len());
        if forall|k: int|
            0 <= k < all.len() ==> samples::motion_of(#[trigger] all[k], d, meta) is Some {
            lemma_motion_events(all, d, meta);
        }
    }
}

/// What is told of a report: what it says of itself, under the name of its kind, and of a data
/// report the length that it tells, the length of its bytes, and how many samples and left over
/// bytes they are.
pub proof fn law_report_summary(
    kinds: ReportKinds,
    decoders: Map<u32, ReportDecoder>,
    health: ReportHealth,
    meta: Option<ReportMeta>,
    kind: u32,
    args: Seq<ArgView>,
)
    ensures
        ({
            let s = processor::summary_of(kinds, decoders, health, meta, kind, args);
            let bytes = report::first_bytes(args);
            let fifo = kind == kinds.fifo_raw;
            let decoded = fifo && bytes is Some && decoders.dom().contains(kind);
            &&& s.meta == meta && s.kind == kind && s.args == args && s.health == health
            &&& s.label == report::kind_label(kinds.names@, kind)
            &&& s.label + report::meta_text(meta) == s.line.take(
                (s.label + report::meta_text(meta)).len() as int,
            )
            &&& s.fifo_len == if fifo {
                report::first_u32(args)
            } else {
                None
            }
            &&& fifo && bytes is Some ==> s.data_len == Some(bytes->Some_0.len())
            &&& !fifo || bytes is None ==> s.data_len is None
            &&& !decoded ==> s.sample_count == 0 && s.trailing_bytes == 0
            &&& decoded && decoders[kind].view().fields.len() > 0 ==> {
                let size = 2 * decoders[kind].view().fields.len();
                &&& s.sample_count == bytes->Some_0.len() / size
                &&& s.trailing_bytes == bytes->Some_0.len() % size
            }
        }),
{
    let s = processor::summary_of(kinds, decoders, health, meta, kind, args);
    let bytes = report::first_bytes(args);
    let head = s.label + report::meta_text(meta);
    assert(s.line.take(head.len() as int) =~= head);
    if kind == kinds.fifo_raw && bytes is Some && decoders.dom().contains(kind)
        && decoders[kind].view().fields.len() > 0 {
        let b = bytes->Some_0;
        let n = decoders[kind].view().fields.len();
        samples::law_samples_account_for_bytes(b, n);
        let count = samples::samples_from(b, 0, n).len() as int;
        let left = samples::left_over(b.len(), n) as int;
        assert(left == b.len() as int % (2 * n as int));
        assert(count == b.len() as int / (2 * n as int)) by (nonlinear_arith)
            requires
                count * (2 * n) + left == b.len(),
                left == b.len() as int % (2 * n as int),
                n > 0,
        ;
    }
}

// ---- metadata

/// The path that is used is that of the first candidate that exists.
pub proof fn law_first_candidate(list: Seq<Candidate>, k: int)
    ensures
        0 <= k < list.len() && list[k].exists && (forall|j: int|
            0 <= j < k ==> !(#[trigger] list[j]).exists) ==> metadata::first_existing(list) == Some(
            list[k].path@,
        ),
        (forall|j: int| 0 <= j < list.len() ==> !(#[trigger] list[j]).exists)
            ==> metadata::first_existing(list) is None,
    decreases list.len(),
{
    if list.len() > 0 {
        let rest = list.skip(1);
        assert(forall|j: int| 0 <= j < rest.len() ==> rest[j] == list[j + 1]);
        law_first_candidate(rest, k - 1);
    }
}

/// A register of a chip joins the catalog, and its addresses are marked by whether it may be dumped.
pub proof fn law_entered_register(c: CatalogView, p: PageRegister, a: u32)
    requires
        metadata::register_fits(p),
    ensures
        ({
            let after = metadata::entered(c, p);
            let width = if p.register.width == 0 {
                1
            } else {
                p.register.width as int
            };
            let r = p.register.on_page(p.page@);
            &&& r.page == p.page@ && r.name == p.register.name@ && r.addr == p.register.addr
            &&& after.regs == catalog::with_register(c.regs, r)
            &&& p.register.addr <= a && a < p.register.addr + width ==> after.marks.contains_key(a)
                && after.marks[a] == !p.register.no_dump
            &&& a < p.register.addr || a >= p.register.addr + width ==> after.marks.contains_key(a)
                == c.marks.contains_key(a) && (c.marks.contains_key(a) ==> after.marks[a]
                == c.marks[a])
        }),
{
    let r = p.register.on_page(p.page@);
    catalog::law_marks(
        c.marks,
        r.addr,
        catalog::byte_width(r) as nat,
        !p.register.no_dump,
        a,
    );
}

/// The registers of chips are entered chip by chip and one after the other; the first chip that
/// cannot be read stands for all, under its own name or that of the source that names it.
pub proof fn law_entered_chips(
    c: CatalogView,
    chips: Seq<ChipRead>,
    chip: ChipRead,
    source: Option<Seq<char>>,
)
    ensures
        metadata::with_chips(c, Seq::empty(), source) == Ok::<CatalogView, Seq<char>>(c),
        metadata::with_chips(c, chips, source) matches Err(e) ==> metadata::with_chips(
            c,
            chips.push(chip),
            source,
        ) == Err::<CatalogView, Seq<char>>(e),
        metadata::with_chips(c, chips, source) matches Ok(done) ==> (match chip.registers {
            Ok(list) => metadata::with_chips(c, chips.push(chip), source) == Ok::<
                CatalogView,
                Seq<char>,
            >(metadata::entered_all(done, list@)),
            Err(e) => metadata::with_chips(c, chips.push(chip), source) == Err::<
                CatalogView,
                Seq<char>,
            >(
                (if source is Some {
                    source->Some_0
                } else {
                    chip.path@
                }) + ": "@ + e@,
            ),
        }),
{
    assert(chips.push(chip).drop_last() =~= chips);
}

/// Registers are entered in their order.
pub proof fn law_entered_registers(c: CatalogView, list: Seq<PageRegister>, p: PageRegister)
    ensures
        metadata::entered_all(c, Seq::empty()) == c,
        metadata::entered_all(c, list.push(p)) == metadata::entered(
            metadata::entered_all(c, list),
            p,
        ),
{
    assert(list.push(p).drop_last() =~= list);
}

// ---- ports and lines

/// What is told of a port: its type, then what is known of its identity, its maker and its serial
/// number.
pub proof fn law_port_parts(p: SerialPort)
    ensures
        ({
            let none = Seq::<Seq<char>>::empty();
            ports::port_parts(p) == seq![p.port_type@] + (if p.vid is Some && p.pid is Some {
                seq![
                    text::hex(p.vid->Some_0 as nat, 4) + ":"@ + text::hex(
                        p.pid->Some_0 as nat,
                        4,
                    ),
                ]
            } else {
                none
            }) + (if p.manufacturer is Some && p.manufacturer->Some_0@.len() > 0 {
                seq![p.manufacturer->Some_0@]
            } else {
                none
            }) + (if p.serial_number is Some && p.serial_number->Some_0@.len() > 0 {
                seq!["sn="@ + p.serial_number->Some_0@]
            } else {
                none
            })
        }),
{
}

/// The two ends of a pipe are different ones.
pub proof fn law_other_end()
    ensures
        transport::other(End::A) == End::B,
        transport::other(End::B) == End::A,
{
}

/// What was written is what each write wrote, one after the other.
pub proof fn law_joined_writes(writes: Seq<Seq<u8>>, data: Seq<u8>)
    ensures
        transport::joined(Seq::empty()) == Seq::<u8>::empty(),
        transport::joined(writes.push(data)) == transport::joined(writes) + data,
{
    assert(writes.push(data).drop_last() =~= writes);
}

// ---- paths

proof fn lemma_plain_base(path: Seq<char>)
    requires
        path.len() > 0,
        path.last() != '/',
        path.last() != '.',
    ensures
        capture_meta::path_base(path) == path,
{
}

/// What is kept beside a capture is named by the path of the capture with `.json` behind it.
pub proof fn law_path_beside(path: Seq<char>)
    requires
        path.len() > 0,
        path.last() != '/',
        path.last() != '.',
    ensures
        capture_meta::beside(path) == path + ".json"@,
        capture_meta::beside(path.push('/')) == path + ".json"@,
{
    reveal_strlit(".");
    reveal_strlit("..");
    lemma_plain_base(path);
    let slashed = path.push('/');
    assert(slashed.drop_last() =~= path);
    assert(path != "."@ && path != ".."@) by {
        assert("."@.last() == '.');
        assert(".."@.last() == '.');
    }
}

/// A file is a capture by its ending `.bin`, behind a name.
pub proof fn law_capture_path(path: Seq<char>)
    requires
        path.len() > 0,
        path.last() != '/',
        path.last() != '.',
    ensures
        capture_meta::is_capture(path) <==> path.len() > 4 && path[path.len() - 4] == '.'
            && path[path.len() - 3] == 'b' && path[path.len() - 2] == 'i' && path.last() == 'n'
            && path[path.len() - 5] != '/',
{
    reveal_strlit(".bin");
    lemma_plain_base(path);
    if path.len() > 4 {
        let end = path.subrange(path.len() - 4, path.len() as int);
        if path[path.len() - 4] == '.' && path[path.len() - 3] == 'b' && path[path.len() - 2] == 'i'
            && path.last() == 'n' {
            assert(end =~= ".bin"@);
        }
        if end == ".bin"@ {
            assert(end[0] == '.' && end[1] == 'b' && end[2] == 'i' && end[3] == 'n');
            assert(end[0] == path[path.len() - 4]);
            assert(end[1] == path[path.len() - 3]);
            assert(end[2] == path[path.len() - 2]);
            assert(end[3] == path[path.len() - 1]);
        }
    }
}

/// A source adds the decoders that it declares and the registers of the chips that it names; one that
/// cannot be parsed, or whose declarations or chips have a fault, is told by its name.
pub proof fn law_metadata_of_a_source(
    values: Seq<(String, u32)>,
    m: MetadataView,
    s: SourceRead,
)
    ensures
        ({
            let r = metadata::with_source(values, m, s);
            &&& s.stmts matches Err(f) ==> r == Err::<MetadataView, Seq<char>>(
                "could not parse "@ + s.name@ + ": "@ + f.message@ + " at bytes "@ + text::dec(
                    f.start as nat,
                ) + ".."@ + text::dec(f.end as nat),
            )
            &&& s.stmts matches Ok(stmts) ==> {
                let c = program::after_stmts(
                    values,
                    stmts@,
                    Collected { decoders: m.decoders, error: None },
                );
                let chips = metadata::with_chips(m.registers, s.chips@, Some(s.name@));
                &&& c.error matches Some(e) ==> r == Err::<MetadataView, Seq<char>>(
                    s.name@ + ": "@ + e,
                )
                &&& c.error is None ==> (match chips {
                    Ok(registers) => r == Ok::<MetadataView, Seq<char>>(
                        MetadataView { registers, decoders: c.decoders },
                    ),
                    Err(e) => r == Err::<MetadataView, Seq<char>>(e),
                })
            }
        }),
{
}

/// Metadata is gathered from the chips that are named first, and then from the sources in their
/// order, up to the first fault.
pub proof fn law_gathered_metadata(
    values: Seq<(String, u32)>,
    m: MetadataView,
    sources: Seq<SourceRead>,
    s: SourceRead,
    chips: Seq<ChipRead>,
)
    ensures
        metadata::with_sources(values, m, Seq::empty()) == Ok::<MetadataView, Seq<char>>(m),
        metadata::with_sources(values, m, sources) matches Ok(done) ==> metadata::with_sources(
            values,
            m,
            sources.push(s),
        ) == metadata::with_source(values, done, s),
        metadata::with_sources(values, m, sources) matches Err(e) ==> metadata::with_sources(
            values,
            m,
            sources.push(s),
        ) == Err::<MetadataView, Seq<char>>(e),
        ({
            let none = CatalogView { marks: Map::empty(), regs: Seq::empty() };
            match metadata::with_chips(none, chips, None) {
                Ok(registers) => metadata::metadata_of(values, sources, chips)
                    == metadata::with_sources(
                    values,
                    MetadataView { registers, decoders: Map::empty() },
                    sources,
                ),
                Err(e) => metadata::metadata_of(values, sources, chips) == Err::<
                    MetadataView,
                    Seq<char>,
                >(e),
            }
        }),
{
    assert(sources.push(s).drop_last() =~= sources);
}

/// A slash at the end of a path, with a dot behind it or without, does not count; a dot at the end
/// of a name gives way to the ending; and a path without a name stays as it is.
pub proof fn law_paths_without_a_plain_end(path: Seq<char>)
    requires
        path.len() > 0,
        path.last() != '/',
        path.last() != '.',
    ensures
        capture_meta::beside(path + seq!['/', '.']) == path + ".json"@,
        capture_meta::beside(path + seq!['.']) == path + ".json"@,
        capture_meta::beside(path + seq!['/', '.', '.']) == path + seq!['/', '.', '.'],
        capture_meta::beside(seq!['.']) == seq!['.'],
        capture_meta::beside(seq!['.', '.']) == seq!['.', '.'],
        capture_meta::beside(seq!['/']) == seq!['/'],
        capture_meta::is_capture(path + seq!['/']) == capture_meta::is_capture(path),
{
    reveal_strlit(".");
    reveal_strlit("..");
    reveal_strlit(".json");
    let n = path.len() as int;
    lemma_plain_base(path);
    let a = path + seq!['/', '.'];
    assert(a.last() == '.' && a[a.len() - 2] == '/');
    let slashed = path.push('/');
    assert(a.drop_last() =~= slashed);
    assert(slashed.drop_last() =~= path);
    assert(capture_meta::path_base(slashed) == path);
    assert(capture_meta::path_base(a) == path);
    assert(path != "."@ && path != ".."@) by {
        assert("."@.last() == '.');
        assert(".."@.last() == '.');
    }
    let b = path + seq!['.'];
    assert(b.last() == '.' && b[b.len() - 2] == path.last());
    assert(b.drop_last() =~= path);
    assert(capture_meta::path_base(b) == b);
    assert(b != "."@ && b != ".."@) by {
        assert("."@.len() == 1);
        assert(".."@[0] == '.' && ".."@.len() == 2);
        assert(b[n - 1] == path.last());
    }
    let c = path + seq!['/', '.', '.'];
    assert(c.last() == '.' && c[c.len() - 2] == '.' && c[c.len() - 3] == '/');
    assert(capture_meta::path_base(c) == c);
    assert(capture_meta::path_base(seq!['.']) =~= "."@);
    assert(capture_meta::path_base(seq!['.', '.']) =~= ".."@);
    assert(seq!['/'].drop_last() =~= Seq::<char>::empty());
    assert(capture_meta::path_base(Seq::<char>::empty()) == Seq::<char>::empty());
    assert(seq!['/'].last() == '/');
    assert(capture_meta::path_base(seq!['/']) == Seq::<char>::empty());
    assert(path + seq!['/'] =~= slashed);
}

} // verus!
