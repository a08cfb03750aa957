//! Decoders as sources declare them: by name and options.
use crate::decoder;
use crate::decoder::{
    I16LeReportDecoder, ReportDecoder, ReportOutputMode, Scale, DEFAULT_ACCEL_FULL_SCALE_G,
    DEFAULT_GYRO_FULL_SCALE_DPS, DEFAULT_TEMP_LSB_PER_C, DEFAULT_TEMP_OFFSET_C,
};
use crate::decoder::DecoderView;
use crate::text;
use crate::text::{copy_texts, same_text};
use vstd::prelude::*;

verus! {

/// The value of an option.
#[derive(Debug, Clone, PartialEq, Eq)]
pub enum ReportOptionValue {
    Number(i64),
    Ident(String),
    IdentArray(Vec<String>),
}

/// An option of a decoder: its name and its value.
pub type ReportOption = (String, ReportOptionValue);

/// Why an option does not fit.
pub open spec fn misfit(decoder: Seq<char>, option: Seq<char>, expected: Seq<char>) -> Seq<char> {
    decoder + " option '"@ + option + "' must be "@ + expected
}

fn misfit_text(decoder: &str, option: &str, expected: &str) -> (e: String)
    ensures
        e@ == misfit(decoder@, option@, expected@),
{
    let mut e: String = decoder.to_owned();
    e.push_str(" option '");
    e.push_str(option);
    e.push_str("' must be ");
    e.push_str(expected);
    e
}

/// The number that an option gives.
pub open spec fn number_of(decoder: Seq<char>, option: Seq<char>, value: ReportOptionValue) -> Result<
    Scale,
    Seq<char>,
> {
    match value {
        ReportOptionValue::Number(n) => Ok(Scale::Whole(n)),
        _ => Err(misfit(decoder, option, "a number"@)),
    }
}

/// The identifiers that an option gives.
pub open spec fn idents_of(decoder: Seq<char>, option: Seq<char>, value: ReportOptionValue) -> Result<
    Seq<Seq<char>>,
    Seq<char>,
> {
    match value {
        ReportOptionValue::IdentArray(v) => Ok(text::texts(v@)),
        _ => Err(misfit(decoder, option, "an identifier array"@)),
    }
}

/// The identifier that an option gives.
pub open spec fn ident_of(decoder: Seq<char>, option: Seq<char>, value: ReportOptionValue) -> Result<
    Seq<char>,
    Seq<char>,
> {
    match value {
        ReportOptionValue::Ident(v) => Ok(v@),
        _ => Err(misfit(decoder, option, "an identifier"@)),
    }
}

/// The output mode that an option gives.
pub open spec fn mode_of(decoder: Seq<char>, option: Seq<char>, value: ReportOptionValue) -> Result<
    ReportOutputMode,
    Seq<char>,
> {
    match ident_of(decoder, option, value) {
        Err(e) => Err(e),
        Ok(v) => if v == "physical_f32"@ {
            Ok(ReportOutputMode::PhysicalF32)
        } else if v == "raw_i16"@ {
            Ok(ReportOutputMode::RawI16)
        } else {
            Err(misfit(decoder, option, "physical_f32 or raw_i16, got '"@ + v + "'"@))
        },
    }
}

/// The number that an option gives.
pub fn option_number(decoder: &str, option: &str, value: &ReportOptionValue) -> (r: Result<
    Scale,
    String,
>)
    ensures
        (match r {
            Ok(v) => Ok(v),
            Err(e) => Err(e@),
        }) == number_of(decoder@, option@, *value),
{
    match value {
        ReportOptionValue::Number(n) => Ok(Scale::Whole(*n)),
        _ => Err(misfit_text(decoder, option, "a number")),
    }
}

/// The identifiers that an option gives.
pub fn option_ident_array(decoder: &str, option: &str, value: &ReportOptionValue) -> (r: Result<
    Vec<String>,
    String,
>)
    ensures
        (match r {
            Ok(v) => Ok(text::texts(v@)),
            Err(e) => Err(e@),
        }) == idents_of(decoder@, option@, *value),
{
    match value {
        ReportOptionValue::IdentArray(v) => Ok(copy_texts(v)),
        _ => Err(misfit_text(decoder, option, "an identifier array")),
    }
}

/// The identifier that an option gives.
pub fn option_ident(decoder: &str, option: &str, value: &ReportOptionValue) -> (r: Result<
    String,
    String,
>)
    ensures
        (match r {
            Ok(v) => Ok(v@),
            Err(e) => Err(e@),
        }) == ident_of(decoder@, option@, *value),
{
    match value {
        ReportOptionValue::Ident(v) => Ok(v.clone()),
        _ => Err(misfit_text(decoder, option, "an identifier")),
    }
}

/// The output mode that an option gives.
pub fn option_output_mode(decoder: &str, option: &str, value: &ReportOptionValue) -> (r: Result<
    ReportOutputMode,
    String,
>)
    ensures
        (match r {
            Ok(v) => Ok(v),
            Err(e) => Err(e@),
        }) == mode_of(decoder@, option@, *value),
{
    let v = match option_ident(decoder, option, value) {
        Ok(v) => v,
        Err(e) => return Err(e),
    };
    if same_text(v.as_str(), "physical_f32") {
        Ok(ReportOutputMode::PhysicalF32)
    } else if same_text(v.as_str(), "raw_i16") {
        Ok(ReportOutputMode::RawI16)
    } else {
        let mut expected: String = "physical_f32 or raw_i16, got '".to_owned();
        expected.push_str(v.as_str());
        expected.push_str("'");
        Err(misfit_text(decoder, option, expected.as_str()))
    }
}

/// A decoder with the numbers and the mode that hold where no option says otherwise.
pub open spec fn plain_decoder(
    label: Seq<char>,
    fields: Seq<Seq<char>>,
    gyro: Seq<Seq<char>>,
    accel: Seq<Seq<char>>,
) -> DecoderView {
    DecoderView {
        label,
        fields,
        accel_fields: accel,
        gyro_fields: gyro,
        temp_field: None,
        accel_fs_g: Scale::Whole(DEFAULT_ACCEL_FULL_SCALE_G),
        gyro_fs_dps: Scale::Whole(DEFAULT_GYRO_FULL_SCALE_DPS),
        temp_lsb_per_c: Scale::Whole(DEFAULT_TEMP_LSB_PER_C),
        temp_offset_c: Scale::Whole(DEFAULT_TEMP_OFFSET_C),
        output: ReportOutputMode::PhysicalF32,
    }
}

/// The names of the options that a decoder takes, as reasons list them.
pub open spec fn known_options(decoder: Seq<char>) -> Seq<char> {
    if decoder == "i16_le"@ {
        "fields, accel_fields, gyro_fields, temp_field, accel_fs_g, gyro_fs_dps, temp_lsb_per_c, temp_offset_c, or output"@
    } else {
        "accel_fs_g, gyro_fs_dps, or output"@
    }
}

/// The decoder `d` after one option.
pub open spec fn with_option(decoder: Seq<char>, d: DecoderView, option: ReportOption) -> Result<
    DecoderView,
    Seq<char>,
> {
    let name = option.0@;
    let any = decoder == "i16_le"@;
    if any && name == "fields"@ {
        match idents_of(decoder, name, option.1) {
            Ok(v) => Ok(DecoderView { fields: v, ..d }),
            Err(e) => Err(e),
        }
    } else if any && name == "accel_fields"@ {
        match idents_of(decoder, name, option.1) {
            Ok(v) => Ok(DecoderView { accel_fields: v, ..d }),
            Err(e) => Err(e),
        }
    } else if any && name == "gyro_fields"@ {
        match idents_of(decoder, name, option.1) {
            Ok(v) => Ok(DecoderView { gyro_fields: v, ..d }),
            Err(e) => Err(e),
        }
    } else if any && name == "temp_field"@ {
        match ident_of(decoder, name, option.1) {
            Ok(v) => Ok(DecoderView { temp_field: Some(v), ..d }),
            Err(e) => Err(e),
        }
    } else if name == "accel_fs_g"@ {
        match number_of(decoder, name, option.1) {
            Ok(v) => Ok(DecoderView { accel_fs_g: v, ..d }),
            Err(e) => Err(e),
        }
    } else if name == "gyro_fs_dps"@ {
        match number_of(decoder, name, option.1) {
            Ok(v) => Ok(DecoderView { gyro_fs_dps: v, ..d }),
            Err(e) => Err(e),
        }
    } else if any && name == "temp_lsb_per_c"@ {
        match number_of(decoder, name, option.1) {
            Ok(v) => Ok(DecoderView { temp_lsb_per_c: v, ..d }),
            Err(e) => Err(e),
        }
    } else if any && name == "temp_offset_c"@ {
        match number_of(decoder, name, option.1) {
            Ok(v) => Ok(DecoderView { temp_offset_c: v, ..d }),
            Err(e) => Err(e),
        }
    } else if name == "output"@ {
        match mode_of(decoder, name, option.1) {
            Ok(v) => Ok(DecoderView { output: v, ..d }),
            Err(e) => Err(e),
        }
    } else {
        Err(
            "unknown "@ + decoder + " option '"@ + name + "', expected "@ + known_options(decoder),
        )
    }
}

/// The decoder `d` after the options in order: a later one overrides an earlier one,
/// and the first that does not fit decides.
pub open spec fn with_options(
    decoder: Seq<char>,
    d: DecoderView,
    options: Seq<ReportOption>,
) -> Result<DecoderView, Seq<char>>
    decreases options.len(),
{
    if options.len() == 0 {
        Ok(d)
    } else {
        match with_options(decoder, d, options.drop_last()) {
            Ok(d) => with_option(decoder, d, options.last()),
            Err(e) => Err(e),
        }
    }
}

/// Whether there is an option of that name.
pub open spec fn gives(options: Seq<ReportOption>, name: Seq<char>) -> bool {
    exists|i: int| 0 <= i < options.len() && (#[trigger] options[i]).0@ == name
}

/// The fields of the samples that `qmi8660_fifo6` stands for.
pub open spec fn fifo6_fields() -> Seq<Seq<char>> {
    seq!["gx"@, "gy"@, "gz"@, "ax"@, "ay"@, "az"@]
}

/// The decoder that a source declares by name and options, or why there is none.
pub open spec fn declared(decoder: Seq<char>, options: Seq<ReportOption>) -> Result<
    DecoderView,
    Seq<char>,
> {
    if decoder == "i16_le"@ {
        match with_options(
            decoder,
            plain_decoder(decoder, Seq::empty(), Seq::empty(), Seq::empty()),
            options,
        ) {
            Err(e) => Err(e),
            Ok(d) => if !gives(options, "fields"@) {
                Err("i16_le report decoder requires fields: [...]"@)
            } else {
                decoder::checked(d)
            },
        }
    } else if decoder == "qmi8660_fifo6"@ {
        match with_options(
            decoder,
            plain_decoder(
                decoder,
                fifo6_fields(),
                seq!["gx"@, "gy"@, "gz"@],
                seq!["ax"@, "ay"@, "az"@],
            ),
            options,
        ) {
            Err(e) => Err(e),
            Ok(d) => decoder::checked(d),
        }
    } else {
        Err("unknown report decoder '"@ + decoder + "', expected i16_le or qmi8660_fifo6"@)
    }
}

fn apply_option(
    decoder: &str,
    any: bool,
    d: &mut I16LeReportDecoder,
    option: &ReportOption,
) -> (r: Result<(), String>)
    requires
        any == (decoder@ == "i16_le"@),
    ensures
        match r {
            Ok(()) => with_option(decoder@, old(d).view(), *option) == Ok::<DecoderView, Seq<char>>(
                final(d).view(),
            ),
            Err(e) => with_option(decoder@, old(d).view(), *option) == Err::<
                DecoderView,
                Seq<char>,
            >(e@),
        },
{
    let name: &str = option.0.as_str();
    let value: &ReportOptionValue = &option.1;
    if any && same_text(name, "fields") {
        match option_ident_array(decoder, name, value) {
            Ok(v) => {
                d.fields = v;
                Ok(())
            },
            Err(e) => Err(e),
        }
    } else if any && same_text(name, "accel_fields") {
        match option_ident_array(decoder, name, value) {
            Ok(v) => {
                d.accel_fields = v;
                Ok(())
            },
            Err(e) => Err(e),
        }
    } else if any && same_text(name, "gyro_fields") {
        match option_ident_array(decoder, name, value) {
            Ok(v) => {
                d.gyro_fields = v;
                Ok(())
            },
            Err(e) => Err(e),
        }
    } else if any && same_text(name, "temp_field") {
        match option_ident(decoder, name, value) {
            Ok(v) => {
                d.temp_field = Some(v);
                Ok(())
            },
            Err(e) => Err(e),
        }
    } else if same_text(name, "accel_fs_g") {
        match option_number(decoder, name, value) {
            Ok(v) => {
                d.accel_fs_g = v;
                Ok(())
            },
            Err(e) => Err(e),
        }
    } else if same_text(name, "gyro_fs_dps") {
        match option_number(decoder, name, value) {
            Ok(v) => {
                d.gyro_fs_dps = v;
                Ok(())
            },
            Err(e) => Err(e),
        }
    } else if any && same_text(name, "temp_lsb_per_c") {
        match option_number(decoder, name, value) {
            Ok(v) => {
                d.temp_lsb_per_c = v;
                Ok(())
            },
            Err(e) => Err(e),
        }
    } else if any && same_text(name, "temp_offset_c") {
        match option_number(decoder, name, value) {
            Ok(v) => {
                d.temp_offset_c = v;
                Ok(())
            },
            Err(e) => Err(e),
        }
    } else if same_text(name, "output") {
        match option_output_mode(decoder, name, value) {
            Ok(v) => {
                d.output = v;
                Ok(())
            },
            Err(e) => Err(e),
        }
    } else {
        let mut e: String = "unknown ".to_owned();
        e.push_str(decoder);
        e.push_str(" option '");
        e.push_str(name);
        e.push_str("', expected ");
        if any {
            e.push_str("fields, accel_fields, gyro_fields, temp_field, accel_fs_g, gyro_fs_dps, temp_lsb_per_c, temp_offset_c, or output");
        } else {
            e.push_str("accel_fs_g, gyro_fs_dps, or output");
        }
        Err(e)
    }
}

proof fn lemma_misfit_stays(decoder: Seq<char>, d: DecoderView, options: Seq<ReportOption>, i: int)
    requires
        0 <= i <= options.len(),
        with_options(decoder, d, options.take(i)) is Err,
    ensures
        with_options(decoder, d, options) == with_options(decoder, d, options.take(i)),
    decreases options.len() - i,
{
    if i < options.len() {
        assert(options.take(i + 1).drop_last() =~= options.take(i));
        lemma_misfit_stays(decoder, d, options, i + 1);
    } else {
        assert(options.take(i) =~= options);
    }
}

fn apply_options(
    decoder: &str,
    any: bool,
    d: &mut I16LeReportDecoder,
    options: &[ReportOption],
) -> (r: Result<bool, String>)
    requires
        any == (decoder@ == "i16_le"@),
    ensures
        match r {
            Ok(b) => with_options(decoder@, old(d).view(), options@) == Ok::<
                DecoderView,
                Seq<char>,
            >(final(d).view()) && b == gives(options@, "fields"@),
            Err(e) => with_options(decoder@, old(d).view(), options@) == Err::<
                DecoderView,
                Seq<char>,
            >(e@),
        },
{
    let mut seen: bool = false;
    let mut i: usize = 0;
    while i < options.len()
        invariant
            i <= options.len(),
            any == (decoder@ == "i16_le"@),
            with_options(decoder@, old(d).view(), options@.take(i as int)) == Ok::<
                DecoderView,
                Seq<char>,
            >(d.view()),
            seen == gives(options@.take(i as int), "fields"@),
        decreases options.len() - i,
    {
        assert(options@.take(i + 1).drop_last() =~= options@.take(i as int));
        match apply_option(decoder, any, d, &options[i]) {
            Ok(()) => {},
            Err(e) => {
                proof {
                    lemma_misfit_stays(decoder@, old(d).view(), options@, i + 1);
                }
                return Err(e);
            },
        }
        proof {
            let next = options@.take(i + 1);
            if gives(options@.take(i as int), "fields"@) {
                let k = choose|k: int|
                    0 <= k < options@.take(i as int).len() && (#[trigger] options@.take(
                        i as int,
                    )[k]).0@ == "fields"@;
                assert(next[k].0@ == "fields"@);
            }
            if gives(next, "fields"@) {
                let k = choose|k: int| 0 <= k < next.len() && (#[trigger] next[k]).0@ == "fields"@;
                if k < i {
                    assert(options@.take(i as int)[k].0@ == "fields"@);
                }
            }
            assert(next[i as int] == options@[i as int]);
        }
        if same_text(options[i].0.as_str(), "fields") {
            seen = true;
        }
        i += 1;
    }
    assert(options@.take(options@.len() as int) =~= options@);
    Ok(seen)
}

fn plain(label: &str, fields: Vec<String>, gyro_fields: Vec<String>, accel_fields: Vec<String>) -> (d:
    I16LeReportDecoder)
    ensures
        d.view() == plain_decoder(
            label@,
            text::texts(fields@),
            text::texts(gyro_fields@),
            text::texts(accel_fields@),
        ),
{
    I16LeReportDecoder {
        label: label.to_owned(),
        fields,
        accel_fields,
        gyro_fields,
        temp_field: None,
        accel_fs_g: Scale::Whole(DEFAULT_ACCEL_FULL_SCALE_G),
        gyro_fs_dps: Scale::Whole(DEFAULT_GYRO_FULL_SCALE_DPS),
        temp_lsb_per_c: Scale::Whole(DEFAULT_TEMP_LSB_PER_C),
        temp_offset_c: Scale::Whole(DEFAULT_TEMP_OFFSET_C),
        output: ReportOutputMode::PhysicalF32,
    }
}

fn three(a: &str, b: &str, c: &str) -> (v: Vec<String>)
    ensures
        text::texts(v@) == seq![a@, b@, c@],
{
    let mut v: Vec<String> = Vec::new();
    v.push(a.to_owned());
    v.push(b.to_owned());
    v.push(c.to_owned());
    assert(text::texts(v@) =~= seq![a@, b@, c@]);
    v
}

/// The decoder that a source declares by name and options.
pub fn build_report_decoder(decoder: &str, options: &[ReportOption]) -> (r: Result<
    ReportDecoder,
    String,
>)
    ensures
        decoder::decoder_result(r) == declared(decoder@, options@),
{
    if same_text(decoder, "i16_le") {
        let none: Vec<String> = Vec::new();
        let mut d = plain(decoder, Vec::new(), Vec::new(), Vec::new());
        assert(text::texts(none@) =~= Seq::<Seq<char>>::empty());
        match apply_options(decoder, true, &mut d, options) {
            Err(e) => Err(e),
            Ok(seen) => {
                if !seen {
                    return Err("i16_le report decoder requires fields: [...]".to_owned());
                }
                checked_decoder(d)
            },
        }
    } else if same_text(decoder, "qmi8660_fifo6") {
        let mut fields = three("gx", "gy", "gz");
        let ghost first = text::texts(fields@);
        fields.push("ax".to_owned());
        fields.push("ay".to_owned());
        fields.push("az".to_owned());
        assert(text::texts(fields@) =~= first.push("ax"@).push("ay"@).push("az"@));
        assert(text::texts(fields@) =~= fifo6_fields());
        let mut d = plain(decoder, fields, three("gx", "gy", "gz"), three("ax", "ay", "az"));
        proof {
            reveal_strlit("i16_le");
            reveal_strlit("qmi8660_fifo6");
            assert("i16_le"@.len() != "qmi8660_fifo6"@.len());
        }
        match apply_options(decoder, false, &mut d, options) {
            Err(e) => Err(e),
            Ok(_) => checked_decoder(d),
        }
    } else {
        let mut e: String = "unknown report decoder '".to_owned();
        e.push_str(decoder);
        e.push_str("', expected i16_le or qmi8660_fifo6");
        Err(e)
    }
}

fn checked_decoder(d: I16LeReportDecoder) -> (r: Result<ReportDecoder, String>)
    ensures
        decoder::decoder_result(r) == decoder::checked(d.view()),
{
    match d.validate() {
        Ok(()) => Ok(ReportDecoder::I16Le(d)),
        Err(e) => Err(e),
    }
}

/// Every decoder that a source can declare is usable.
pub proof fn law_declared_is_usable(decoder: Seq<char>, options: Seq<ReportOption>)
    ensures
        declared(decoder, options) matches Ok(d) ==> decoder::decoder_fault(d) is None,
{
}

proof fn lemma_fifo6_fields_stay(d: DecoderView, options: Seq<ReportOption>)
    ensures
        with_options("qmi8660_fifo6"@, d, options) matches Ok(e) ==> {
            &&& e.fields == d.fields
            &&& e.gyro_fields == d.gyro_fields
            &&& e.accel_fields == d.accel_fields
            &&& e.temp_field == d.temp_field
        },
    decreases options.len(),
{
    reveal_strlit("i16_le");
    reveal_strlit("qmi8660_fifo6");
    assert("i16_le"@.len() != "qmi8660_fifo6"@.len());
    if options.len() > 0 {
        lemma_fifo6_fields_stay(d, options.drop_last());
    }
}

/// The decoder `qmi8660_fifo6` is usable with any options that fit it.
pub proof fn law_fifo6_is_usable(options: Seq<ReportOption>)
    ensures
        declared("qmi8660_fifo6"@, options) is Ok <==> with_options(
            "qmi8660_fifo6"@,
            plain_decoder(
                "qmi8660_fifo6"@,
                fifo6_fields(),
                seq!["gx"@, "gy"@, "gz"@],
                seq!["ax"@, "ay"@, "az"@],
            ),
            options,
        ) is Ok,
{
    reveal_strlit("i16_le");
    reveal_strlit("qmi8660_fifo6");
    assert("i16_le"@.len() != "qmi8660_fifo6"@.len());
    let gyro = seq!["gx"@, "gy"@, "gz"@];
    let accel = seq!["ax"@, "ay"@, "az"@];
    let all = fifo6_fields();
    lemma_fifo6_fields_stay(plain_decoder("qmi8660_fifo6"@, all, gyro, accel), options);
    reveal_strlit("gx");
    reveal_strlit("gy");
    reveal_strlit("gz");
    reveal_strlit("ax");
    reveal_strlit("ay");
    reveal_strlit("az");
    assert("gx"@[0] == 'g' && "gy"@[0] == 'g' && "gz"@[0] == 'g');
    assert("ax"@[0] == 'a' && "ay"@[0] == 'a' && "az"@[0] == 'a');
    assert("gx"@[1] == 'x' && "gy"@[1] == 'y' && "gz"@[1] == 'z');
    assert("ax"@[1] == 'x' && "ay"@[1] == 'y' && "az"@[1] == 'z');
    lemma_no_repeat(all, 6);
    assert(all.take(6) =~= all);
    let scaled = gyro + accel;
    assert(scaled =~= all);
    lemma_none_missing(scaled, all);
}

/// Whether an option fits `qmi8660_fifo6`.
pub open spec fn fits_fifo6(option: ReportOption) -> bool {
    let name = option.0@;
    ||| (name == "accel_fs_g"@ || name == "gyro_fs_dps"@) && option.1 is Number
    ||| name == "output"@ && (option.1 matches ReportOptionValue::Ident(v) && (v@
        == "physical_f32"@ || v@ == "raw_i16"@))
}

/// Whether an option gives names under the given name.
pub open spec fn lists(option: ReportOption, name: Seq<char>, names: Seq<Seq<char>>) -> bool {
    option.0@ == name && (option.1 matches ReportOptionValue::IdentArray(v) && text::texts(v@)
        == names)
}

proof fn lemma_option_names()
    ensures
        "i16_le"@ != "qmi8660_fifo6"@,
        "accel_fs_g"@ != "fields"@ && "accel_fs_g"@ != "accel_fields"@ && "accel_fs_g"@
            != "gyro_fields"@ && "accel_fs_g"@ != "temp_field"@,
        "gyro_fs_dps"@ != "fields"@ && "gyro_fs_dps"@ != "accel_fields"@ && "gyro_fs_dps"@
            != "gyro_fields"@ && "gyro_fs_dps"@ != "temp_field"@ && "gyro_fs_dps"@ != "accel_fs_g"@,
        "output"@ != "fields"@ && "output"@ != "accel_fields"@ && "output"@ != "gyro_fields"@
            && "output"@ != "temp_field"@ && "output"@ != "accel_fs_g"@ && "output"@
            != "gyro_fs_dps"@ && "output"@ != "temp_lsb_per_c"@ && "output"@ != "temp_offset_c"@,
        "gyro_fields"@ != "fields"@ && "gyro_fields"@ != "accel_fields"@ && "accel_fields"@
            != "fields"@,
{
    reveal_strlit("i16_le");
    reveal_strlit("qmi8660_fifo6");
    reveal_strlit("fields");
    reveal_strlit("accel_fields");
    reveal_strlit("gyro_fields");
    reveal_strlit("temp_field");
    reveal_strlit("accel_fs_g");
    reveal_strlit("gyro_fs_dps");
    reveal_strlit("temp_lsb_per_c");
    reveal_strlit("temp_offset_c");
    reveal_strlit("output");
    assert("i16_le"@.len() == 6 && "qmi8660_fifo6"@.len() == 13);
    assert("accel_fs_g"@.len() == 10 && "temp_field"@.len() == 10);
    assert("accel_fs_g"@[0] == 'a' && "temp_field"@[0] == 't');
    assert("gyro_fs_dps"@.len() == 11 && "gyro_fields"@.len() == 11);
    assert("gyro_fs_dps"@[6] == 's' && "gyro_fields"@[6] == 'i');
    assert("output"@.len() == 6 && "fields"@.len() == 6);
    assert("output"@[0] == 'o' && "fields"@[0] == 'f');
    assert("accel_fields"@.len() == 12);
    assert("temp_lsb_per_c"@.len() == 14 && "temp_offset_c"@.len() == 13);
}

proof fn lemma_fifo6_options(options: Seq<ReportOption>, d: DecoderView, e: DecoderView)
    requires
        forall|i: int| 0 <= i < options.len() ==> fits_fifo6(#[trigger] options[i]),
        e == (DecoderView {
            label: e.label,
            fields: e.fields,
            gyro_fields: e.gyro_fields,
            accel_fields: e.accel_fields,
            ..d
        }),
    ensures
        with_options("qmi8660_fifo6"@, d, options) matches Ok(x) && with_options(
            "i16_le"@,
            e,
            options,
        ) == Ok::<DecoderView, Seq<char>>(
            DecoderView {
                label: e.label,
                fields: e.fields,
                gyro_fields: e.gyro_fields,
                accel_fields: e.accel_fields,
                ..x
            },
        ) && x.label == d.label && x.temp_field == d.temp_field && x.temp_lsb_per_c
            == d.temp_lsb_per_c && x.temp_offset_c == d.temp_offset_c && (!gives(
            options,
            "accel_fs_g"@,
        ) ==> x.accel_fs_g == d.accel_fs_g) && (!gives(options, "gyro_fs_dps"@) ==> x.gyro_fs_dps
            == d.gyro_fs_dps) && (!gives(options, "output"@) ==> x.output == d.output),
    decreases options.len(),
{
    if options.len() > 0 {
        let less = options.drop_last();
        let last = options.last();
        assert forall|i: int| 0 <= i < less.len() implies fits_fifo6(#[trigger] less[i]) by {
            assert(less[i] == options[i]);
        }
        lemma_fifo6_options(less, d, e);
        lemma_option_names();
        assert(fits_fifo6(options[options.len() - 1]));
        assert forall|name: Seq<char>| !gives(options, name) implies !#[trigger] gives(less, name)
            && last.0@ != name by {
            assert(options[options.len() - 1].0@ == last.0@);
            if gives(less, name) {
                let i = choose|i: int| 0 <= i < less.len() && (#[trigger] less[i]).0@ == name;
                assert(options[i].0@ == name);
            }
        }
        assert(!gives(options, "accel_fs_g"@) ==> !gives(less, "accel_fs_g"@));
        assert(!gives(options, "gyro_fs_dps"@) ==> !gives(less, "gyro_fs_dps"@));
        assert(!gives(options, "output"@) ==> !gives(less, "output"@));
    }
}

/// `qmi8660_fifo6` stands for `i16_le` with its fields spelled out: with any options that fit it,
/// the two declarations give the same decoder but for its label. What no option gives is 16 g,
/// 4096 dps and physical units, and there is no temperature.
pub proof fn law_fifo6_is_i16_le(
    options: Seq<ReportOption>,
    fields: ReportOption,
    gyro: ReportOption,
    accel: ReportOption,
)
    requires
        forall|i: int| 0 <= i < options.len() ==> fits_fifo6(#[trigger] options[i]),
        lists(fields, "fields"@, fifo6_fields()),
        lists(gyro, "gyro_fields"@, seq!["gx"@, "gy"@, "gz"@]),
        lists(accel, "accel_fields"@, seq!["ax"@, "ay"@, "az"@]),
    ensures
        declared("qmi8660_fifo6"@, options) matches Ok(d) && declared(
            "i16_le"@,
            options.push(fields).push(gyro).push(accel),
        ) == Ok::<DecoderView, Seq<char>>(DecoderView { label: "i16_le"@, ..d }) && d.label
            == "qmi8660_fifo6"@ && d.temp_field is None && (!gives(options, "accel_fs_g"@)
            ==> d.accel_fs_g == Scale::Whole(16)) && (!gives(options, "gyro_fs_dps"@)
            ==> d.gyro_fs_dps == Scale::Whole(4096)) && (!gives(options, "output"@) ==> d.output
            == ReportOutputMode::PhysicalF32),
{
    let q = plain_decoder(
        "qmi8660_fifo6"@,
        fifo6_fields(),
        seq!["gx"@, "gy"@, "gz"@],
        seq!["ax"@, "ay"@, "az"@],
    );
    let i = plain_decoder("i16_le"@, Seq::empty(), Seq::empty(), Seq::empty());
    lemma_option_names();
    lemma_fifo6_options(options, q, i);
    lemma_fifo6_fields_stay(q, options);
    law_fifo6_is_usable(options);
    let one = options.push(fields);
    let two = one.push(gyro);
    let three = two.push(accel);
    assert(one.drop_last() =~= options && one.last() == fields);
    assert(two.drop_last() =~= one && two.last() == gyro);
    assert(three.drop_last() =~= two && three.last() == accel);
    assert(three[options.len() as int].0@ == "fields"@);
    assert(gives(three, "fields"@));
    let d = declared("qmi8660_fifo6"@, options)->Ok_0;
    let a = with_options("i16_le"@, i, one)->Ok_0;
    assert(with_options("i16_le"@, i, one) == Ok::<DecoderView, Seq<char>>(a));
    let b = with_options("i16_le"@, i, two)->Ok_0;
    assert(with_options("i16_le"@, i, two) == Ok::<DecoderView, Seq<char>>(b));
    assert(with_options("i16_le"@, i, three) == Ok::<DecoderView, Seq<char>>(
        DecoderView { label: "i16_le"@, ..d },
    ));
}

proof fn lemma_no_repeat(names: Seq<Seq<char>>, n: int)
    requires
        0 <= n <= names.len(),
        forall|i: int, j: int| 0 <= i < j < names.len() ==> names[i] != names[j],
    ensures
        decoder::first_repeat(names.take(n)) is None,
    decreases n,
{
    if n > 0 {
        assert(names.take(n).drop_last() =~= names.take(n - 1));
        lemma_no_repeat(names, n - 1);
    }
}

proof fn lemma_none_missing(names: Seq<Seq<char>>, known: Seq<Seq<char>>)
    requires
        forall|i: int| 0 <= i < names.len() ==> known.contains(#[trigger] names[i]),
    ensures
        decoder::first_missing(names, known) is None,
    decreases names.len(),
{
    if names.len() > 0 {
        assert(known.contains(names[0]));
        let rest = names.skip(1);
        assert forall|i: int| 0 <= i < rest.len() implies known.contains(#[trigger] rest[i]) by {
            assert(rest[i] == names[i + 1]);
        }
        lemma_none_missing(rest, known);
    }
}

} // verus!
