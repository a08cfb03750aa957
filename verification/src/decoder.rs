//! Decoders for the samples that reports carry.
use crate::text;
use crate::text::has_text;
use vstd::prelude::*;

verus! {

/// A factor or an offset: a whole number, or the bits of a double-precision one.
#[derive(Debug, Clone, Copy, PartialEq, Eq, Structural)]
pub enum Scale {
    Whole(i64),
    Double(u64),
}

pub const DEFAULT_ACCEL_FULL_SCALE_G: i64 = 16;

pub const DEFAULT_GYRO_FULL_SCALE_DPS: i64 = 4096;

pub const DEFAULT_TEMP_LSB_PER_C: i64 = 1;

pub const DEFAULT_TEMP_OFFSET_C: i64 = 0;

impl Scale {
    /// Whether it is neither infinite nor no number: the exponent is not all ones.
    pub open spec fn finite(self) -> bool {
        match self {
            Self::Whole(_) => true,
            Self::Double(b) => b / 0x10_0000_0000_0000 % 0x800 != 0x7ff,
        }
    }

    /// Whether it is greater than zero: no sign, and not all bits are zero.
    pub open spec fn positive(self) -> bool {
        match self {
            Self::Whole(n) => n > 0,
            Self::Double(b) => 0 < b < 0x8000_0000_0000_0000,
        }
    }

    /// Whether it is neither infinite nor no number.
    pub fn is_finite(self) -> (r: bool)
        ensures
            r == self.finite(),
    {
        match self {
            Self::Whole(_) => true,
            Self::Double(b) => b / 0x10_0000_0000_0000 % 0x800 != 0x7ff,
        }
    }

    /// Whether it is greater than zero.
    pub fn is_positive(self) -> (r: bool)
        requires
            self.finite(),
        ensures
            r == self.positive(),
    {
        match self {
            Self::Whole(n) => n > 0,
            Self::Double(b) => 0 < b && b < 0x8000_0000_0000_0000,
        }
    }
}

/// What is put out for each sample.
#[derive(Debug, Clone, Copy, PartialEq, Eq, Structural)]
pub enum ReportOutputMode {
    PhysicalF32,
    RawI16,
}

impl ReportOutputMode {
    /// How the mode is written.
    pub open spec fn name(self) -> Seq<char> {
        match self {
            Self::PhysicalF32 => "physical_f32"@,
            Self::RawI16 => "raw_i16"@,
        }
    }

    /// How the mode is written.
    pub fn as_str(self) -> (s: &'static str)
        ensures
            s@ == self.name(),
    {
        match self {
            Self::PhysicalF32 => "physical_f32",
            Self::RawI16 => "raw_i16",
        }
    }
}

/// How samples of little-endian sixteen-bit numbers are laid out and scaled.
#[derive(Debug, Clone, PartialEq, Eq)]
pub struct I16LeReportDecoder {
    pub label: String,
    pub fields: Vec<String>,
    pub accel_fields: Vec<String>,
    pub gyro_fields: Vec<String>,
    pub temp_field: Option<String>,
    pub accel_fs_g: Scale,
    pub gyro_fs_dps: Scale,
    pub temp_lsb_per_c: Scale,
    pub temp_offset_c: Scale,
    pub output: ReportOutputMode,
}

/// A decoder as a mathematical value.
pub struct DecoderView {
    pub label: Seq<char>,
    pub fields: Seq<Seq<char>>,
    pub accel_fields: Seq<Seq<char>>,
    pub gyro_fields: Seq<Seq<char>>,
    pub temp_field: Option<Seq<char>>,
    pub accel_fs_g: Scale,
    pub gyro_fs_dps: Scale,
    pub temp_lsb_per_c: Scale,
    pub temp_offset_c: Scale,
    pub output: ReportOutputMode,
}

/// The text of an optional string.
pub open spec fn text_opt(s: Option<String>) -> Option<Seq<char>> {
    match s {
        Some(s) => Some(s@),
        None => None,
    }
}

/// The first text that already stands before itself.
pub open spec fn first_repeat(names: Seq<Seq<char>>) -> Option<Seq<char>>
    decreases names.len(),
{
    if names.len() == 0 {
        None
    } else {
        match first_repeat(names.drop_last()) {
            Some(n) => Some(n),
            None => if names.drop_last().contains(names.last()) {
                Some(names.last())
            } else {
                None
            },
        }
    }
}

/// The first text that is not among `known`.
pub open spec fn first_missing(names: Seq<Seq<char>>, known: Seq<Seq<char>>) -> Option<Seq<char>>
    decreases names.len(),
{
    if names.len() == 0 {
        None
    } else if !known.contains(names[0]) {
        Some(names[0])
    } else {
        first_missing(names.skip(1), known)
    }
}

/// Why a decoder cannot be used, if it cannot.
pub open spec fn decoder_fault(d: DecoderView) -> Option<Seq<char>> {
    if d.fields.len() == 0 {
        Some("i16_le report decoder requires non-empty fields"@)
    } else if first_repeat(d.fields) is Some {
        Some("duplicate report field '"@ + first_repeat(d.fields)->Some_0 + "'"@)
    } else if first_missing(d.gyro_fields + d.accel_fields, d.fields) is Some {
        Some(
            "scaled report field '"@ + first_missing(
                d.gyro_fields + d.accel_fields,
                d.fields,
            )->Some_0 + "' is not present in fields"@,
        )
    } else {
        match d.temp_field {
            None => None,
            Some(field) => if !d.fields.contains(field) {
                Some("temp field '"@ + field + "' is not present in fields"@)
            } else if !d.temp_lsb_per_c.finite() || !d.temp_lsb_per_c.positive() {
                Some("temp_lsb_per_c must be greater than zero"@)
            } else if !d.temp_offset_c.finite() {
                Some("temp_offset_c must be finite"@)
            } else {
                None
            },
        }
    }
}

/// The reason that a result gives, if any.
pub open spec fn reason<T>(r: Result<T, String>) -> Option<Seq<char>> {
    match r {
        Ok(_) => None,
        Err(e) => Some(e@),
    }
}

fn find_repeat(names: &[String]) -> (r: Option<usize>)
    ensures
        match r {
            Some(i) => i < names.len() && first_repeat(text::texts(names@)) == Some(names@[i as int]@),
            None => first_repeat(text::texts(names@)) is None,
        },
{
    let ghost all = text::texts(names@);
    let mut i: usize = 0;
    while i < names.len()
        invariant
            i <= names.len(),
            all == text::texts(names@),
            first_repeat(all.take(i as int)) is None,
        decreases names.len() - i,
    {
        let before = vstd::slice::slice_subrange(names, 0, i);
        assert(text::texts(before@) =~= all.take(i as int));
        assert(all.take(i + 1).drop_last() =~= all.take(i as int));
        assert(all[i as int] == names@[i as int]@);
        if has_text(before, names[i].as_str()) {
            proof {
                lemma_repeat_stays(all, i + 1);
            }
            return Some(i);
        }
        i += 1;
    }
    assert(all.take(all.len() as int) =~= all);
    None
}

proof fn lemma_repeat_stays(names: Seq<Seq<char>>, i: int)
    requires
        0 <= i <= names.len(),
        first_repeat(names.take(i)) is Some,
    ensures
        first_repeat(names) == first_repeat(names.take(i)),
    decreases names.len() - i,
{
    if i < names.len() {
        assert(names.take(i + 1).drop_last() =~= names.take(i));
        lemma_repeat_stays(names, i + 1);
    } else {
        assert(names.take(i) =~= names);
    }
}

fn find_missing(names: &[String], known: &[String]) -> (r: Option<usize>)
    ensures
        match r {
            Some(i) => i < names.len() && first_missing(
                text::texts(names@),
                text::texts(known@),
            ) == Some(names@[i as int]@),
            None => first_missing(text::texts(names@), text::texts(known@)) is None,
        },
{
    let ghost all = text::texts(names@);
    let mut i: usize = 0;
    assert(all.skip(0) =~= all);
    while i < names.len()
        invariant
            i <= names.len(),
            all == text::texts(names@),
            first_missing(all, text::texts(known@)) == first_missing(
                all.skip(i as int),
                text::texts(known@),
            ),
        decreases names.len() - i,
    {
        assert(all.skip(i as int)[0] == names@[i as int]@);
        assert(all.skip(i as int).skip(1) =~= all.skip(i + 1));
        if !has_text(known, names[i].as_str()) {
            return Some(i);
        }
        i += 1;
    }
    None
}

proof fn lemma_missing_of_both(a: Seq<Seq<char>>, b: Seq<Seq<char>>, known: Seq<Seq<char>>)
    ensures
        first_missing(a + b, known) == (match first_missing(a, known) {
            Some(n) => Some(n),
            None => first_missing(b, known),
        }),
    decreases a.len(),
{
    if a.len() == 0 {
        assert(a + b =~= b);
    } else {
        assert((a + b).skip(1) =~= a.skip(1) + b);
        assert((a + b)[0] == a[0]);
        lemma_missing_of_both(a.skip(1), b, known);
    }
}

impl I16LeReportDecoder {
    pub open spec fn view(self) -> DecoderView {
        DecoderView {
            label: self.label@,
            fields: text::texts(self.fields@),
            accel_fields: text::texts(self.accel_fields@),
            gyro_fields: text::texts(self.gyro_fields@),
            temp_field: text_opt(self.temp_field),
            accel_fs_g: self.accel_fs_g,
            gyro_fs_dps: self.gyro_fs_dps,
            temp_lsb_per_c: self.temp_lsb_per_c,
            temp_offset_c: self.temp_offset_c,
            output: self.output,
        }
    }

    /// How many bytes a sample takes.
    pub fn sample_bytes(&self) -> (n: usize)
        requires
            self.view().fields.len() * 2 <= usize::MAX,
        ensures
            n == self.view().fields.len() * 2,
    {
        self.fields.len() * 2
    }

    /// Whether the decoder can be used: there are fields, none of them twice, the
    /// scaled ones are among them, and the temperature has a usable scale.
    pub fn validate(&self) -> (r: Result<(), String>)
        ensures
            reason(r) == decoder_fault(self.view()),
    {
        if self.fields.len() == 0 {
            return Err("i16_le report decoder requires non-empty fields".to_owned());
        }
        match find_repeat(&self.fields) {
            Some(i) => {
                let mut e: String = "duplicate report field '".to_owned();
                e.push_str(self.fields[i].as_str());
                e.push_str("'");
                return Err(e);
            },
            None => {},
        }
        proof {
            lemma_missing_of_both(
                self.view().gyro_fields,
                self.view().accel_fields,
                self.view().fields,
            );
        }
        match find_missing(&self.gyro_fields, &self.fields) {
            Some(i) => {
                return Err(scaled_missing(self.gyro_fields[i].as_str()));
            },
            None => {},
        }
        match find_missing(&self.accel_fields, &self.fields) {
            Some(i) => {
                return Err(scaled_missing(self.accel_fields[i].as_str()));
            },
            None => {},
        }
        match &self.temp_field {
            None => Ok(()),
            Some(field) => {
                if !has_text(&self.fields, field.as_str()) {
                    let mut e: String = "temp field '".to_owned();
                    e.push_str(field.as_str());
                    e.push_str("' is not present in fields");
                    return Err(e);
                }
                if !self.temp_lsb_per_c.is_finite() || !self.temp_lsb_per_c.is_positive() {
                    return Err("temp_lsb_per_c must be greater than zero".to_owned());
                }
                if !self.temp_offset_c.is_finite() {
                    return Err("temp_offset_c must be finite".to_owned());
                }
                Ok(())
            },
        }
    }
}

fn scaled_missing(field: &str) -> (e: String)
    ensures
        e@ == "scaled report field '"@ + field@ + "' is not present in fields"@,
{
    let mut e: String = "scaled report field '".to_owned();
    e.push_str(field);
    e.push_str("' is not present in fields");
    e
}

/// A decoder for the reports of one kind.
#[derive(Debug, Clone, PartialEq, Eq)]
pub enum ReportDecoder {
    I16Le(I16LeReportDecoder),
}

impl ReportDecoder {
    pub open spec fn view(self) -> DecoderView {
        match self {
            Self::I16Le(d) => d.view(),
        }
    }
}

/// What a decoder or a reason against it stands for.
pub open spec fn decoder_result(r: Result<ReportDecoder, String>) -> Result<
    DecoderView,
    Seq<char>,
> {
    match r {
        Ok(d) => Ok(d.view()),
        Err(e) => Err(e@),
    }
}

/// The decoder if it can be used, or why it cannot.
pub open spec fn checked(d: DecoderView) -> Result<DecoderView, Seq<char>> {
    match decoder_fault(d) {
        None => Ok(d),
        Some(e) => Err(e),
    }
}

/// A decoder of the given parts, or why they make none.
pub fn make_i16_le_decoder(
    label: &str,
    fields: Vec<String>,
    gyro_fields: Vec<String>,
    accel_fields: Vec<String>,
    temp_field: Option<String>,
    accel_fs_g: Scale,
    gyro_fs_dps: Scale,
    temp_lsb_per_c: Scale,
    temp_offset_c: Scale,
    output: ReportOutputMode,
) -> (r: Result<ReportDecoder, String>)
    ensures
        decoder_result(r) == checked(
            DecoderView {
                label: label@,
                fields: text::texts(fields@),
                accel_fields: text::texts(accel_fields@),
                gyro_fields: text::texts(gyro_fields@),
                temp_field: text_opt(temp_field),
                accel_fs_g,
                gyro_fs_dps,
                temp_lsb_per_c,
                temp_offset_c,
                output,
            },
        ),
{
    let decoder = I16LeReportDecoder {
        label: label.to_owned(),
        fields,
        accel_fields,
        gyro_fields,
        temp_field,
        accel_fs_g,
        gyro_fs_dps,
        temp_lsb_per_c,
        temp_offset_c,
        output,
    };
    match decoder.validate() {
        Ok(()) => Ok(ReportDecoder::I16Le(decoder)),
        Err(e) => Err(e),
    }
}

} // verus!
