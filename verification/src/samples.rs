//! Samples of sixteen-bit numbers as reports carry them.
use crate::decoder;
use crate::decoder::{I16LeReportDecoder, ReportDecoder};
use crate::decoder::DecoderView;
use crate::le;
use crate::text;
use crate::text::same_text;
use crate::wire;
use crate::wire::ReportMeta;
use std::collections::HashMap;
use vstd::prelude::*;

verus! {

broadcast use vstd::std_specs::hash::group_hash_axioms;

// ---- decoders by kind

/// The decoder of each kind of report that has one.
#[derive(Debug, Clone, PartialEq, Eq)]
pub struct ReportDecoderRegistry {
    by_kind: HashMap<u32, ReportDecoder>,
}

impl View for ReportDecoderRegistry {
    type V = Map<u32, ReportDecoder>;

    closed spec fn view(&self) -> Map<u32, ReportDecoder> {
        self.by_kind@
    }
}

/// Decoders by kind, each as a mathematical value.
pub open spec fn decoder_views(m: Map<u32, ReportDecoder>) -> Map<u32, DecoderView> {
    m.map_values(|d: ReportDecoder| d.view())
}

/// Whether a list names each kind of `m` once, with its decoder.
pub open spec fn lists(list: Seq<(u32, &ReportDecoder)>, m: Map<u32, ReportDecoder>) -> bool {
    &&& forall|i: int|
        0 <= i < list.len() ==> m.dom().contains((#[trigger] list[i]).0) && m[list[i].0]
            == *list[i].1
    &&& forall|i: int, j: int| 0 <= i < j < list.len() ==> list[i].0 != list[j].0
    &&& forall|k: u32| #[trigger]
        m.dom().contains(k) ==> exists|i: int| 0 <= i < list.len() && (#[trigger] list[i]).0 == k
}

impl Default for ReportDecoderRegistry {
    fn default() -> (r: Self)
        ensures
            r@ == Map::<u32, ReportDecoder>::empty(),
    {
        ReportDecoderRegistry { by_kind: HashMap::new() }
    }
}

impl ReportDecoderRegistry {
    /// Sets the decoder of a kind.
    pub fn insert(&mut self, kind: u32, decoder: ReportDecoder)
        ensures
            final(self)@ == old(self)@.insert(kind, decoder),
    {
        self.by_kind.insert(kind, decoder);
    }

    /// The decoder of a kind.
    pub fn get(&self, kind: u32) -> (d: Option<&ReportDecoder>)
        ensures
            match d {
                Some(d) => self@.dom().contains(kind) && self@[kind] == *d,
                None => !self@.dom().contains(kind),
            },
    {
        self.by_kind.get(&kind)
    }

    /// The kinds that have a decoder, with it, in no particular order.
    pub fn iter(&self) -> (list: Vec<(u32, &ReportDecoder)>)
        ensures
            lists(list@, self@),
    {
        let mut list: Vec<(u32, &ReportDecoder)> = Vec::new();
        for p in it: self.by_kind.iter()
            invariant
                it.seq().no_duplicates(),
                forall|i: int|
                    0 <= i < it.seq().len() ==> self@.dom().contains(*(#[trigger] it.seq()[i]).0)
                        && self@[*it.seq()[i].0] == *it.seq()[i].1,
                forall|k: u32| #[trigger]
                    self@.dom().contains(k) ==> exists|i: int|
                        0 <= i < it.seq().len() && *(#[trigger] it.seq()[i]).0 == k,
                list.len() == it.index(),
                forall|i: int|
                    #![trigger list@[i]]
                    #![trigger it.seq()[i]]
                    0 <= i < list.len() ==> list@[i].0 == *it.seq()[i].0 && *list@[i].1
                        == *it.seq()[i].1,
                forall|i: int, j: int| 0 <= i < j < list.len() ==> list@[i].0 != list@[j].0,
                it.index() == it.seq().len() ==> lists(list@, self@),
        {
            assert(forall|i: int| 0 <= i < list.len() ==> #[trigger] it.seq()[i] != it.seq()[it.index() as int]);
            list.push((*p.0, p.1));
            assert(forall|i: int|
                #![trigger list@[i]]
                #![trigger it.seq()[i]]
                0 <= i < list.len() ==> list@[i].0 == *it.seq()[i].0 && *list@[i].1
                    == *it.seq()[i].1);
            assert(it.index() + 1 == it.seq().len() ==> forall|k: u32| #[trigger]
                self@.dom().contains(k) ==> exists|i: int|
                    0 <= i < list.len() && (#[trigger] list@[i]).0 == k);
        }
        list
    }

    /// Whether no kind has a decoder.
    pub fn is_empty(&self) -> (r: bool)
        ensures
            r == (self@.dom() =~= Set::<u32>::empty()),
    {
        self.by_kind.is_empty()
    }

    /// How many kinds have a decoder.
    pub fn len(&self) -> (n: usize)
        ensures
            n == self@.dom().len(),
    {
        self.by_kind.len()
    }
}

// ---- samples

/// The value of a field of a sample.
#[derive(Debug, Clone, Copy, PartialEq, Eq)]
pub struct I16LeFieldValue {
    pub field_index: usize,
    pub value: i16,
}

/// A sample: one value for each field.
#[derive(Debug, Clone, PartialEq, Eq)]
pub struct I16LeFifoSample {
    pub values: Vec<I16LeFieldValue>,
}

/// The samples in a block of bytes, and how many bytes were left over.
#[derive(Debug, Clone, PartialEq, Eq)]
pub struct I16LeFifoDecode {
    pub samples: Vec<I16LeFifoSample>,
    pub trailing_bytes: usize,
}

/// A motion sample in counts of the sensor.
#[derive(Debug, Clone, Copy, PartialEq, Eq)]
pub struct MotionSample {
    pub timestamp_us: Option<u64>,
    pub acc: [i16; 3],
    pub gyro: [i16; 3],
    pub temp: Option<i16>,
}

/// The signed number that two bytes hold from position `at` on, in two's complement.
pub open spec fn i16_at(s: Seq<u8>, at: int) -> i16 {
    let u = le::at16(s, at);
    if u < 0x8000 {
        u as i16
    } else {
        (u - 0x1_0000) as i16
    }
}

fn read_i16(s: &[u8], at: usize) -> (v: i16)
    requires
        at + 2 <= s.len(),
    ensures
        v == i16_at(s@, at as int),
{
    let u: u16 = le::read_u16(s, at);
    if u < 0x8000 {
        u as i16
    } else {
        (u as i32 - 0x1_0000) as i16
    }
}

/// The sample of `n` fields that starts at position `at`.
pub open spec fn sample_at(data: Seq<u8>, at: int, n: nat) -> Seq<I16LeFieldValue> {
    Seq::new(
        n,
        |i: int| I16LeFieldValue { field_index: i as usize, value: i16_at(data, at + 2 * i) },
    )
}

/// The samples of `n` fields in a block of bytes from position `at` on, as many as are whole.
pub open spec fn samples_from(data: Seq<u8>, at: int, n: nat) -> Seq<Seq<I16LeFieldValue>>
    decreases data.len() - at,
{
    if n == 0 || at < 0 || at + 2 * n > data.len() {
        Seq::empty()
    } else {
        seq![sample_at(data, at, n)] + samples_from(data, at + 2 * n, n)
    }
}

/// How many bytes are left over behind the whole samples.
pub open spec fn left_over(len: nat, n: nat) -> nat {
    if n == 0 {
        len
    } else {
        len % (2 * n)
    }
}

/// What a list of samples stands for.
pub open spec fn sample_views(samples: Seq<I16LeFifoSample>) -> Seq<Seq<I16LeFieldValue>> {
    samples.map_values(|s: I16LeFifoSample| s.values@)
}

/// Whether every value is one of `n` fields.
pub open spec fn indexed(values: Seq<I16LeFieldValue>, n: nat) -> bool {
    forall|i: int| 0 <= i < values.len() ==> (#[trigger] values[i]).field_index < n
}

/// The value of the first field of that name.
pub open spec fn named_value(
    values: Seq<I16LeFieldValue>,
    fields: Seq<Seq<char>>,
    name: Seq<char>,
) -> Option<i16>
    decreases values.len(),
{
    if values.len() == 0 {
        None
    } else if fields[values[0].field_index as int] == name {
        Some(values[0].value)
    } else {
        named_value(values.skip(1), fields, name)
    }
}

/// The values of the first three of the named fields.
pub open spec fn three_values(
    values: Seq<I16LeFieldValue>,
    fields: Seq<Seq<char>>,
    names: Seq<Seq<char>>,
) -> Option<Seq<i16>> {
    if names.len() < 3 {
        None
    } else {
        match (
            named_value(values, fields, names[0]),
            named_value(values, fields, names[1]),
            named_value(values, fields, names[2]),
        ) {
            (Some(a), Some(b), Some(c)) => Some(seq![a, b, c]),
            _ => None,
        }
    }
}

/// The time that metadata gives.
pub open spec fn time_of(meta: Option<ReportMeta>) -> Option<u64> {
    match meta {
        Some(m) => if wire::timestamp_flag(m.flags) {
            Some(m.timestamp_us)
        } else {
            None
        },
        None => None,
    }
}

/// A motion sample as a mathematical value.
pub struct MotionView {
    pub timestamp_us: Option<u64>,
    pub acc: Seq<i16>,
    pub gyro: Seq<i16>,
    pub temp: Option<i16>,
}

impl MotionSample {
    pub open spec fn view(self) -> MotionView {
        MotionView {
            timestamp_us: self.timestamp_us,
            acc: self.acc@,
            gyro: self.gyro@,
            temp: self.temp,
        }
    }
}

/// The motion that a sample shows: there is one where the decoder names three rates and
/// three accelerations that the sample has.
pub open spec fn motion_of(
    values: Seq<I16LeFieldValue>,
    d: DecoderView,
    meta: Option<ReportMeta>,
) -> Option<MotionView> {
    match (
        three_values(values, d.fields, d.gyro_fields),
        three_values(values, d.fields, d.accel_fields),
    ) {
        (Some(gyro), Some(acc)) => Some(
            MotionView {
                timestamp_us: time_of(meta),
                acc,
                gyro,
                temp: match d.temp_field {
                    Some(name) => named_value(values, d.fields, name),
                    None => None,
                },
            },
        ),
        _ => None,
    }
}

impl I16LeFifoSample {
    /// The value of the first field of that name.
    pub fn value_by_name(&self, decoder: &I16LeReportDecoder, name: &str) -> (v: Option<i16>)
        requires
            indexed(self.values@, decoder.view().fields.len()),
        ensures
            v == named_value(self.values@, decoder.view().fields, name@),
    {
        let ghost fields = decoder.view().fields;
        let mut i: usize = 0;
        assert(self.values@.skip(0) =~= self.values@);
        while i < self.values.len()
            invariant
                i <= self.values.len(),
                fields == decoder.view().fields,
                indexed(self.values@, fields.len()),
                named_value(self.values@, fields, name@) == named_value(
                    self.values@.skip(i as int),
                    fields,
                    name@,
                ),
            decreases self.values.len() - i,
        {
            let value = self.values[i];
            assert(self.values@[i as int].field_index < fields.len());
            assert(self.values@.skip(i as int)[0] == value);
            assert(self.values@.skip(i as int).skip(1) =~= self.values@.skip(i + 1));
            assert(fields[value.field_index as int] == decoder.fields@[value.field_index as int]@);
            if same_text(decoder.fields[value.field_index].as_str(), name) {
                return Some(value.value);
            }
            i += 1;
        }
        None
    }

    fn three(&self, decoder: &I16LeReportDecoder, names: &[String]) -> (v: Option<[i16; 3]>)
        requires
            indexed(self.values@, decoder.view().fields.len()),
        ensures
            (match v {
                Some(a) => Some(a@),
                None => None,
            }) == three_values(self.values@, decoder.view().fields, text::texts(names@)),
    {
        if names.len() < 3 {
            return None;
        }
        assert(text::texts(names@)[0] == names@[0]@);
        assert(text::texts(names@)[1] == names@[1]@);
        assert(text::texts(names@)[2] == names@[2]@);
        match (
            self.value_by_name(decoder, names[0].as_str()),
            self.value_by_name(decoder, names[1].as_str()),
            self.value_by_name(decoder, names[2].as_str()),
        ) {
            (Some(a), Some(b), Some(c)) => {
                let v: [i16; 3] = [a, b, c];
                assert(v@ =~= seq![a, b, c]);
                Some(v)
            },
            _ => None,
        }
    }

    /// The motion that the sample shows.
    pub fn to_motion(&self, decoder: &I16LeReportDecoder, meta: Option<ReportMeta>) -> (m: Option<
        MotionSample,
    >)
        requires
            indexed(self.values@, decoder.view().fields.len()),
        ensures
            (match m {
                Some(m) => Some(m.view()),
                None => None,
            }) == motion_of(self.values@, decoder.view(), meta),
    {
        let gyro = match self.three(decoder, &decoder.gyro_fields) {
            Some(v) => v,
            None => return None,
        };
        let acc = match self.three(decoder, &decoder.accel_fields) {
            Some(v) => v,
            None => return None,
        };
        let temp: Option<i16> = match &decoder.temp_field {
            Some(name) => self.value_by_name(decoder, name.as_str()),
            None => None,
        };
        let timestamp_us: Option<u64> = match meta {
            Some(m) => if m.timestamp_valid() {
                Some(m.timestamp_us)
            } else {
                None
            },
            None => None,
        };
        Some(MotionSample { timestamp_us, acc, gyro, temp })
    }
}

fn read_sample(data: &[u8], at: usize, n: usize) -> (s: I16LeFifoSample)
    requires
        at + 2 * n <= data.len(),
    ensures
        s.values@ == sample_at(data@, at as int, n as nat),
{
    let mut values: Vec<I16LeFieldValue> = Vec::new();
    let mut i: usize = 0;
    while i < n
        invariant
            i <= n,
            at + 2 * n <= data.len(),
            values@ == sample_at(data@, at as int, i as nat),
        decreases n - i,
    {
        values.push(I16LeFieldValue { field_index: i, value: read_i16(data, at + 2 * i) });
        i += 1;
        assert(values@ =~= sample_at(data@, at as int, i as nat));
    }
    I16LeFifoSample { values }
}

/// Decodes the samples in a block of bytes.
pub fn decode_i16_le_fifo_samples(data: &[u8], decoder: &I16LeReportDecoder) -> (d:
    I16LeFifoDecode)
    ensures
        sample_views(d.samples@) == samples_from(data@, 0, decoder.view().fields.len()),
        d.trailing_bytes == left_over(data@.len(), decoder.view().fields.len()),
        forall|i: int|
            0 <= i < d.samples.len() ==> indexed(
                (#[trigger] d.samples@[i]).values@,
                decoder.view().fields.len(),
            ),
{
    let n: usize = decoder.fields.len();
    let mut samples: Vec<I16LeFifoSample> = Vec::new();
    if n == 0 {
        assert(sample_views(samples@) =~= Seq::<Seq<I16LeFieldValue>>::empty());
        return I16LeFifoDecode { samples, trailing_bytes: data.len() };
    }
    let mut at: usize = 0;
    let ghost whole = samples_from(data@, 0, n as nat);
    let ghost mut k: int = 0;
    assert(sample_views(samples@) + samples_from(data@, 0, n as nat) =~= whole);
    while n <= (data.len() - at) / 2
        invariant
            n == decoder.view().fields.len(),
            0 < n,
            at <= data.len(),
            0 <= k,
            at == k * (2 * n),
            whole == samples_from(data@, 0, n as nat),
            whole == sample_views(samples@) + samples_from(data@, at as int, n as nat),
            forall|i: int|
                0 <= i < samples.len() ==> indexed((#[trigger] samples@[i]).values@, n as nat),
        decreases data.len() - at,
    {
        let ghost done = sample_views(samples@);
        let s = read_sample(data, at, n);
        let ghost rest = samples_from(data@, at + 2 * n, n as nat);
        samples.push(s);
        proof {
            assert(sample_views(samples@) =~= done.push(s.values@));
            assert(done + (seq![s.values@] + rest) =~= done.push(s.values@) + rest);
            assert((k + 1) * (2 * n) == k * (2 * n) + 2 * n) by (nonlinear_arith);
            k = k + 1;
        }
        at += 2 * n;
    }
    proof {
        let r = data@.len() - at;
        assert(0 <= r < 2 * n);
        assert(data@.len() == (2 * n) * k + r) by {
            assert(k * (2 * n) == (2 * n) * k) by (nonlinear_arith);
        }
        vstd::arithmetic::div_mod::lemma_fundamental_div_mod_converse_mod(
            data@.len() as int,
            2 * n as int,
            k,
            r,
        );
        assert(sample_views(samples@) + Seq::<Seq<I16LeFieldValue>>::empty() =~= sample_views(
            samples@,
        ));
    }
    I16LeFifoDecode { samples, trailing_bytes: data.len() - at }
}

// ---- laws

/// Every byte of a block belongs to a whole sample or is left over.
pub proof fn law_samples_account_for_bytes(data: Seq<u8>, n: nat)
    requires
        n > 0,
    ensures
        samples_from(data, 0, n).len() * (2 * n) + left_over(data.len(), n) == data.len(),
{
    lemma_sample_count(data, 0, n);
    let count = samples_from(data, 0, n).len() as int;
    let r = data.len() - count * (2 * n);
    assert(data.len() == (2 * n) * count + r) by (nonlinear_arith)
        requires
            r == data.len() - count * (2 * n),
    ;
    vstd::arithmetic::div_mod::lemma_fundamental_div_mod_converse_mod(
        data.len() as int,
        2 * n as int,
        count,
        r,
    );
}

proof fn lemma_sample_count(data: Seq<u8>, at: int, n: nat)
    requires
        n > 0,
        0 <= at <= data.len(),
    ensures
        0 <= data.len() - at - samples_from(data, at, n).len() * (2 * n) < 2 * n,
    decreases data.len() - at,
{
    if at + 2 * n <= data.len() {
        lemma_sample_count(data, at + 2 * n, n);
        let rest = samples_from(data, at + 2 * n, n).len();
        assert(samples_from(data, at, n).len() == rest + 1);
        assert((rest + 1) * (2 * n) == rest * (2 * n) + 2 * n) by (nonlinear_arith);
    }
}

/// The value of field `i` in sample `k` of a block is the signed number in the two bytes at position
/// `2 * (k * n + i)`, low byte first, `n` being how many fields a sample has. There are as many
/// samples as are whole, and each has a value for every field, in order.
pub proof fn law_sample_values(data: Seq<u8>, n: nat, k: int, i: int)
    requires
        0 < n <= usize::MAX,
        0 <= k < data.len() / (2 * n),
        0 <= i < n,
    ensures
        ({
            let all = samples_from(data, 0, n);
            let at = 2 * (k * n + i);
            let v = all[k][i].value as int;
            &&& all.len() == data.len() / (2 * n)
            &&& all[k].len() == n
            &&& all[k][i].field_index == i
            &&& 0 <= at
            &&& at + 1 < data.len()
            &&& data[at + 1] < 128 ==> v == data[at] + 256 * data[at + 1]
            &&& data[at + 1] >= 128 ==> v == data[at] + 256 * data[at + 1] - 65536
        }),
{
    let all = samples_from(data, 0, n);
    law_samples_account_for_bytes(data, n);
    lemma_sample_count(data, 0, n);
    let count = all.len() as int;
    let r = data.len() - count * (2 * n);
    assert(data.len() == count * (2 * n) + r) by (nonlinear_arith)
        requires
            r == data.len() - count * (2 * n),
    ;
    vstd::arithmetic::div_mod::lemma_fundamental_div_mod_converse_div(
        data.len() as int,
        2 * n as int,
        count,
        r,
    );
    lemma_sample_number(data, 0, n, k);
    assert(k * (2 * n) + 2 * i == 2 * (k * n + i)) by (nonlinear_arith);
    assert(k * (2 * n) >= 0 && (k + 1) * (2 * n) <= count * (2 * n) && (k + 1) * (2 * n) == k * (2
        * n) + 2 * n) by (nonlinear_arith)
        requires
            0 <= k < count,
            n > 0,
    ;
}

proof fn lemma_sample_number(data: Seq<u8>, at: int, n: nat, k: int)
    requires
        n > 0,
        0 <= at <= data.len(),
        0 <= k < samples_from(data, at, n).len(),
    ensures
        samples_from(data, at, n)[k] == sample_at(data, at + k * (2 * n), n),
    decreases k,
{
    if k == 0 {
        assert(0 * (2 * n) == 0) by (nonlinear_arith);
    } else {
        lemma_sample_number(data, at + 2 * n, n, k - 1);
        assert((k - 1) * (2 * n) + 2 * n == k * (2 * n)) by (nonlinear_arith);
    }
}

/// The bytes of samples, one after the other.
pub open spec fn block_of(samples: Seq<Seq<i16>>) -> Seq<u8>
    decreases samples.len(),
{
    if samples.len() == 0 {
        Seq::empty()
    } else {
        sample_bytes_of(samples[0]) + block_of(samples.skip(1))
    }
}

/// The bytes of the values of a sample, one after the other.
pub open spec fn sample_bytes_of(values: Seq<i16>) -> Seq<u8>
    decreases values.len(),
{
    if values.len() == 0 {
        Seq::empty()
    } else {
        sample_bytes_of(values.drop_last()) + i16_bytes(values.last())
    }
}

proof fn lemma_sample_bytes_of(values: Seq<i16>, i: int)
    requires
        0 <= i < values.len(),
    ensures
        sample_bytes_of(values).len() == 2 * values.len(),
        sample_bytes_of(values).subrange(2 * i, 2 * i + 2) == i16_bytes(values[i]),
    decreases values.len(),
{
    let all = sample_bytes_of(values);
    let less = values.drop_last();
    if less.len() > 0 {
        lemma_sample_bytes_of(
            less,
            if i < less.len() {
                i
            } else {
                0
            },
        );
    }
    assert(less.len() == 0 ==> sample_bytes_of(less).len() == 0);
    if i < less.len() {
        assert(all.subrange(2 * i, 2 * i + 2) =~= sample_bytes_of(less).subrange(2 * i, 2 * i + 2));
    } else {
        assert(all.subrange(2 * i, 2 * i + 2) =~= i16_bytes(values[i]));
    }
}

proof fn lemma_block_reads_back(data: Seq<u8>, at: int, n: nat, samples: Seq<Seq<i16>>)
    requires
        0 < n <= usize::MAX,
        0 <= at <= data.len(),
        data.skip(at) == block_of(samples),
        forall|k: int| 0 <= k < samples.len() ==> (#[trigger] samples[k]).len() == n,
    ensures
        samples_from(data, at, n).len() == samples.len(),
        forall|k: int, i: int|
            #![trigger samples_from(data, at, n)[k][i]]
            0 <= k < samples.len() && 0 <= i < n ==> samples_from(data, at, n)[k][i].value
                == samples[k][i],
    decreases samples.len(),
{
    if samples.len() == 0 {
        assert(data.len() - at == data.skip(at).len());
    } else {
        let rest = samples.skip(1);
        let first = samples[0];
        let tail = data.skip(at);
        lemma_sample_bytes_of(first, 0);
        assert(tail.len() == data.len() - at);
        assert forall|k: int| 0 <= k < rest.len() implies (#[trigger] rest[k]).len() == n by {
            assert(rest[k] == samples[k + 1]);
        }
        assert(data.skip(at + 2 * n) =~= tail.skip(2 * n as int));
        assert(tail.skip(2 * n as int) =~= block_of(rest));
        lemma_block_reads_back(data, at + 2 * n, n, rest);
        let all = samples_from(data, at, n);
        let more = samples_from(data, at + 2 * n, n);
        assert(all == seq![sample_at(data, at, n)] + more);
        assert forall|k: int, i: int|
            #![trigger all[k][i]]
            0 <= k < samples.len() && 0 <= i < n implies all[k][i].value == samples[k][i] by {
            if k == 0 {
                lemma_sample_bytes_of(first, i);
                assert(data.subrange(at + 2 * i, at + 2 * i + 2) =~= tail.subrange(
                    2 * i,
                    2 * i + 2,
                ));
                assert(tail.subrange(2 * i, 2 * i + 2) =~= sample_bytes_of(first).subrange(
                    2 * i,
                    2 * i + 2,
                ));
                law_i16_round_trip(data, at + 2 * i, first[i]);
            } else {
                assert(all[k] == more[k - 1]);
                assert(more[k - 1][i].value == rest[k - 1][i]);
            }
        }
    }
}

/// Decoding the bytes of samples gives back these samples, value by value.
pub proof fn law_samples_read_back(samples: Seq<Seq<i16>>, n: nat)
    requires
        0 < n <= usize::MAX,
        forall|k: int| 0 <= k < samples.len() ==> (#[trigger] samples[k]).len() == n,
    ensures
        samples_from(block_of(samples), 0, n).len() == samples.len(),
        forall|k: int, i: int|
            #![trigger samples_from(block_of(samples), 0, n)[k][i]]
            0 <= k < samples.len() && 0 <= i < n ==> samples_from(
                block_of(samples),
                0,
                n,
            )[k][i].value == samples[k][i],
{
    let data = block_of(samples);
    assert(data.skip(0) =~= data);
    lemma_block_reads_back(data, 0, n, samples);
}

/// The value of a name is the one of the first field that is called so, and there is one exactly
/// where a field is.
pub proof fn law_value_of_a_name(
    values: Seq<I16LeFieldValue>,
    fields: Seq<Seq<char>>,
    name: Seq<char>,
    i: int,
)
    requires
        0 <= i < values.len(),
        fields[values[i].field_index as int] == name,
        forall|k: int| 0 <= k < i ==> fields[(#[trigger] values[k]).field_index as int] != name,
    ensures
        named_value(values, fields, name) == Some(values[i].value),
    decreases i,
{
    if i > 0 {
        let rest = values.skip(1);
        assert(fields[values[0].field_index as int] != name);
        assert forall|k: int| 0 <= k < i - 1 implies fields[(
        #[trigger] rest[k]).field_index as int] != name by {
            assert(rest[k] == values[k + 1]);
        }
        assert(rest[i - 1] == values[i]);
        law_value_of_a_name(rest, fields, name, i - 1);
    }
}

/// A name that no field has has no value.
pub proof fn law_no_value_without_a_field(
    values: Seq<I16LeFieldValue>,
    fields: Seq<Seq<char>>,
    name: Seq<char>,
)
    requires
        forall|k: int|
            0 <= k < values.len() ==> fields[(#[trigger] values[k]).field_index as int] != name,
    ensures
        named_value(values, fields, name) is None,
    decreases values.len(),
{
    if values.len() > 0 {
        let rest = values.skip(1);
        assert(fields[values[0].field_index as int] != name);
        assert forall|k: int| 0 <= k < rest.len() implies fields[(
        #[trigger] rest[k]).field_index as int] != name by {
            assert(rest[k] == values[k + 1]);
        }
        law_no_value_without_a_field(rest, fields, name);
    }
}

/// A motion sample holds on each axis the value of the field that the decoder names for it, the
/// rates and the accelerations each in the order in which they are named, the time that the
/// metadata gives where it is valid, and the temperature where a field is named for it.
pub proof fn law_motion_follows_names(
    values: Seq<I16LeFieldValue>,
    d: DecoderView,
    meta: Option<ReportMeta>,
    axis: int,
)
    requires
        0 <= axis < 3,
    ensures
        motion_of(values, d, meta) matches Some(m) ==> {
            &&& d.gyro_fields.len() >= 3
            &&& d.accel_fields.len() >= 3
            &&& m.gyro.len() == 3
            &&& m.acc.len() == 3
            &&& named_value(values, d.fields, d.gyro_fields[axis]) == Some(m.gyro[axis])
            &&& named_value(values, d.fields, d.accel_fields[axis]) == Some(m.acc[axis])
            &&& d.temp_field is None ==> m.temp is None
            &&& d.temp_field matches Some(t) ==> m.temp == named_value(values, d.fields, t)
            &&& m.timestamp_us is Some <==> (meta matches Some(x) && x.flags % 2 == 1)
            &&& m.timestamp_us matches Some(t) ==> meta->Some_0.timestamp_us == t
        },
        motion_of(values, d, meta) is None <==> d.gyro_fields.len() < 3 || d.accel_fields.len() < 3
            || exists|a: int|
            0 <= a < 3 && (#[trigger] named_value(values, d.fields, d.gyro_fields[a]) is None
                || #[trigger] named_value(values, d.fields, d.accel_fields[a]) is None),
{
    if motion_of(values, d, meta) is None && d.gyro_fields.len() >= 3 && d.accel_fields.len() >= 3 {
        let g = |a: int| named_value(values, d.fields, d.gyro_fields[a]) is None;
        let c = |a: int| named_value(values, d.fields, d.accel_fields[a]) is None;
        assert(g(0) || g(1) || g(2) || c(0) || c(1) || c(2));
    }
}

/// The bytes of one number, low byte first, in two's complement.
pub open spec fn i16_bytes(v: i16) -> Seq<u8> {
    le::le16(
        if v >= 0 {
            v as u16
        } else {
            (v + 0x1_0000) as u16
        },
    )
}

/// A number reads back from its bytes.
pub proof fn law_i16_round_trip(s: Seq<u8>, at: int, v: i16)
    requires
        0 <= at,
        at + 2 <= s.len(),
        s.subrange(at, at + 2) == i16_bytes(v),
    ensures
        i16_at(s, at) == v,
{
    let u: u16 = if v >= 0 {
        v as u16
    } else {
        (v + 0x1_0000) as u16
    };
    le::law_le16_round_trip(s, at, u);
}

} // verus!
