//! The history of motion: what samples did in each stretch of time, in counts of the sensor.
use crate::bounded;
use crate::bounded::{push_history_capped, push_vec_capped, MAX_HISTORY_BARS};
use crate::modes::MotionSeries;
use std::collections::VecDeque;
use vstd::prelude::*;

verus! {

/// How long a bar of history takes.
pub const HISTORY_BUCKET_US: u64 = 1_000_000;

/// How many samples are kept of a bar.
pub const MAX_HISTORY_BAR_SAMPLES: usize = 4096;

/// A value for each of three axes.
pub type Triple = [i16; 3];

/// The first, largest, smallest and last value of an axis.
#[derive(Debug, Clone, Copy, PartialEq, Eq, Structural)]
pub struct AxisOhlc {
    pub open: i16,
    pub high: i16,
    pub low: i16,
    pub close: i16,
}

/// The first, largest, smallest and last value of each axis.
pub type TripleOhlc = [AxisOhlc; 3];

/// One value as a range.
pub open spec fn one_value(v: i16) -> AxisOhlc {
    AxisOhlc { open: v, high: v, low: v, close: v }
}

/// A range with one more value.
pub open spec fn with_value(o: AxisOhlc, v: i16) -> AxisOhlc {
    AxisOhlc {
        open: o.open,
        high: if v > o.high {
            v
        } else {
            o.high
        },
        low: if v < o.low {
            v
        } else {
            o.low
        },
        close: v,
    }
}

/// The range of values.
pub open spec fn range_of(values: Seq<i16>) -> AxisOhlc
    decreases values.len(),
{
    if values.len() <= 1 {
        one_value(values[0])
    } else {
        with_value(range_of(values.drop_last()), values.last())
    }
}

/// What the range of values is: the first, the last, and bounds that are reached.
pub proof fn law_range_of(values: Seq<i16>)
    requires
        values.len() > 0,
    ensures
        range_of(values).open == values[0],
        range_of(values).close == values.last(),
        forall|i: int|
            0 <= i < values.len() ==> range_of(values).low <= #[trigger] values[i]
                <= range_of(values).high,
        values.contains(range_of(values).high),
        values.contains(range_of(values).low),
    decreases values.len(),
{
    if values.len() == 1 {
        assert(values.contains(values[0]));
    } else {
        let rest = values.drop_last();
        law_range_of(rest);
        let r = range_of(rest);
        let last = values.last();
        assert(values[values.len() - 1] == last);
        let i = choose|i: int| 0 <= i < rest.len() && rest[i] == r.high;
        let j = choose|j: int| 0 <= j < rest.len() && rest[j] == r.low;
        assert(values[i] == r.high);
        assert(values[j] == r.low);
        assert forall|k: int| 0 <= k < values.len() implies range_of(values).low
            <= #[trigger] values[k] <= range_of(values).high by {
            if k < rest.len() {
                assert(values[k] == rest[k]);
            }
        }
    }
}

impl AxisOhlc {
    /// One value as a range.
    pub fn new(value: i16) -> (o: Self)
        ensures
            o == one_value(value),
    {
        AxisOhlc { open: value, high: value, low: value, close: value }
    }

    /// Adds a value.
    pub fn push(&mut self, value: i16)
        ensures
            *final(self) == with_value(*old(self), value),
    {
        if value > self.high {
            self.high = value;
        }
        if value < self.low {
            self.low = value;
        }
        self.close = value;
    }
}

/// A sample as ranges.
pub open spec fn one_triple(t: Seq<i16>) -> Seq<AxisOhlc> {
    seq![one_value(t[0]), one_value(t[1]), one_value(t[2])]
}

/// Ranges with one more sample.
pub open spec fn with_triple(o: Seq<AxisOhlc>, t: Seq<i16>) -> Seq<AxisOhlc> {
    seq![with_value(o[0], t[0]), with_value(o[1], t[1]), with_value(o[2], t[2])]
}

/// A sample as ranges.
pub fn new_triple_ohlc(sample: Triple) -> (o: TripleOhlc)
    ensures
        o@ == one_triple(sample@),
{
    let o: TripleOhlc = [AxisOhlc::new(sample[0]), AxisOhlc::new(sample[1]), AxisOhlc::new(sample[2])];
    assert(o@ =~= one_triple(sample@));
    o
}

/// Ranges with one more sample.
pub fn push_triple_ohlc(bucket: &mut TripleOhlc, sample: Triple)
    ensures
        final(bucket)@ == with_triple(old(bucket)@, sample@),
{
    let mut x: AxisOhlc = bucket[0];
    let mut y: AxisOhlc = bucket[1];
    let mut z: AxisOhlc = bucket[2];
    x.push(sample[0]);
    y.push(sample[1]);
    z.push(sample[2]);
    *bucket = [x, y, z];
    assert(bucket@ =~= with_triple(old(bucket)@, sample@));
}

/// What samples stand for.
pub open spec fn triple_views(samples: Seq<Triple>) -> Seq<Seq<i16>> {
    samples.map_values(|t: Triple| t@)
}

/// A bar of history: the ranges, and the newest samples.
#[derive(Debug, Clone, PartialEq, Eq)]
pub struct HistoryBar {
    pub acc: TripleOhlc,
    pub gyro: TripleOhlc,
    pub acc_samples: Vec<Triple>,
    pub gyro_samples: Vec<Triple>,
}

/// A bar of history, as a mathematical value.
#[verifier::ext_equal]
pub struct BarView {
    pub acc: Seq<AxisOhlc>,
    pub gyro: Seq<AxisOhlc>,
    pub acc_samples: Seq<Seq<i16>>,
    pub gyro_samples: Seq<Seq<i16>>,
}

impl HistoryBar {
    pub open spec fn view(self) -> BarView {
        BarView {
            acc: self.acc@,
            gyro: self.gyro@,
            acc_samples: triple_views(self.acc_samples@),
            gyro_samples: triple_views(self.gyro_samples@),
        }
    }

    /// The samples of a series.
    pub fn samples_for(&self, series: MotionSeries) -> (s: &[Triple])
        ensures
            triple_views(s@) == bar_samples(self.view(), series),
    {
        match series {
            MotionSeries::Acc => self.acc_samples.as_slice(),
            MotionSeries::Gyro => self.gyro_samples.as_slice(),
        }
    }
}

/// The samples of a series in a bar.
pub open spec fn bar_samples(bar: BarView, series: MotionSeries) -> Seq<Seq<i16>> {
    match series {
        MotionSeries::Acc => bar.acc_samples,
        MotionSeries::Gyro => bar.gyro_samples,
    }
}

/// The ranges of a series in a bar.
pub open spec fn bar_ranges(bar: BarView, series: MotionSeries) -> Seq<AxisOhlc> {
    match series {
        MotionSeries::Acc => bar.acc,
        MotionSeries::Gyro => bar.gyro,
    }
}

/// The bar of one sample.
pub open spec fn one_bar(acc: Seq<i16>, gyro: Seq<i16>) -> BarView {
    BarView {
        acc: one_triple(acc),
        gyro: one_triple(gyro),
        acc_samples: seq![acc],
        gyro_samples: seq![gyro],
    }
}

/// A bar with one more sample.
pub open spec fn bar_with(bar: BarView, acc: Seq<i16>, gyro: Seq<i16>) -> BarView {
    BarView {
        acc: with_triple(bar.acc, acc),
        gyro: with_triple(bar.gyro, gyro),
        acc_samples: bounded::capped(bar.acc_samples, acc, MAX_HISTORY_BAR_SAMPLES as nat),
        gyro_samples: bounded::capped(bar.gyro_samples, gyro, MAX_HISTORY_BAR_SAMPLES as nat),
    }
}

/// A bar that is not finished, and when it started: by the clock of the device where that is
/// known, and by the clock here.
#[derive(Debug, Clone, PartialEq, Eq)]
pub struct HistoryBucket {
    pub bar: HistoryBar,
    pub start_timestamp_us: Option<u64>,
    pub started_at_us: u64,
}

/// Whether a bar is finished before a sample: it is as long as it may be, by the clock of the
/// device where both times are known, else by the clock here.
pub open spec fn is_over(
    start: Option<u64>,
    started_at: u64,
    timestamp: Option<u64>,
    now: u64,
) -> bool {
    match (start, timestamp) {
        (Some(s), Some(t)) => t >= s && t - s >= HISTORY_BUCKET_US,
        _ => now - started_at >= HISTORY_BUCKET_US,
    }
}

impl HistoryBucket {
    /// Starts a bar with a sample.
    pub fn new(acc: Triple, gyro: Triple, timestamp_us: Option<u64>, now_us: u64) -> (b: Self)
        ensures
            b.bar.view() == one_bar(acc@, gyro@),
            b.start_timestamp_us == timestamp_us,
            b.started_at_us == now_us,
    {
        let mut acc_samples: Vec<Triple> = Vec::new();
        acc_samples.push(acc);
        let mut gyro_samples: Vec<Triple> = Vec::new();
        gyro_samples.push(gyro);
        assert(triple_views(acc_samples@) =~= seq![acc@]);
        assert(triple_views(gyro_samples@) =~= seq![gyro@]);
        HistoryBucket {
            bar: HistoryBar {
                acc: new_triple_ohlc(acc),
                gyro: new_triple_ohlc(gyro),
                acc_samples,
                gyro_samples,
            },
            start_timestamp_us: timestamp_us,
            started_at_us: now_us,
        }
    }

    /// Adds a sample.
    pub fn push(&mut self, acc: Triple, gyro: Triple)
        ensures
            final(self).bar.view() == bar_with(old(self).bar.view(), acc@, gyro@),
            final(self).start_timestamp_us == old(self).start_timestamp_us,
            final(self).started_at_us == old(self).started_at_us,
    {
        push_triple_ohlc(&mut self.bar.acc, acc);
        push_triple_ohlc(&mut self.bar.gyro, gyro);
        push_vec_capped(&mut self.bar.acc_samples, acc, MAX_HISTORY_BAR_SAMPLES);
        push_vec_capped(&mut self.bar.gyro_samples, gyro, MAX_HISTORY_BAR_SAMPLES);
        assert(self.bar.view().acc_samples =~= bar_with(
            old(self).bar.view(),
            acc@,
            gyro@,
        ).acc_samples);
        assert(self.bar.view().gyro_samples =~= bar_with(
            old(self).bar.view(),
            acc@,
            gyro@,
        ).gyro_samples);
    }

    /// Whether the bar is finished before a sample.
    pub fn should_finish_before(&self, timestamp_us: Option<u64>, now_us: u64) -> (r: bool)
        ensures
            r == is_over(self.start_timestamp_us, self.started_at_us, timestamp_us, now_us),
    {
        match (self.start_timestamp_us, timestamp_us) {
            (Some(s), Some(t)) => t >= s && t - s >= HISTORY_BUCKET_US,
            _ => now_us >= self.started_at_us && now_us - self.started_at_us >= HISTORY_BUCKET_US,
        }
    }

    /// The bar so far.
    pub fn to_bar(&self) -> (b: HistoryBar)
        ensures
            b.view() == self.bar.view(),
    {
        HistoryBar {
            acc: self.bar.acc,
            gyro: self.bar.gyro,
            acc_samples: copy_triples(&self.bar.acc_samples),
            gyro_samples: copy_triples(&self.bar.gyro_samples),
        }
    }
}

fn copy_triples(from: &[Triple]) -> (c: Vec<Triple>)
    ensures
        c@ == from@,
{
    let mut c: Vec<Triple> = Vec::new();
    let mut i: usize = 0;
    while i < from.len()
        invariant
            i <= from.len(),
            c@ == from@.take(i as int),
        decreases from.len() - i,
    {
        c.push(from[i]);
        assert(c@ =~= from@.take(i + 1));
        i += 1;
    }
    assert(c@ =~= from@);
    c
}

/// The history of motion: the finished bars, and the one that is not.
#[derive(Debug, Clone, PartialEq, Eq)]
pub struct History {
    pub bars: VecDeque<HistoryBar>,
    pub bucket: Option<HistoryBucket>,
}

/// An unfinished bar, as a mathematical value.
#[verifier::ext_equal]
pub struct BucketView {
    pub bar: BarView,
    pub start: Option<u64>,
    pub started_at: u64,
}

/// The history, as a mathematical value.
#[verifier::ext_equal]
pub struct HistoryView {
    pub bars: Seq<BarView>,
    pub bucket: Option<BucketView>,
}

/// The history once the unfinished bar is finished.
pub open spec fn finished(h: HistoryView) -> HistoryView {
    match h.bucket {
        Some(b) => HistoryView {
            bars: bounded::capped(h.bars, b.bar, MAX_HISTORY_BARS as nat),
            bucket: None,
        },
        None => h,
    }
}

/// The history with one more sample.
pub open spec fn history_with(
    h: HistoryView,
    acc: Seq<i16>,
    gyro: Seq<i16>,
    timestamp: Option<u64>,
    now: u64,
) -> HistoryView {
    let ready = match h.bucket {
        Some(b) => if is_over(b.start, b.started_at, timestamp, now) {
            finished(h)
        } else {
            h
        },
        None => h,
    };
    HistoryView {
        bars: ready.bars,
        bucket: Some(
            match ready.bucket {
                Some(b) => BucketView {
                    bar: bar_with(b.bar, acc, gyro),
                    start: b.start,
                    started_at: b.started_at,
                },
                None => BucketView {
                    bar: one_bar(acc, gyro),
                    start: timestamp,
                    started_at: now,
                },
            },
        ),
    }
}

/// All bars, the unfinished one last.
pub open spec fn all_bars(h: HistoryView) -> Seq<BarView> {
    match h.bucket {
        Some(b) => h.bars.push(b.bar),
        None => h.bars,
    }
}

impl History {
    pub open spec fn view(self) -> HistoryView {
        HistoryView {
            bars: self.bars@.map_values(|b: HistoryBar| b.view()),
            bucket: match self.bucket {
                Some(b) => Some(
                    BucketView {
                        bar: b.bar.view(),
                        start: b.start_timestamp_us,
                        started_at: b.started_at_us,
                    },
                ),
                None => None,
            },
        }
    }

    /// An empty history.
    pub fn new() -> (h: Self)
        ensures
            h.view() == (HistoryView { bars: Seq::empty(), bucket: None }),
    {
        let h = History { bars: VecDeque::new(), bucket: None };
        assert(h.view().bars =~= Seq::<BarView>::empty());
        h
    }

    /// Finishes the unfinished bar, where there is one.
    pub fn finish_history_bucket(&mut self)
        ensures
            final(self).view() == finished(old(self).view()),
    {
        let ghost before = self.view();
        let bar: HistoryBar = match &self.bucket {
            Some(b) => b.to_bar(),
            None => {
                return;
            },
        };
        self.bucket = None;
        push_history_capped(&mut self.bars, bar);
        assert(self.view().bars =~= bounded::capped(
            before.bars,
            bar.view(),
            MAX_HISTORY_BARS as nat,
        ));
    }

    /// Adds a sample. `now_us` is the clock here.
    pub fn push_history_sample(
        &mut self,
        acc: Triple,
        gyro: Triple,
        timestamp_us: Option<u64>,
        now_us: u64,
    )
        ensures
            final(self).view() == history_with(old(self).view(), acc@, gyro@, timestamp_us, now_us),
    {
        let over: bool = match &self.bucket {
            Some(b) => b.should_finish_before(timestamp_us, now_us),
            None => false,
        };
        if over {
            self.finish_history_bucket();
        }
        let ghost ready = self.view();
        let next: HistoryBucket = match self.bucket.take() {
            Some(b) => {
                let mut b = b;
                b.push(acc, gyro);
                b
            },
            None => HistoryBucket::new(acc, gyro, timestamp_us, now_us),
        };
        self.bucket = Some(next);
        assert(self.view().bars =~= ready.bars);
    }

    /// How many bars there are, with the unfinished one.
    pub fn history_bar_count(&self) -> (n: usize)
        requires
            all_bars(self.view()).len() <= usize::MAX,
        ensures
            n == all_bars(self.view()).len(),
    {
        match &self.bucket {
            Some(_) => self.bars.len() + 1,
            None => self.bars.len(),
        }
    }

    /// The samples of a bar, where there are some.
    pub fn history_bar_samples(&self, series: MotionSeries, bar_index: usize) -> (r: Option<
        Vec<Triple>,
    >)
        ensures
            match r {
                Some(s) => bar_index < all_bars(self.view()).len() && triple_views(s@) == bar_samples(
                    all_bars(self.view())[bar_index as int],
                    series,
                ) && s@.len() > 0,
                None => bar_index >= all_bars(self.view()).len() || bar_samples(
                    all_bars(self.view())[bar_index as int],
                    series,
                ).len() == 0,
            },
    {
        let samples: &[Triple] = if bar_index < self.bars.len() {
            assert(self.view().bars[bar_index as int] == self.bars@[bar_index as int].view());
            self.bars[bar_index].samples_for(series)
        } else if bar_index == self.bars.len() {
            match &self.bucket {
                Some(b) => b.bar.samples_for(series),
                None => {
                    return None;
                },
            }
        } else {
            return None;
        };
        if samples.len() == 0 {
            None
        } else {
            Some(copy_triples(samples))
        }
    }

    /// The ranges of a series in each bar.
    pub fn history_data(&self, series: MotionSeries) -> (data: Vec<TripleOhlc>)
        ensures
            data@.len() == all_bars(self.view()).len(),
            forall|i: int|
                0 <= i < data@.len() ==> (#[trigger] data@[i])@ == bar_ranges(
                    all_bars(self.view())[i],
                    series,
                ),
    {
        let mut data: Vec<TripleOhlc> = Vec::new();
        let mut i: usize = 0;
        while i < self.bars.len()
            invariant
                i <= self.bars.len(),
                data@.len() == i,
                forall|k: int|
                    0 <= k < i ==> (#[trigger] data@[k])@ == bar_ranges(self.view().bars[k], series),
            decreases self.bars.len() - i,
        {
            assert(self.view().bars[i as int] == self.bars@[i as int].view());
            match series {
                MotionSeries::Acc => {
                    data.push(self.bars[i].acc);
                },
                MotionSeries::Gyro => {
                    data.push(self.bars[i].gyro);
                },
            }
            i += 1;
        }
        match &self.bucket {
            Some(b) => {
                match series {
                    MotionSeries::Acc => {
                        data.push(b.bar.acc);
                    },
                    MotionSeries::Gyro => {
                        data.push(b.bar.gyro);
                    },
                }
            },
            None => {},
        }
        data
    }
}

/// The history never holds more bars than it may, and ends with the newest sample.
pub proof fn law_history_fits(
    h: HistoryView,
    acc: Seq<i16>,
    gyro: Seq<i16>,
    timestamp: Option<u64>,
    now: u64,
)
    requires
        h.bars.len() <= MAX_HISTORY_BARS,
    ensures
        history_with(h, acc, gyro, timestamp, now).bars.len() <= MAX_HISTORY_BARS,
        all_bars(history_with(h, acc, gyro, timestamp, now)).last().acc_samples.last() == acc,
        all_bars(history_with(h, acc, gyro, timestamp, now)).last().gyro_samples.last() == gyro,
{
}

/// The ranges of an unfinished bar after samples of one axis are those of its values.
pub proof fn law_ranges_follow_values(values: Seq<i16>, v: i16)
    requires
        values.len() > 0,
    ensures
        range_of(values.push(v)) == with_value(range_of(values), v),
{
    assert(values.push(v).drop_last() =~= values);
}

} // verus!
