//! Which part of the charts is shown, and which chart is being dragged.
use crate::history;
use crate::history::{History, HistoryView};
use crate::modes::MotionSeries;
use crate::shown::Intraday;
use vstd::prelude::*;

verus! {

/// Something for each series that has it.
#[derive(Debug, Clone, Copy, PartialEq, Eq)]
pub struct PerSeries<T> {
    pub acc: Option<T>,
    pub gyro: Option<T>,
}

impl<T: Copy> PerSeries<T> {
    /// What a series has.
    pub open spec fn of(self, series: MotionSeries) -> Option<T> {
        match series {
            MotionSeries::Acc => self.acc,
            MotionSeries::Gyro => self.gyro,
        }
    }

    /// The same but for one series.
    pub open spec fn with(self, series: MotionSeries, value: Option<T>) -> Self {
        match series {
            MotionSeries::Acc => PerSeries { acc: value, gyro: self.gyro },
            MotionSeries::Gyro => PerSeries { acc: self.acc, gyro: value },
        }
    }

    /// What a series has.
    pub fn get(&self, series: MotionSeries) -> (value: Option<T>)
        ensures
            value == self.of(series),
    {
        match series {
            MotionSeries::Acc => self.acc,
            MotionSeries::Gyro => self.gyro,
        }
    }

    /// Changes what a series has.
    pub fn set(&mut self, series: MotionSeries, value: Option<T>)
        ensures
            *final(self) == old(self).with(series, value),
    {
        match series {
            MotionSeries::Acc => {
                self.acc = value;
            },
            MotionSeries::Gyro => {
                self.gyro = value;
            },
        }
    }
}

/// What is set for one series is what it has, and other series keep what they have.
pub proof fn law_set_for_one_series<T: Copy>(
    all: PerSeries<T>,
    series: MotionSeries,
    other: MotionSeries,
    value: Option<T>,
)
    ensures
        all.with(series, value).of(series) == value,
        other != series ==> all.with(series, value).of(other) == all.of(other),
{
}

/// The ranges that were chosen for the charts, upwards and along, the chart that is dragged, and the
/// bar whose samples are shown.
#[derive(Debug, Clone, Copy, PartialEq, Eq)]
pub struct Charts<Y, X> {
    pub y: PerSeries<Y>,
    pub x: PerSeries<X>,
    pub drag: Option<MotionSeries>,
    pub intraday: Option<Intraday>,
}

impl<Y: Copy, X: Copy> Charts<Y, X> {
    /// Charts that show everything.
    pub fn new() -> (c: Self)
        ensures
            c.y.acc is None && c.y.gyro is None,
            c.x.acc is None && c.x.gyro is None,
            c.drag is None,
            c.intraday is None,
    {
        Charts {
            y: PerSeries { acc: None, gyro: None },
            x: PerSeries { acc: None, gyro: None },
            drag: None,
            intraday: None,
        }
    }

    /// The range that is shown upwards, `auto` being the one that shows everything.
    pub fn chart_display_range(&self, series: MotionSeries, auto: Y) -> (range: Y)
        ensures
            range == (match self.y.of(series) {
                Some(r) => r,
                None => auto,
            }),
    {
        match self.y.get(series) {
            Some(r) => r,
            None => auto,
        }
    }

    /// The range that is shown along, `auto` being the one that shows everything.
    pub fn chart_display_x_range(&self, series: MotionSeries, auto: X) -> (range: X)
        ensures
            range == (match self.x.of(series) {
                Some(r) => r,
                None => auto,
            }),
    {
        match self.x.get(series) {
            Some(r) => r,
            None => auto,
        }
    }

    /// Chooses the ranges of a chart.
    pub fn set_chart_ranges(&mut self, series: MotionSeries, y: Y, x: X)
        ensures
            final(self).y == old(self).y.with(series, Some(y)),
            final(self).x == old(self).x.with(series, Some(x)),
            final(self).drag == old(self).drag,
            final(self).intraday == old(self).intraday,
    {
        self.y.set(series, Some(y));
        self.x.set(series, Some(x));
    }

    /// Shows everything in a chart again, which is then no longer dragged.
    pub fn reset_chart_zoom(&mut self, series: MotionSeries)
        ensures
            final(self).y == old(self).y.with(series, None),
            final(self).x == old(self).x.with(series, None),
            final(self).drag == (if old(self).drag == Some(series) {
                None
            } else {
                old(self).drag
            }),
            final(self).intraday == old(self).intraday,
    {
        self.y.set(series, None);
        self.x.set(series, None);
        self.end_chart_drag(series);
    }

    /// Starts to drag a chart, `inside` being whether the pointer is on it.
    pub fn start_chart_drag(&mut self, series: MotionSeries, inside: bool)
        ensures
            final(self).y == old(self).y,
            final(self).x == old(self).x,
            final(self).drag == (if inside {
                Some(series)
            } else {
                old(self).drag
            }),
            final(self).intraday == old(self).intraday,
    {
        if inside {
            self.drag = Some(series);
        }
    }

    /// Whether a chart follows the pointer, which holds it or not. Once it is let go it is no
    /// longer dragged.
    pub fn update_chart_drag(&mut self, series: MotionSeries, held: bool) -> (follows: bool)
        ensures
            follows == (held && old(self).drag == Some(series)),
            final(self).y == old(self).y,
            final(self).x == old(self).x,
            final(self).drag == (if !held && old(self).drag == Some(series) {
                None
            } else {
                old(self).drag
            }),
            final(self).intraday == old(self).intraday,
    {
        if held {
            match self.drag {
                Some(s) => s == series,
                None => false,
            }
        } else {
            self.end_chart_drag(series);
            false
        }
    }

    /// Stops to drag a chart, and whether it was dragged.
    pub fn end_chart_drag(&mut self, series: MotionSeries) -> (ended: bool)
        ensures
            ended == (old(self).drag == Some(series)),
            final(self).y == old(self).y,
            final(self).x == old(self).x,
            final(self).drag == (if ended {
                None
            } else {
                old(self).drag
            }),
            final(self).intraday == old(self).intraday,
    {
        match self.drag {
            Some(s) => if s == series {
                self.drag = None;
                true
            } else {
                false
            },
            None => false,
        }
    }

    /// Shows the samples of a bar and returns them. A bar without any leaves everything as it is.
    pub fn show_intraday(&mut self, h: &History, series: MotionSeries, bar_index: usize) -> (r:
        Option<Vec<history::Triple>>)
        requires
            history::all_bars(h.view()).len() <= usize::MAX,
        ensures
            final(self).y == old(self).y,
            final(self).x == old(self).x,
            final(self).drag == old(self).drag,
            match r {
                Some(samples) => final(self).intraday == Some(
                    Intraday {
                        series,
                        bar_index,
                        bar_count: history::all_bars(h.view()).len() as usize,
                        samples: samples@.len() as usize,
                    },
                ) && intraday_of(h.view(), series, bar_index) == Some(
                    history::triple_views(samples@),
                ),
                None => final(self).intraday == old(self).intraday && intraday_of(
                    h.view(),
                    series,
                    bar_index,
                ) is None,
            },
    {
        match show_history_intraday(h, series, bar_index) {
            Some((view, samples)) => {
                self.intraday = Some(view);
                Some(samples)
            },
            None => None,
        }
    }

    /// Shows the bars again.
    pub fn hide_history_intraday(&mut self)
        ensures
            final(self).y == old(self).y,
            final(self).x == old(self).x,
            final(self).drag == old(self).drag,
            final(self).intraday is None,
    {
        self.intraday = None;
    }

    /// Lets go of the samples that the charts show: no chart is dragged, and the bars are shown
    /// again. The chosen ranges stay.
    pub fn forget_samples(&mut self)
        ensures
            final(self).y == old(self).y,
            final(self).x == old(self).x,
            final(self).drag is None,
            final(self).intraday is None,
    {
        self.intraday = None;
        self.drag = None;
    }
}

/// The samples of a bar, if it has some.
pub open spec fn intraday_of(h: HistoryView, series: MotionSeries, bar_index: usize) -> Option<
    Seq<Seq<i16>>,
> {
    let bars = history::all_bars(h);
    if bar_index < bars.len() && history::bar_samples(bars[bar_index as int], series).len() > 0 {
        Some(history::bar_samples(bars[bar_index as int], series))
    } else {
        None
    }
}

/// The samples of a bar as they are shown, if it has some.
pub fn show_history_intraday(h: &History, series: MotionSeries, bar_index: usize) -> (r: Option<
    (Intraday, Vec<history::Triple>),
>)
    requires
        history::all_bars(h.view()).len() <= usize::MAX,
    ensures
        match r {
            Some((view, samples)) => {
                &&& intraday_of(h.view(), series, bar_index) == Some(
                    history::triple_views(samples@),
                )
                &&& view == (Intraday {
                    series,
                    bar_index,
                    bar_count: history::all_bars(h.view()).len() as usize,
                    samples: samples@.len() as usize,
                })
            },
            None => intraday_of(h.view(), series, bar_index) is None,
        },
{
    let bar_count: usize = h.history_bar_count();
    match h.history_bar_samples(series, bar_index) {
        Some(samples) => {
            let count: usize = samples.len();
            Some((Intraday { series, bar_index, bar_count, samples: count }, samples))
        },
        None => None,
    }
}

} // verus!
