//! What is kept of a stream of reports: counts, ranges, samples and lines.

use vstd::prelude::*;

use crate::catalog::AccessKind;
use crate::charts;
use crate::health;
use crate::history;
use crate::history::{AxisOhlc, BarView, BucketView, HistoryView};
use crate::modes::MotionSeries;
use crate::panel;
use crate::processor::{EventView, SummaryView};
use crate::samples::MotionView;
use crate::text;
use crate::watch;
use crate::watch::ObserveCounts;
use crate::wire::ReportMeta;
use crate::workbench;
use crate::workbench::StreamView;

verus! {

// ---- counts

/// What is found of a report with metadata. Its number is compared with that of the report before:
/// the next number, round the largest one, is in order; a larger one leaves a gap, and any other is a
/// reset. Its time, where it is valid, is compared with the valid time before.
pub proof fn law_observed_report(c: ObserveCounts, m: ReportMeta)
    requires
        c.seq < u64::MAX,
    ensures
        ({
            let info = watch::info_of(c, Some(m));
            let id = m.frame_id as int;
            &&& info.seq == c.seq + 1
            &&& info.meta == Some(m)
            &&& c.last_frame_id is None ==> info.frame_gap is None && info.frame_reset is None
            &&& c.last_frame_id matches Some(p) ==> {
                let next = (p + 1) % 0x1_0000_0000;
                &&& id == next ==> info.frame_gap is None && info.frame_reset is None
                &&& id != next && id > p ==> info.frame_gap == Some((id - p - 1) as u32)
                    && info.frame_reset is None
                &&& id != next && id <= p ==> info.frame_gap is None && info.frame_reset == Some(
                    (p, m.frame_id),
                )
            }
            &&& m.flags % 2 == 0 || c.last_timestamp_us is None ==> info.dt_us is None
                && info.timestamp_rewind is None
            &&& m.flags % 2 == 1 && c.last_timestamp_us is Some ==> {
                let p = c.last_timestamp_us->Some_0;
                &&& m.timestamp_us >= p ==> info.timestamp_rewind is None && info.dt_us == Some(
                    (m.timestamp_us - p) as u64,
                )
                &&& m.timestamp_us < p ==> info.dt_us is None && info.timestamp_rewind == Some(
                    (p, m.timestamp_us),
                )
            }
        }),
        ({
            let info = watch::info_of(c, None);
            &&& info.seq == c.seq + 1
            &&& info.meta is None && info.frame_gap is None && info.frame_reset is None
            &&& info.dt_us is None && info.timestamp_rewind is None
        }),
{
}

/// The last value that is there.
pub open spec fn last_some(values: Seq<Option<int>>) -> Option<int>
    decreases values.len(),
{
    if values.len() == 0 {
        None
    } else if values.last() is Some {
        values.last()
    } else {
        last_some(values.drop_last())
    }
}

/// The sum of what a value and the nearest one before it give, over all values that are there.
pub open spec fn neighbours(values: Seq<Option<int>>, give: spec_fn(int, int) -> int) -> int
    decreases values.len(),
{
    if values.len() == 0 {
        0
    } else {
        neighbours(values.drop_last(), give) + (match (
            last_some(values.drop_last()),
            values.last(),
        ) {
            (Some(a), Some(b)) => give(a, b),
            _ => 0,
        })
    }
}

/// The numbers of reports.
pub open spec fn numbers(reports: Seq<Option<ReportMeta>>) -> Seq<Option<int>> {
    Seq::new(
        reports.len(),
        |i: int|
            match reports[i] {
                Some(m) => Some(m.frame_id as int),
                None => None,
            },
    )
}

/// The valid times of reports.
pub open spec fn times(reports: Seq<Option<ReportMeta>>) -> Seq<Option<int>> {
    Seq::new(
        reports.len(),
        |i: int|
            match reports[i] {
                Some(m) => if m.flags % 2 == 1 {
                    Some(m.timestamp_us as int)
                } else {
                    None
                },
                None => None,
            },
    )
}

/// Every count of a stream has room for the next report.
pub open spec fn watch_room(reports: Seq<Option<ReportMeta>>) -> bool {
    forall|n: int|
        0 <= n < reports.len() ==> watch::counts_room(
            watch::counts_of(reports.take(n)),
            #[trigger] reports[n],
        )
}

/// The counts of a stream: the reports, the numbers that are missing between neighbours, and the
/// neighbours whose number or time goes back.
pub proof fn law_watched_stream(reports: Seq<Option<ReportMeta>>)
    requires
        watch_room(reports),
    ensures
        ({
            let c = watch::counts_of(reports);
            &&& c.seq == reports.len()
            &&& c.last_frame_id is Some <==> last_some(numbers(reports)) is Some
            &&& c.last_frame_id is Some ==> last_some(numbers(reports)) == Some(
                c.last_frame_id->Some_0 as int,
            )
            &&& c.last_timestamp_us is Some <==> last_some(times(reports)) is Some
            &&& c.last_timestamp_us is Some ==> last_some(times(reports)) == Some(
                c.last_timestamp_us->Some_0 as int,
            )
            &&& c.frame_gap_total == neighbours(
                numbers(reports),
                |a: int, b: int|
                    if b > a {
                        b - a - 1
                    } else {
                        0
                    },
            )
            &&& c.frame_reset_count == neighbours(
                numbers(reports),
                |a: int, b: int|
                    if b <= a && b != (a + 1) % 0x1_0000_0000 {
                        1
                    } else {
                        0
                    },
            )
            &&& c.timestamp_rewind_count == neighbours(
                times(reports),
                |a: int, b: int|
                    if b < a {
                        1
                    } else {
                        0
                    },
            )
            &&& c.next_fifo_sample_index == 0
            &&& c.fifo_data_bytes == 0
            &&& c.fifo_sample_count == 0
            &&& c.fifo_len_mismatch_count == 0
            &&& c.fifo_partial_count == 0
            &&& c.fifo_partial_bytes == 0
        }),
    decreases reports.len(),
{
    if reports.len() > 0 {
        let less = reports.drop_last();
        assert forall|n: int| 0 <= n < less.len() implies watch::counts_room(
            watch::counts_of(less.take(n)),
            #[trigger] less[n],
        ) by {
            assert(less.take(n) =~= reports.take(n));
            assert(less[n] == reports[n]);
        }
        law_watched_stream(less);
        assert(reports.take(less.len() as int) =~= less);
        assert(reports[less.len() as int] == reports.last());
        assert(numbers(reports).drop_last() =~= numbers(less));
        assert(times(reports).drop_last() =~= times(less));
    }
}

/// What a report with data adds to the counts: its bytes, its samples, a mismatch where it tells
/// another length, and the bytes that are left over.
pub proof fn law_counted_data(
    c: ObserveCounts,
    fifo_len: Option<u32>,
    data_len: nat,
    samples: nat,
    left: nat,
)
    requires
        watch::data_room(c, fifo_len, data_len, Some((samples, left))),
        c.fifo_data_bytes + data_len <= u64::MAX,
        c.fifo_sample_count + samples <= u64::MAX,
    ensures
        ({
            let plain = watch::counts_with_data(c, fifo_len, data_len, None);
            let after = watch::counts_with_data(c, fifo_len, data_len, Some((samples, left)));
            let differs = fifo_len is Some && fifo_len->Some_0 as nat != data_len;
            &&& after.fifo_data_bytes == c.fifo_data_bytes + data_len
            &&& after.fifo_sample_count == c.fifo_sample_count + samples
            &&& after.fifo_partial_bytes == c.fifo_partial_bytes + left
            &&& after.fifo_partial_count == c.fifo_partial_count + (if left > 0 {
                1int
            } else {
                0
            })
            &&& after.fifo_len_mismatch_count == c.fifo_len_mismatch_count + (if differs {
                1int
            } else {
                0
            })
            &&& after == (ObserveCounts {
                fifo_sample_count: after.fifo_sample_count,
                fifo_partial_bytes: after.fifo_partial_bytes,
                fifo_partial_count: after.fifo_partial_count,
                ..plain
            })
            &&& plain == (ObserveCounts {
                fifo_data_bytes: plain.fifo_data_bytes,
                fifo_len_mismatch_count: plain.fifo_len_mismatch_count,
                ..c
            })
        }),
{
}

/// The byte and sample counts of a stream stop at the largest value.
pub proof fn law_counted_data_saturates(
    c: ObserveCounts,
    fifo_len: Option<u32>,
    data_len: nat,
    samples: nat,
)
    ensures
        ({
            let after = watch::counts_with_data(c, fifo_len, data_len, Some((samples, 0)));
            &&& c.fifo_data_bytes + data_len > u64::MAX ==> after.fifo_data_bytes == u64::MAX
            &&& c.fifo_sample_count + samples > u64::MAX ==> after.fifo_sample_count == u64::MAX
        }),
{
}

/// A report is counted under its kind and under no other.
pub proof fn law_counted_kind(kinds: Map<u32, u64>, kind: u32, other: u32)
    requires
        kinds.dom().contains(kind) ==> kinds[kind] < u64::MAX,
    ensures
        ({
            let after = watch::noted(kinds, kind);
            &&& after.dom() == kinds.dom().insert(kind)
            &&& after[kind] == (if kinds.dom().contains(kind) {
                kinds[kind] + 1
            } else {
                1
            })
            &&& other != kind ==> kinds.dom().contains(other) ==> after[other] == kinds[other]
        }),
{
}

// ---- history

/// The bar after samples of both sensors, one after the other.
pub open spec fn bar_of(acc: Seq<Seq<i16>>, gyro: Seq<Seq<i16>>) -> BarView
    decreases acc.len(),
{
    if acc.len() <= 1 {
        history::one_bar(acc[0], gyro[0])
    } else {
        history::bar_with(bar_of(acc.drop_last(), gyro.drop_last()), acc.last(), gyro.last())
    }
}

/// The range tells the first and the last value, and bounds that are reached.
pub open spec fn tells(o: AxisOhlc, values: Seq<Seq<i16>>, axis: int) -> bool {
    &&& o.open == values[0][axis]
    &&& o.close == values.last()[axis]
    &&& forall|i: int| 0 <= i < values.len() ==> o.low <= (#[trigger] values[i])[axis] <= o.high
    &&& exists|i: int| 0 <= i < values.len() && (#[trigger] values[i])[axis] == o.high
    &&& exists|i: int| 0 <= i < values.len() && (#[trigger] values[i])[axis] == o.low
}

proof fn lemma_tells(o: AxisOhlc, values: Seq<Seq<i16>>, axis: int, t: Seq<i16>)
    requires
        values.len() > 0,
        tells(o, values, axis),
    ensures
        tells(history::with_value(o, t[axis]), values.push(t), axis),
{
    let all = values.push(t);
    let i = choose|i: int| 0 <= i < values.len() && (#[trigger] values[i])[axis] == o.high;
    let j = choose|j: int| 0 <= j < values.len() && (#[trigger] values[j])[axis] == o.low;
    assert(all[i] == values[i]);
    assert(all[j] == values[j]);
    assert(all[values.len() as int] == t);
    let w = history::with_value(o, t[axis]);
    assert forall|k: int| 0 <= k < all.len() implies w.low <= (#[trigger] all[k])[axis]
        <= w.high by {
        if k < values.len() {
            assert(all[k] == values[k]);
        }
    }
}

/// A bar holds its samples, those of each sensor apart, and for each axis the range of that axis.
pub proof fn law_bar_of_samples(acc: Seq<Seq<i16>>, gyro: Seq<Seq<i16>>)
    requires
        0 < acc.len() <= 4096,
        acc.len() == gyro.len(),
    ensures
        bar_of(acc, gyro).acc_samples == acc,
        bar_of(acc, gyro).gyro_samples == gyro,
        bar_of(acc, gyro).acc.len() == 3,
        bar_of(acc, gyro).gyro.len() == 3,
        forall|axis: int|
            0 <= axis < 3 ==> tells(#[trigger] bar_of(acc, gyro).acc[axis], acc, axis),
        forall|axis: int|
            0 <= axis < 3 ==> tells(#[trigger] bar_of(acc, gyro).gyro[axis], gyro, axis),
    decreases acc.len(),
{
    if acc.len() == 1 {
        assert(acc =~= seq![acc[0]]);
        assert(gyro =~= seq![gyro[0]]);
    } else {
        let a = acc.drop_last();
        let g = gyro.drop_last();
        law_bar_of_samples(a, g);
        assert(a.push(acc.last()) =~= acc);
        assert(g.push(gyro.last()) =~= gyro);
        let before = bar_of(a, g);
        assert forall|axis: int| 0 <= axis < 3 implies tells(
            #[trigger] bar_of(acc, gyro).acc[axis],
            acc,
            axis,
        ) by {
            assert(tells(before.acc[axis], a, axis));
            lemma_tells(before.acc[axis], a, axis, acc.last());
        }
        assert forall|axis: int| 0 <= axis < 3 implies tells(
            #[trigger] bar_of(acc, gyro).gyro[axis],
            gyro,
            axis,
        ) by {
            assert(tells(before.gyro[axis], g, axis));
            lemma_tells(before.gyro[axis], g, axis, gyro.last());
        }
    }
}

/// A sample goes into the unfinished bar until a second has passed since that bar began, by the
/// times of the samples where both have one and by the clock otherwise. The bar that is over joins
/// the finished ones, of which the newest are kept, and the sample begins the next bar.
pub proof fn law_sample_in_history(
    h: HistoryView,
    acc: Seq<i16>,
    gyro: Seq<i16>,
    timestamp: Option<u64>,
    now: u64,
)
    ensures
        ({
            let after = history::history_with(h, acc, gyro, timestamp, now);
            let fresh = Some(
                BucketView { bar: bar_of(seq![acc], seq![gyro]), start: timestamp, started_at: now },
            );
            &&& h.bucket is None ==> after.bars == h.bars && after.bucket == fresh
            &&& h.bucket matches Some(b) ==> {
                let passed = if b.start is Some && timestamp is Some {
                    timestamp->Some_0 - b.start->Some_0
                } else {
                    now - b.started_at
                };
                &&& passed < 1_000_000 ==> {
                    &&& after.bars == h.bars
                    &&& after.bucket == Some(
                        BucketView {
                            bar: history::bar_with(b.bar, acc, gyro),
                            start: b.start,
                            started_at: b.started_at,
                        },
                    )
                }
                &&& passed >= 1_000_000 ==> {
                    &&& after.bucket == fresh
                    &&& h.bars.len() < 120 ==> after.bars == h.bars.push(b.bar)
                    &&& h.bars.len() == 120 ==> after.bars == h.bars.push(b.bar).skip(1)
                }
            }
        }),
{
    assert(h.bucket matches Some(b) ==> h.bars.len() == 120 ==> h.bars.skip(1).push(b.bar)
        =~= h.bars.push(b.bar).skip(1));
}

/// A bar is shown by its place among the finished ones and the unfinished one behind them, where it
/// has samples of the series.
pub proof fn law_shown_bar(h: HistoryView, series: MotionSeries, i: usize)
    ensures
        ({
            let bars = match h.bucket {
                Some(b) => h.bars + seq![b.bar],
                None => h.bars,
            };
            let found = charts::intraday_of(h, series, i);
            &&& i >= bars.len() ==> found is None
            &&& i < bars.len() ==> {
                let samples = if series == MotionSeries::Acc {
                    bars[i as int].acc_samples
                } else {
                    bars[i as int].gyro_samples
                };
                found == if samples.len() > 0 {
                    Some(samples)
                } else {
                    None
                }
            }
        }),
{
    assert(h.bucket matches Some(b) ==> h.bars.push(b.bar) =~= h.bars + seq![b.bar]);
}

// ---- what was seen

/// A line joins the end of a list that holds so many lines; the oldest one leaves a full list.
pub open spec fn joins<T>(before: Seq<T>, one: T, after: Seq<T>, most: int) -> bool {
    &&& before.len() < most ==> after == before + seq![one]
    &&& before.len() == most ==> after == (before + seq![one]).skip(1)
}

proof fn lemma_joins<T>(before: Seq<T>, one: T)
    ensures
        before.push(one) == before + seq![one],
        before.len() > 0 ==> before.skip(1).push(one) == (before + seq![one]).skip(1),
{
    assert(before.push(one) =~= before + seq![one]);
    assert(before.len() > 0 ==> before.skip(1).push(one) =~= (before + seq![one]).skip(1));
}

/// What each event leaves of what was seen before it, and what it adds.
pub proof fn law_seen_event(v: StreamView, line: Seq<char>, s: SummaryView, now: u64)
    ensures
        ({
            let log = workbench::after_event(v, EventView::Log(line), now);
            let error = workbench::after_event(v, EventView::Error(line), now);
            let status = workbench::after_event(v, EventView::ExecStatus(line), now);
            let gone = workbench::after_event(v, EventView::Disconnected, now);
            let back = workbench::after_event(v, EventView::Connected(line), now);
            let report = workbench::after_event(v, EventView::Report(s), now);
            let health = workbench::after_event(v, EventView::Health(s.health), now);
            &&& joins(v.logs, line, log.logs, 512)
            &&& log == (StreamView { logs: log.logs, ..v })
            &&& joins(v.logs, "error: "@ + line, error.logs, 512)
            &&& error == (StreamView { logs: error.logs, ..v })
            &&& joins(v.logs, "exec status: "@ + line, status.logs, 512)
            &&& status == (StreamView { logs: status.logs, ..v })
            &&& joins(v.logs, "session disconnected"@, gone.logs, 512)
            &&& gone == (StreamView { logs: gone.logs, connected: false, ..v })
            &&& back == (StreamView { connected: true, label: line, ..v })
            &&& joins(v.reports, s.line, report.reports, 512)
            &&& report.capture.len() > 0 && report.capture.last().meta == s.meta
                && report.capture.last().kind == s.kind && report.capture.last().args == s.args
            &&& joins(v.capture, report.capture.last(), report.capture, 200_000)
            &&& report == (StreamView { reports: report.reports, capture: report.capture, ..v })
            &&& health == (StreamView { health: s.health, ..v })
        }),
{
    lemma_joins(v.logs, line);
    lemma_joins(v.logs, "error: "@ + line);
    lemma_joins(v.logs, "exec status: "@ + line);
    lemma_joins(v.logs, "session disconnected"@);
    lemma_joins(v.reports, s.line);
    let report = workbench::after_event(v, EventView::Report(s), now);
    lemma_joins(v.capture, report.capture.last());
}

/// A sample that is not to be skipped joins the samples and the history; one that is leaves both as
/// they are and is counted off.
pub proof fn law_seen_sample(v: StreamView, m: MotionView, now: u64)
    ensures
        ({
            let after = workbench::after_event(v, EventView::Sample(m), now);
            &&& v.skip_remaining > 0 ==> after == (StreamView {
                skip_remaining: (v.skip_remaining - 1) as nat,
                ..v
            })
            &&& v.skip_remaining == 0 ==> {
                &&& joins(v.samples, m, after.samples, 600)
                &&& after.history == history::history_with(v.history, m.acc, m.gyro, m.timestamp_us, now)
                &&& after == (StreamView { samples: after.samples, history: after.history, ..v })
            }
        }),
{
    lemma_joins(v.samples, m);
}

/// Of a stream of samples the first ones are skipped, as many as were asked for, and the others are
/// kept in their order.
pub proof fn law_samples_behind_the_skipped(v: StreamView, all: Seq<MotionView>, now: u64)
    requires
        v.samples.len() + all.len() <= 600,
    ensures
        ({
            let after = workbench::after_events(
                v,
                all.map_values(|m: MotionView| EventView::Sample(m)),
                now,
            );
            let skipped = if all.len() < v.skip_remaining {
                all.len() as int
            } else {
                v.skip_remaining as int
            };
            &&& after.samples == v.samples + all.skip(skipped)
            &&& after.skip_remaining == v.skip_remaining - skipped
            &&& after.logs == v.logs && after.reports == v.reports && after.capture == v.capture
        }),
    decreases all.len(),
{
    let events = all.map_values(|m: MotionView| EventView::Sample(m));
    if all.len() > 0 {
        let rest = all.drop_last();
        assert(events.drop_last() =~= rest.map_values(|m: MotionView| EventView::Sample(m)));
        law_samples_behind_the_skipped(v, rest, now);
        let before = workbench::after_events(v, events.drop_last(), now);
        law_seen_sample(before, all.last(), now);
        let skipped = if rest.len() < v.skip_remaining {
            rest.len() as int
        } else {
            v.skip_remaining as int
        };
        if rest.len() >= v.skip_remaining {
            assert(v.samples + rest.skip(skipped) + seq![all.last()] =~= v.samples + all.skip(
                skipped,
            ));
        } else {
            assert(v.samples + rest.skip(skipped) =~= v.samples + all.skip(all.len() as int));
        }
    } else {
        assert(v.samples + all.skip(0) =~= v.samples);
    }
}

/// Events of two batches are taken in one after the other.
pub proof fn law_batches(v: StreamView, a: Seq<EventView>, b: Seq<EventView>, now: u64)
    ensures
        workbench::after_events(v, Seq::empty(), now) == v,
        workbench::after_events(v, a + b, now) == workbench::after_events(
            workbench::after_events(v, a, now),
            b,
            now,
        ),
    decreases b.len(),
{
    if b.len() == 0 {
        assert(a + b =~= a);
    } else {
        assert((a + b).drop_last() =~= a + b.drop_last());
        law_batches(v, a, b.drop_last(), now);
    }
}

/// Registers are known from register events alone, each of which adds to what was known before.
pub proof fn law_known_registers(
    values: Map<u32, (AccessKind, Seq<u8>)>,
    hidden: spec_fn(u32) -> bool,
    a: Seq<EventView>,
    e: EventView,
)
    ensures
        workbench::known_after_all(values, hidden, Seq::empty()) == values,
        !(e is Register) ==> workbench::known_after_all(values, hidden, a.push(e))
            == workbench::known_after_all(values, hidden, a),
        e matches EventView::Register(addr, access, data) ==> workbench::known_after_all(
            values,
            hidden,
            a.push(e),
        ) == panel::recorded(
            workbench::known_after_all(values, hidden, a),
            addr,
            access,
            data,
            hidden,
        ),
{
    assert(a.push(e).drop_last() =~= a);
}

/// Clearing leaves no sample, no history and no count, and skips as many samples again as were
/// asked for; the lines stay, and the reports that were captured unless those are cleared too.
pub proof fn law_cleared(v: StreamView, capture: bool)
    ensures
        ({
            let after = workbench::cleared(v, capture);
            &&& after.samples.len() == 0
            &&& after.history.bars.len() == 0 && after.history.bucket is None
            &&& after.health.total_reports == 0 && after.health.dropped_frames == 0
            &&& after.health.duplicate_frames == 0 && after.health.out_of_order_frames == 0
            &&& after.health.last_frame_id is None && after.health.last_timestamp_us is None
            &&& after.health.last_dt_us is None
            &&& after.skip_remaining == v.skip_count && after.skip_count == v.skip_count
            &&& after.capture == if capture {
                Seq::empty()
            } else {
                v.capture
            }
            &&& after.logs == v.logs && after.reports == v.reports
            &&& after.connected == v.connected && after.label == v.label && after.mode == v.mode
        }),
{
}

/// A session begins unconnected with nothing seen, under the label of its port, and says so in the
/// log; one that ends is idle and keeps what was seen.
pub proof fn law_sessions(v: StreamView, watch: bool, port: Seq<char>, baud: u32)
    ensures
        ({
            let at = workbench::started(v, watch, false, Some(port), baud);
            let nowhere = workbench::started(v, watch, false, None, baud);
            let demo = workbench::started(v, watch, true, Some(port), baud);
            let end = workbench::stopped(v);
            &&& !at.connected
            &&& at.samples.len() == 0 && at.capture.len() == 0 && at.history.bars.len() == 0
            &&& at.health == health::no_reports()
            &&& at.skip_remaining == v.skip_count && at.reports == v.reports
            &&& joins(
                v.logs,
                if watch {
                    "starting watch session"@
                } else {
                    "starting load+run session"@
                },
                at.logs,
                512,
            )
            &&& at.mode == if watch {
                "watch"@
            } else {
                "load/run"@
            }
            &&& at.label == port + " @ "@ + text::dec(baud as nat)
            &&& nowhere == (StreamView {
                label: "<none>"@ + " @ "@ + text::dec(baud as nat),
                ..at
            })
            &&& demo == (StreamView { label: "demo"@, ..at })
            &&& end == (StreamView {
                connected: false,
                label: "disconnected"@,
                mode: "idle"@,
                ..v
            })
        }),
{
    lemma_joins(v.logs, "starting watch session"@);
    lemma_joins(v.logs, "starting load+run session"@);
}

/// The temperature shown is that of the last sample that has one.
pub proof fn law_newest_temperature(samples: Seq<MotionView>, k: int)
    ensures
        0 <= k < samples.len() && samples[k].temp is Some && (forall|j: int|
            k < j < samples.len() ==> (#[trigger] samples[j]).temp is None)
            ==> workbench::newest_temperature(samples) == samples[k].temp,
        (forall|j: int| 0 <= j < samples.len() ==> (#[trigger] samples[j]).temp is None)
            ==> workbench::newest_temperature(samples) is None,
    decreases samples.len(),
{
    if samples.len() > 0 {
        let less = samples.drop_last();
        assert(forall|j: int| 0 <= j < less.len() ==> less[j] == samples[j]);
        law_newest_temperature(less, k);
    }
}

/// Setting how many samples are skipped: so many are skipped from now on, and what was seen stays; a
/// text that is no number changes nothing but the log.
pub proof fn law_set_skip(v: StreamView, value: Seq<char>)
    ensures
        ({
            let after = workbench::skip_set(v, value);
            match numbers_of(value) {
                Some(n) => after == (StreamView {
                    skip_count: n,
                    skip_remaining: n,
                    logs: after.logs,
                    ..v
                }),
                None => after == (StreamView { logs: after.logs, ..v }),
            }
        }),
{
}

/// The number that was typed, where it is one: zero for nothing.
pub open spec fn numbers_of(value: Seq<char>) -> Option<nat> {
    if text::trimmed(value).len() == 0 {
        Some(0)
    } else {
        text::bounded_value(text::trimmed(value), 10, usize::MAX as nat)
    }
}

/// Events with times of their own are taken in one after the other, each at its time.
pub proof fn law_timed_events(v: StreamView, events: Seq<EventView>, e: EventView, times: Seq<u64>)
    ensures
        workbench::after_timed_events(v, Seq::empty(), times) == v,
        workbench::after_timed_events(v, events.push(e), times) == workbench::after_event(
            workbench::after_timed_events(v, events, times),
            e,
            times[events.len() as int],
        ),
{
    assert(events.push(e).drop_last() =~= events);
}

/// A bar that holds as many samples as it may keeps the newest ones; its ranges take in all.
pub proof fn law_full_bar(bar: BarView, acc: Seq<i16>, gyro: Seq<i16>, axis: int)
    requires
        bar.acc_samples.len() == 4096,
        bar.gyro_samples.len() == 4096,
        0 <= axis < 3,
    ensures
        ({
            let after = history::bar_with(bar, acc, gyro);
            &&& after.acc_samples == bar.acc_samples.subrange(1, 4096) + seq![acc]
            &&& after.gyro_samples == bar.gyro_samples.subrange(1, 4096) + seq![gyro]
            &&& after.acc[axis].open == bar.acc[axis].open && after.acc[axis].close == acc[axis]
            &&& after.acc[axis].high >= bar.acc[axis].high && after.acc[axis].high >= acc[axis]
            &&& after.acc[axis].low <= bar.acc[axis].low && after.acc[axis].low <= acc[axis]
            &&& after.gyro[axis].open == bar.gyro[axis].open && after.gyro[axis].close
                == gyro[axis]
            &&& after.gyro[axis].high >= bar.gyro[axis].high && after.gyro[axis].high >= gyro[axis]
            &&& after.gyro[axis].low <= bar.gyro[axis].low && after.gyro[axis].low <= gyro[axis]
        }),
{
    let after = history::bar_with(bar, acc, gyro);
    assert(after.acc_samples =~= bar.acc_samples.subrange(1, 4096) + seq![acc]);
    assert(after.gyro_samples =~= bar.gyro_samples.subrange(1, 4096) + seq![gyro]);
}

/// Over any stream of samples that is not interrupted, what the bars hold is what was put in: a bar
/// that is over holds its samples as they came, and none is in two bars.
pub proof fn law_history_holds_samples(
    h: HistoryView,
    acc: Seq<i16>,
    gyro: Seq<i16>,
    timestamp: Option<u64>,
    now: u64,
)
    requires
        h.bars.len() < 120,
        h.bucket matches Some(b) ==> b.bar.acc_samples.len() < 4096 && b.bar.gyro_samples.len()
            == b.bar.acc_samples.len(),
    ensures
        held(history::all_bars(history::history_with(h, acc, gyro, timestamp, now)))
            == held(history::all_bars(h)) + seq![(acc, gyro)],
{
    let before = history::all_bars(h);
    let after = history::all_bars(history::history_with(h, acc, gyro, timestamp, now));
    let one = history::one_bar(acc, gyro);
    assert(pairs_in(one) =~= seq![(acc, gyro)]);
    match h.bucket {
        None => {
            assert(after =~= before.push(one));
            assert(after.drop_last() =~= before);
        },
        Some(b) => {
            let rest = h.bars;
            assert(before.drop_last() =~= rest);
            if history::is_over(b.start, b.started_at, timestamp, now) {
                assert(after =~= before.push(one));
                assert(after.drop_last() =~= before);
            } else {
                let more = history::bar_with(b.bar, acc, gyro);
                assert(after =~= rest.push(more));
                assert(after.drop_last() =~= rest);
                assert(pairs_in(more) =~= pairs_in(b.bar) + seq![(acc, gyro)]);
                assert(held(after) =~= held(before) + seq![(acc, gyro)]);
            }
        },
    }
}

/// The samples of a bar, those of both sensors together.
pub open spec fn pairs_in(bar: BarView) -> Seq<(Seq<i16>, Seq<i16>)> {
    Seq::new(bar.acc_samples.len(), |i: int| (bar.acc_samples[i], bar.gyro_samples[i]))
}

/// The samples that bars hold, bar by bar.
pub open spec fn held(bars: Seq<BarView>) -> Seq<(Seq<i16>, Seq<i16>)>
    decreases bars.len(),
{
    if bars.len() == 0 {
        Seq::empty()
    } else {
        held(bars.drop_last()) + pairs_in(bars.last())
    }
}

/// What is kept for the two series: each has its own, and the ranges and samples of a bar go by the
/// sensor of the series.
pub proof fn law_series<T: Copy>(all: charts::PerSeries<T>, value: Option<T>, bar: BarView)
    ensures
        all.of(MotionSeries::Acc) == all.acc,
        all.of(MotionSeries::Gyro) == all.gyro,
        all.with(MotionSeries::Acc, value).acc == value,
        all.with(MotionSeries::Acc, value).gyro == all.gyro,
        all.with(MotionSeries::Gyro, value).gyro == value,
        all.with(MotionSeries::Gyro, value).acc == all.acc,
        history::bar_ranges(bar, MotionSeries::Acc) == bar.acc,
        history::bar_ranges(bar, MotionSeries::Gyro) == bar.gyro,
        history::bar_samples(bar, MotionSeries::Acc) == bar.acc_samples,
        history::bar_samples(bar, MotionSeries::Gyro) == bar.gyro_samples,
{
}

} // verus!
