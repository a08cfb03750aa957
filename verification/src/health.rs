//! How well a stream of reports arrives.
use crate::wire;
use crate::wire::ReportMeta;
use vstd::prelude::*;

verus! {

/// Counts over a stream of reports.
#[derive(Debug, Clone, Copy, PartialEq, Eq, Structural)]
pub struct ReportHealth {
    pub total_reports: u64,
    pub dropped_frames: u64,
    pub duplicate_frames: u64,
    pub out_of_order_frames: u64,
    pub last_frame_id: Option<u32>,
    pub last_timestamp_us: Option<u64>,
    pub last_dt_us: Option<i64>,
}

/// The counts before the first report.
pub open spec fn no_reports() -> ReportHealth {
    ReportHealth {
        total_reports: 0,
        dropped_frames: 0,
        duplicate_frames: 0,
        out_of_order_frames: 0,
        last_frame_id: None,
        last_timestamp_us: None,
        last_dt_us: None,
    }
}

impl Default for ReportHealth {
    fn default() -> (h: Self)
        ensures
            h == no_reports(),
    {
        ReportHealth {
            total_reports: 0,
            dropped_frames: 0,
            duplicate_frames: 0,
            out_of_order_frames: 0,
            last_frame_id: None,
            last_timestamp_us: None,
            last_dt_us: None,
        }
    }
}

/// A 64-bit number read as a signed one.
pub open spec fn signed(u: u64) -> int {
    if u < 0x8000_0000_0000_0000 {
        u as int
    } else {
        u - 0x1_0000_0000_0000_0000
    }
}

fn to_signed(u: u64) -> (i: i64)
    ensures
        i == signed(u),
{
    if u < 0x8000_0000_0000_0000 {
        u as i64
    } else {
        (u - 0x8000_0000_0000_0000) as i64 + i64::MIN
    }
}

/// How many frames are missing between two numbers.
pub open spec fn gap(last: Option<u32>, id: u32) -> nat {
    match last {
        Some(l) => if id > l {
            (id - l - 1) as nat
        } else {
            0
        },
        None => 0,
    }
}

/// The counts after one more report.
pub open spec fn health_after(h: ReportHealth, meta: Option<ReportMeta>) -> ReportHealth {
    match meta {
        None => ReportHealth { total_reports: (h.total_reports + 1) as u64, ..h },
        Some(m) => ReportHealth {
            total_reports: (h.total_reports + 1) as u64,
            dropped_frames: (h.dropped_frames + gap(h.last_frame_id, m.frame_id)) as u64,
            duplicate_frames: if h.last_frame_id == Some(m.frame_id) {
                (h.duplicate_frames + 1) as u64
            } else {
                h.duplicate_frames
            },
            out_of_order_frames: if h.last_frame_id matches Some(l) && m.frame_id < l {
                (h.out_of_order_frames + 1) as u64
            } else {
                h.out_of_order_frames
            },
            last_frame_id: Some(m.frame_id),
            last_timestamp_us: if wire::timestamp_flag(m.flags) {
                Some(m.timestamp_us)
            } else {
                h.last_timestamp_us
            },
            last_dt_us: if wire::timestamp_flag(m.flags) {
                match h.last_timestamp_us {
                    Some(l) => Some((signed(m.timestamp_us) - signed(l)) as i64),
                    None => None,
                }
            } else {
                h.last_dt_us
            },
        },
    }
}

/// Whether one more report can be counted: no counter runs over, and the time
/// between the last two timestamps is a 64-bit number.
pub open spec fn health_room(h: ReportHealth, meta: Option<ReportMeta>) -> bool {
    &&& h.total_reports < u64::MAX
    &&& meta matches Some(m) ==> {
        &&& h.dropped_frames + gap(h.last_frame_id, m.frame_id) <= u64::MAX
        &&& h.last_frame_id == Some(m.frame_id) ==> h.duplicate_frames < u64::MAX
        &&& h.last_frame_id matches Some(l) ==> m.frame_id < l ==> h.out_of_order_frames < u64::MAX
        &&& wire::timestamp_flag(m.flags) && h.last_timestamp_us is Some ==> i64::MIN <= signed(
            m.timestamp_us,
        ) - signed(h.last_timestamp_us->Some_0) <= i64::MAX
    }
}

/// Keeps the counts over a stream of reports.
#[derive(Debug, Clone)]
pub struct ReportHealthTracker {
    health: ReportHealth,
}

impl View for ReportHealthTracker {
    type V = ReportHealth;

    closed spec fn view(&self) -> ReportHealth {
        self.health
    }
}

impl Default for ReportHealthTracker {
    fn default() -> (t: Self)
        ensures
            t@ == no_reports(),
    {
        ReportHealthTracker { health: ReportHealth::default() }
    }
}

impl ReportHealthTracker {
    /// Counts a report and returns the counts.
    pub fn observe(&mut self, meta: Option<ReportMeta>) -> (h: ReportHealth)
        requires
            health_room(old(self)@, meta),
        ensures
            final(self)@ == health_after(old(self)@, meta),
            h == final(self)@,
    {
        let before = self.health;
        let mut h = self.health;
        h.total_reports = h.total_reports + 1;
        match meta {
            Some(m) => {
                match before.last_frame_id {
                    Some(last) => {
                        if m.frame_id == last {
                            h.duplicate_frames = h.duplicate_frames + 1;
                        } else if m.frame_id > last {
                            h.dropped_frames = h.dropped_frames + (m.frame_id - last - 1) as u64;
                        } else {
                            h.out_of_order_frames = h.out_of_order_frames + 1;
                        }
                    },
                    None => {},
                }
                if m.timestamp_valid() {
                    h.last_dt_us = match before.last_timestamp_us {
                        Some(last) => Some(to_signed(m.timestamp_us) - to_signed(last)),
                        None => None,
                    };
                    h.last_timestamp_us = Some(m.timestamp_us);
                }
                h.last_frame_id = Some(m.frame_id);
            },
            None => {},
        }
        self.health = h;
        h
    }

    /// The counts.
    pub fn health(&self) -> (h: ReportHealth)
        ensures
            h == self@,
    {
        self.health
    }
}

/// The counts after a stream of reports.
pub open spec fn health_of(reports: Seq<Option<ReportMeta>>) -> ReportHealth
    decreases reports.len(),
{
    if reports.len() == 0 {
        no_reports()
    } else {
        health_after(health_of(reports.drop_last()), reports.last())
    }
}

/// The report with the given number, without a timestamp.
pub open spec fn numbered(id: u32) -> Option<ReportMeta> {
    Some(ReportMeta { flags: 0, frame_id: id, timestamp_us: 0 })
}

/// A stream without gaps counts no losses, and every report in it is counted.
pub proof fn law_gapless_stream_is_healthy(first: u32, n: nat)
    requires
        first + n <= 0x1_0000_0000,
    ensures
        ({
            let h = health_of(Seq::new(n, |i: int| numbered((first + i) as u32)));
            &&& h.total_reports == n
            &&& h.dropped_frames == 0
            &&& h.duplicate_frames == 0
            &&& h.out_of_order_frames == 0
            &&& h.last_frame_id == (if n == 0 {
                None
            } else {
                Some((first + n - 1) as u32)
            })
        }),
    decreases n,
{
    let s = Seq::new(n, |i: int| numbered((first + i) as u32));
    if n > 0 {
        let less = Seq::new((n - 1) as nat, |i: int| numbered((first + i) as u32));
        law_gapless_stream_is_healthy(first, (n - 1) as nat);
        assert(s.drop_last() =~= less);
    }
}

/// In a stream whose numbers only grow, the reports counted and the frames
/// counted as lost are all the frames from the first number to the last.
pub proof fn law_losses_account_for_gaps(first: u32, rest: Seq<u32>)
    requires
        forall|i: int|
            0 <= i < rest.len() ==> #[trigger] rest[i] > (if i == 0 {
                first
            } else {
                rest[i - 1]
            }),
    ensures
        ({
            let h = health_of(seq![numbered(first)] + rest.map_values(|id: u32| numbered(id)));
            let last = if rest.len() == 0 {
                first
            } else {
                rest.last()
            };
            &&& h.last_frame_id == Some(last)
            &&& h.total_reports == rest.len() + 1
            &&& h.dropped_frames + h.total_reports == last - first + 1
            &&& h.duplicate_frames == 0
            &&& h.out_of_order_frames == 0
        }),
    decreases rest.len(),
{
    let all = seq![numbered(first)] + rest.map_values(|id: u32| numbered(id));
    if rest.len() == 0 {
        assert(all.drop_last() =~= Seq::<Option<ReportMeta>>::empty());
        assert(health_of(all.drop_last()) == no_reports());
    } else {
        let less = rest.drop_last();
        assert forall|i: int| 0 <= i < less.len() implies #[trigger] less[i] > (if i == 0 {
            first
        } else {
            less[i - 1]
        }) by {
            assert(less[i] == rest[i]);
        }
        law_losses_account_for_gaps(first, less);
        assert(all.drop_last() =~= seq![numbered(first)] + less.map_values(
            |id: u32| numbered(id),
        ));
        assert(all.last() == numbered(rest.last()));
        assert(rest[rest.len() - 1] == rest.last());
        if less.len() > 0 {
            assert(less.last() == rest[rest.len() - 2]);
        }
    }
}

/// Whether the report at `i` gives a valid time.
pub open spec fn timed(reports: Seq<Option<ReportMeta>>, i: int) -> bool {
    reports[i] matches Some(m) && m.flags % 2 == 1
}

/// Over any stream, the time that is kept is the one of the last report that gives a valid time.
pub proof fn law_last_valid_time(reports: Seq<Option<ReportMeta>>, i: int)
    requires
        0 <= i < reports.len(),
        timed(reports, i),
        forall|k: int| i < k < reports.len() ==> !timed(reports, k),
    ensures
        health_of(reports).last_timestamp_us == Some(reports[i]->Some_0.timestamp_us),
    decreases reports.len(),
{
    let less = reports.drop_last();
    if i < less.len() {
        assert(timed(less, i) == timed(reports, i));
        assert forall|k: int| i < k < less.len() implies !timed(less, k) by {
            assert(!timed(reports, k));
        }
        law_last_valid_time(less, i);
        assert(!timed(reports, reports.len() - 1));
    }
}

/// No time is kept of a stream in which no report gives a valid one, nor a time between two.
pub proof fn law_no_valid_time(reports: Seq<Option<ReportMeta>>)
    requires
        forall|k: int| 0 <= k < reports.len() ==> !timed(reports, k),
    ensures
        health_of(reports).last_timestamp_us is None,
        health_of(reports).last_dt_us is None,
    decreases reports.len(),
{
    if reports.len() > 0 {
        let less = reports.drop_last();
        assert forall|k: int| 0 <= k < less.len() implies !timed(less, k) by {
            assert(!timed(reports, k));
        }
        law_no_valid_time(less);
        assert(!timed(reports, reports.len() - 1));
    }
}

/// After a report with a valid time, the time between two reports is that time minus the one of the
/// nearest report before it that gives a valid one. Both count as signed numbers of 64 bits, which
/// makes a difference only from the largest signed number on.
pub proof fn law_time_between_reports(reports: Seq<Option<ReportMeta>>, i: int)
    requires
        0 <= i < reports.len() - 1,
        timed(reports, i),
        timed(reports, reports.len() - 1),
        forall|k: int| i < k < reports.len() - 1 ==> !timed(reports, k),
        health_room(health_of(reports.drop_last()), reports.last()),
    ensures
        ({
            let now = reports.last()->Some_0.timestamp_us as int;
            let before = reports[i]->Some_0.timestamp_us as int;
            &&& health_of(reports).last_timestamp_us == Some(now as u64)
            &&& health_of(reports).last_dt_us matches Some(dt) && {
                &&& now <= i64::MAX && before <= i64::MAX ==> dt == now - before
                &&& dt == now - before || dt == now - before + 0x1_0000_0000_0000_0000 || dt == now
                    - before - 0x1_0000_0000_0000_0000
            }
        }),
{
    let less = reports.drop_last();
    assert(timed(less, i) == timed(reports, i));
    assert forall|k: int| i < k < less.len() implies !timed(less, k) by {
        assert(!timed(reports, k));
    }
    law_last_valid_time(less, i);
}

/// The first report of a stream that gives a valid time gives no time between two.
pub proof fn law_first_valid_time(reports: Seq<Option<ReportMeta>>)
    requires
        reports.len() > 0,
        timed(reports, reports.len() - 1),
        forall|k: int| 0 <= k < reports.len() - 1 ==> !timed(reports, k),
    ensures
        health_of(reports).last_dt_us is None,
        health_of(reports).last_timestamp_us == Some(reports.last()->Some_0.timestamp_us),
{
    let less = reports.drop_last();
    assert forall|k: int| 0 <= k < less.len() implies !timed(less, k) by {
        assert(!timed(reports, k));
    }
    law_no_valid_time(less);
}

/// A report without a valid time leaves the times as they are.
pub proof fn law_untimed_report_keeps_times(reports: Seq<Option<ReportMeta>>)
    requires
        reports.len() > 0,
        !timed(reports, reports.len() - 1),
    ensures
        health_of(reports).last_timestamp_us == health_of(reports.drop_last()).last_timestamp_us,
        health_of(reports).last_dt_us == health_of(reports.drop_last()).last_dt_us,
{
}

/// Whether the reports of a stream can all be counted.
pub open spec fn stream_room(reports: Seq<Option<ReportMeta>>) -> bool {
    forall|n: int|
        0 <= n < reports.len() ==> health_room(health_of(reports.take(n)), #[trigger] reports[n])
}

/// How many reports of a stream have a number that stands in a relation to the number of the
/// nearest report before them that has one.
pub open spec fn pairs(
    reports: Seq<Option<ReportMeta>>,
    related: spec_fn(u32, u32) -> nat,
) -> nat
    decreases reports.len(),
{
    if reports.len() == 0 {
        0
    } else {
        let less = reports.drop_last();
        pairs(less, related) + (match (last_number(less), reports.last()) {
            (Some(before), Some(m)) => related(before, m.frame_id),
            _ => 0,
        })
    }
}

/// The number of the last report of a stream that has one.
pub open spec fn last_number(reports: Seq<Option<ReportMeta>>) -> Option<u32>
    decreases reports.len(),
{
    if reports.len() == 0 {
        None
    } else {
        match reports.last() {
            Some(m) => Some(m.frame_id),
            None => last_number(reports.drop_last()),
        }
    }
}

/// Over any stream, every report is counted. A report is a duplicate where its number is the one
/// before, out of order where it is smaller, and where it is larger the numbers between the two are
/// lost.
pub proof fn law_stream_counts(reports: Seq<Option<ReportMeta>>)
    requires
        stream_room(reports),
    ensures
        ({
            let h = health_of(reports);
            &&& h.total_reports == reports.len()
            &&& h.last_frame_id == last_number(reports)
            &&& h.duplicate_frames == pairs(
                reports,
                |a: u32, b: u32|
                    if a == b {
                        1
                    } else {
                        0
                    },
            )
            &&& h.out_of_order_frames == pairs(
                reports,
                |a: u32, b: u32|
                    if b < a {
                        1
                    } else {
                        0
                    },
            )
            &&& h.dropped_frames == pairs(
                reports,
                |a: u32, b: u32|
                    if a < b {
                        (b - a - 1) as nat
                    } else {
                        0
                    },
            )
        }),
    decreases reports.len(),
{
    if reports.len() > 0 {
        let less = reports.drop_last();
        assert forall|n: int| 0 <= n < less.len() implies health_room(
            health_of(less.take(n)),
            #[trigger] less[n],
        ) by {
            assert(health_room(health_of(reports.take(n)), reports[n]));
            assert(less.take(n) =~= reports.take(n));
        }
        law_stream_counts(less);
        let n = reports.len() - 1;
        assert(health_room(health_of(reports.take(n)), reports[n]));
        assert(reports.take(n) =~= less);
    }
}

} // verus!
