//! Reports as they are watched: what is counted, and what is shown of each.
use crate::samples;
use crate::samples::I16LeFifoDecode;
use crate::wire;
use crate::wire::ReportMeta;
use std::collections::HashMap;
use vstd::prelude::*;

verus! {

broadcast use vstd::std_specs::hash::group_hash_axioms;

// ---- what is counted

/// What is counted over the reports, and what was last seen.
#[derive(Debug, Clone, Copy, PartialEq, Eq)]
pub struct ObserveCounts {
    pub seq: u64,
    pub last_frame_id: Option<u32>,
    pub last_timestamp_us: Option<u64>,
    pub next_fifo_sample_index: u64,
    pub frame_gap_total: u64,
    pub frame_reset_count: u64,
    pub timestamp_rewind_count: u64,
    pub fifo_len_mismatch_count: u64,
    pub fifo_partial_count: u64,
    pub fifo_partial_bytes: u64,
    pub fifo_data_bytes: u64,
    pub fifo_sample_count: u64,
}

/// What is found out on a report from those before it.
#[derive(Debug, Clone, Copy, PartialEq, Eq)]
pub struct ReportObserveInfo {
    pub seq: u64,
    pub meta: Option<ReportMeta>,
    pub frame_gap: Option<u32>,
    pub frame_reset: Option<(u32, u32)>,
    pub dt_us: Option<u64>,
    pub timestamp_rewind: Option<(u64, u64)>,
}

/// The counts before any report.
pub open spec fn no_counts() -> ObserveCounts {
    ObserveCounts {
        seq: 0,
        last_frame_id: None,
        last_timestamp_us: None,
        next_fifo_sample_index: 0,
        frame_gap_total: 0,
        frame_reset_count: 0,
        timestamp_rewind_count: 0,
        fifo_len_mismatch_count: 0,
        fifo_partial_count: 0,
        fifo_partial_bytes: 0,
        fifo_data_bytes: 0,
        fifo_sample_count: 0,
    }
}

/// Whether a number is the next after another. Behind the largest comes zero.
pub open spec fn follows(prev: u32, id: u32) -> bool {
    id == if prev == u32::MAX {
        0
    } else {
        prev + 1
    }
}

/// How many numbers are missing before `id`, if some are.
pub open spec fn gap_before(prev: Option<u32>, id: u32) -> Option<u32> {
    match prev {
        Some(p) => if !follows(p, id) && id > p {
            Some((id - p - 1) as u32)
        } else {
            None
        },
        None => None,
    }
}

/// The numbers around a restart of the numbering, if there is one.
pub open spec fn reset_at(prev: Option<u32>, id: u32) -> Option<(u32, u32)> {
    match prev {
        Some(p) => if !follows(p, id) && id <= p {
            Some((p, id))
        } else {
            None
        },
        None => None,
    }
}

/// What is found out on a report.
pub open spec fn info_of(c: ObserveCounts, meta: Option<ReportMeta>) -> ReportObserveInfo {
    let time = samples::time_of(meta);
    ReportObserveInfo {
        seq: (c.seq + 1) as u64,
        meta,
        frame_gap: match meta {
            Some(m) => gap_before(c.last_frame_id, m.frame_id),
            None => None,
        },
        frame_reset: match meta {
            Some(m) => reset_at(c.last_frame_id, m.frame_id),
            None => None,
        },
        dt_us: match (c.last_timestamp_us, time) {
            (Some(p), Some(t)) => if t >= p {
                Some((t - p) as u64)
            } else {
                None
            },
            _ => None,
        },
        timestamp_rewind: match (c.last_timestamp_us, time) {
            (Some(p), Some(t)) => if t < p {
                Some((p, t))
            } else {
                None
            },
            _ => None,
        },
    }
}

/// A count that goes up where something was found.
pub open spec fn counted<T>(n: u64, found: Option<T>) -> int {
    if found is Some {
        n + 1
    } else {
        n as int
    }
}

/// How many numbers are missing before a report.
pub open spec fn missing(found: Option<u32>) -> int {
    match found {
        Some(n) => n as int,
        None => 0,
    }
}

/// The counts after a report was seen.
pub open spec fn counts_after(c: ObserveCounts, meta: Option<ReportMeta>) -> ObserveCounts {
    let info = info_of(c, meta);
    ObserveCounts {
        seq: info.seq,
        last_frame_id: match meta {
            Some(m) => Some(m.frame_id),
            None => c.last_frame_id,
        },
        last_timestamp_us: match samples::time_of(meta) {
            Some(t) => Some(t),
            None => c.last_timestamp_us,
        },
        frame_gap_total: (c.frame_gap_total + missing(info.frame_gap)) as u64,
        frame_reset_count: counted(c.frame_reset_count, info.frame_reset) as u64,
        timestamp_rewind_count: counted(c.timestamp_rewind_count, info.timestamp_rewind) as u64,
        ..c
    }
}

/// Whether the counts can go up for another report.
pub open spec fn counts_room(c: ObserveCounts, meta: Option<ReportMeta>) -> bool {
    let info = info_of(c, meta);
    &&& c.seq < u64::MAX
    &&& c.frame_gap_total + missing(info.frame_gap) <= u64::MAX
    &&& counted(c.frame_reset_count, info.frame_reset) <= u64::MAX
    &&& counted(c.timestamp_rewind_count, info.timestamp_rewind) <= u64::MAX
}

/// The smaller of a sum and the largest number.
pub open spec fn saturated(a: int, b: int) -> u64 {
    if a + b > u64::MAX {
        u64::MAX
    } else {
        (a + b) as u64
    }
}

fn saturating(a: u64, b: usize) -> (r: u64)
    ensures
        r == saturated(a as int, b as int),
{
    let wide: u128 = a as u128 + b as u128;
    if wide > u64::MAX as u128 {
        u64::MAX
    } else {
        wide as u64
    }
}

/// Whether a device says another length than the data has.
pub open spec fn len_differs(fifo_len: Option<u32>, data_len: nat) -> bool {
    fifo_len is Some && fifo_len->Some_0 != data_len
}

/// The counts after the data of a report: its length, and where it was decoded how many
/// samples and left-over bytes there were.
pub open spec fn counts_with_data(
    c: ObserveCounts,
    fifo_len: Option<u32>,
    data_len: nat,
    decoded: Option<(nat, nat)>,
) -> ObserveCounts {
    let left = if decoded is Some {
        decoded->Some_0.1
    } else {
        0
    };
    ObserveCounts {
        fifo_data_bytes: saturated(c.fifo_data_bytes as int, data_len as int),
        fifo_len_mismatch_count: if len_differs(fifo_len, data_len) {
            (c.fifo_len_mismatch_count + 1) as u64
        } else {
            c.fifo_len_mismatch_count
        },
        fifo_sample_count: match decoded {
            Some(d) => saturated(c.fifo_sample_count as int, d.0 as int),
            None => c.fifo_sample_count,
        },
        fifo_partial_count: if left != 0 {
            (c.fifo_partial_count + 1) as u64
        } else {
            c.fifo_partial_count
        },
        fifo_partial_bytes: (c.fifo_partial_bytes + left) as u64,
        ..c
    }
}

/// Whether the counts can go up for the data of another report.
pub open spec fn data_room(
    c: ObserveCounts,
    fifo_len: Option<u32>,
    data_len: nat,
    decoded: Option<(nat, nat)>,
) -> bool {
    &&& len_differs(fifo_len, data_len) ==> c.fifo_len_mismatch_count < u64::MAX
    &&& decoded matches Some(d) ==> d.1 != 0 ==> {
        &&& c.fifo_partial_count < u64::MAX
        &&& c.fifo_partial_bytes + d.1 <= u64::MAX
    }
}

/// How many samples and left-over bytes were decoded.
pub open spec fn decoded_size(d: I16LeFifoDecode) -> (nat, nat) {
    (d.samples@.len(), d.trailing_bytes as nat)
}

/// Whether a list names each of the kinds once, with its count.
pub open spec fn lists_counts(list: Seq<(u32, u64)>, kinds: Map<u32, u64>) -> bool {
    &&& forall|i: int|
        0 <= i < list.len() ==> kinds.dom().contains((#[trigger] list[i]).0) && kinds[list[i].0]
            == list[i].1
    &&& forall|i: int, j: int| 0 <= i < j < list.len() ==> list[i].0 != list[j].0
    &&& forall|k: u32| #[trigger]
        kinds.dom().contains(k) ==> exists|i: int| 0 <= i < list.len() && (#[trigger] list[i]).0
            == k
}

/// What is counted while reports are watched.
#[derive(Debug, Clone)]
pub struct ReportObserveState {
    counts: ObserveCounts,
    by_kind: HashMap<u32, u64>,
}

impl ReportObserveState {
    pub closed spec fn counts(self) -> ObserveCounts {
        self.counts
    }

    /// How many reports of each kind were noted.
    pub closed spec fn kinds(self) -> Map<u32, u64> {
        self.by_kind@
    }

    /// What is counted before any report.
    pub fn new() -> (s: Self)
        ensures
            s.counts() == no_counts(),
            s.kinds() == Map::<u32, u64>::empty(),
    {
        ReportObserveState {
            counts: ObserveCounts {
                seq: 0,
                last_frame_id: None,
                last_timestamp_us: None,
                next_fifo_sample_index: 0,
                frame_gap_total: 0,
                frame_reset_count: 0,
                timestamp_rewind_count: 0,
                fifo_len_mismatch_count: 0,
                fifo_partial_count: 0,
                fifo_partial_bytes: 0,
                fifo_data_bytes: 0,
                fifo_sample_count: 0,
            },
            by_kind: HashMap::new(),
        }
    }

    /// What was counted so far.
    pub fn counted_so_far(&self) -> (c: ObserveCounts)
        ensures
            c == self.counts(),
    {
        self.counts
    }

    /// The noted kinds with their counts, in no particular order.
    pub fn kind_list(&self) -> (list: Vec<(u32, u64)>)
        ensures
            lists_counts(list@, self.kinds()),
    {
        let mut list: Vec<(u32, u64)> = Vec::new();
        for p in it: self.by_kind.iter()
            invariant
                it.seq().no_duplicates(),
                forall|i: int|
                    0 <= i < it.seq().len() ==> self.kinds().dom().contains(
                        *(#[trigger] it.seq()[i]).0,
                    ) && self.kinds()[*it.seq()[i].0] == *it.seq()[i].1,
                forall|k: u32| #[trigger]
                    self.kinds().dom().contains(k) ==> exists|i: int|
                        0 <= i < it.seq().len() && *(#[trigger] it.seq()[i]).0 == k,
                list.len() == it.index(),
                forall|i: int|
                    #![trigger list@[i]]
                    #![trigger it.seq()[i]]
                    0 <= i < list.len() ==> list@[i].0 == *it.seq()[i].0 && list@[i].1
                        == *it.seq()[i].1,
                forall|i: int, j: int| 0 <= i < j < list.len() ==> list@[i].0 != list@[j].0,
                it.index() == it.seq().len() ==> lists_counts(list@, self.kinds()),
        {
            assert(forall|i: int|
                0 <= i < list.len() ==> #[trigger] it.seq()[i] != it.seq()[it.index() as int]);
            list.push((*p.0, *p.1));
            assert(forall|i: int|
                #![trigger list@[i]]
                #![trigger it.seq()[i]]
                0 <= i < list.len() ==> list@[i].0 == *it.seq()[i].0 && list@[i].1
                    == *it.seq()[i].1);
            assert(it.index() + 1 == it.seq().len() ==> forall|k: u32| #[trigger]
                self.kinds().dom().contains(k) ==> exists|i: int|
                    0 <= i < list.len() && (#[trigger] list@[i]).0 == k);
        }
        list
    }

    /// Sees a report.
    pub fn next(&mut self, meta: Option<ReportMeta>) -> (info: ReportObserveInfo)
        requires
            counts_room(old(self).counts(), meta),
        ensures
            info == info_of(old(self).counts(), meta),
            final(self).counts() == counts_after(old(self).counts(), meta),
            final(self).kinds() == old(self).kinds(),
    {
        let mut c = self.counts;
        c.seq = c.seq + 1;
        let mut info = ReportObserveInfo {
            seq: c.seq,
            meta,
            frame_gap: None,
            frame_reset: None,
            dt_us: None,
            timestamp_rewind: None,
        };
        match meta {
            Some(m) => {
                match c.last_frame_id {
                    Some(prev) => {
                        let next: u32 = if prev == u32::MAX {
                            0
                        } else {
                            prev + 1
                        };
                        if m.frame_id != next {
                            if m.frame_id > prev {
                                let gap: u32 = m.frame_id - prev - 1;
                                info.frame_gap = Some(gap);
                                c.frame_gap_total = c.frame_gap_total + gap as u64;
                            } else {
                                info.frame_reset = Some((prev, m.frame_id));
                                c.frame_reset_count = c.frame_reset_count + 1;
                            }
                        }
                    },
                    None => {},
                }
                c.last_frame_id = Some(m.frame_id);
                if m.timestamp_valid() {
                    match c.last_timestamp_us {
                        Some(prev) => {
                            if m.timestamp_us >= prev {
                                info.dt_us = Some(m.timestamp_us - prev);
                            } else {
                                info.timestamp_rewind = Some((prev, m.timestamp_us));
                                c.timestamp_rewind_count = c.timestamp_rewind_count + 1;
                            }
                        },
                        None => {},
                    }
                    c.last_timestamp_us = Some(m.timestamp_us);
                }
            },
            None => {},
        }
        self.counts = c;
        info
    }

    /// Sets samples aside, and returns the number of the first.
    pub fn reserve_fifo_samples(&mut self, count: usize) -> (base: u64)
        ensures
            base == old(self).counts().next_fifo_sample_index,
            final(self).counts() == (ObserveCounts {
                next_fifo_sample_index: saturated(base as int, count as int),
                ..old(self).counts()
            }),
            final(self).kinds() == old(self).kinds(),
    {
        let base: u64 = self.counts.next_fifo_sample_index;
        self.counts.next_fifo_sample_index = saturating(base, count);
        base
    }

    /// Notes a report of a kind.
    pub fn note_report_kind(&mut self, kind: u32)
        requires
            old(self).kinds().dom().contains(kind) ==> old(self).kinds()[kind] < u64::MAX,
        ensures
            final(self).counts() == old(self).counts(),
            final(self).kinds() == noted(old(self).kinds(), kind),
    {
        let n: u64 = match self.by_kind.get(&kind) {
            Some(n) => *n + 1,
            None => 1,
        };
        self.by_kind.insert(kind, n);
    }

    /// Notes the data of a report.
    pub fn note_fifo_health(
        &mut self,
        fifo_len: Option<u32>,
        data_len: usize,
        decoded: Option<&I16LeFifoDecode>,
    )
        requires
            data_room(
                old(self).counts(),
                fifo_len,
                data_len as nat,
                decoded_sizes(decoded),
            ),
        ensures
            final(self).counts() == counts_with_data(
                old(self).counts(),
                fifo_len,
                data_len as nat,
                decoded_sizes(decoded),
            ),
            final(self).kinds() == old(self).kinds(),
    {
        let mut c = self.counts;
        c.fifo_data_bytes = saturating(c.fifo_data_bytes, data_len);
        match fifo_len {
            Some(len) => {
                if len as u64 != data_len as u64 {
                    c.fifo_len_mismatch_count = c.fifo_len_mismatch_count + 1;
                }
            },
            None => {},
        }
        match decoded {
            Some(d) => {
                c.fifo_sample_count = saturating(c.fifo_sample_count, d.samples.len());
                if d.trailing_bytes != 0 {
                    c.fifo_partial_count = c.fifo_partial_count + 1;
                    c.fifo_partial_bytes = c.fifo_partial_bytes + d.trailing_bytes as u64;
                }
            },
            None => {},
        }
        self.counts = c;
    }
}

/// How many samples and left-over bytes were decoded, if it was.
pub open spec fn decoded_sizes(d: Option<&I16LeFifoDecode>) -> Option<(nat, nat)> {
    match d {
        Some(d) => Some(decoded_size(*d)),
        None => None,
    }
}

/// The noted kinds after one more.
pub open spec fn noted(kinds: Map<u32, u64>, kind: u32) -> Map<u32, u64> {
    kinds.insert(
        kind,
        if kinds.dom().contains(kind) {
            (kinds[kind] + 1) as u64
        } else {
            1
        },
    )
}

impl Default for ReportObserveState {
    fn default() -> (s: Self)
        ensures
            s.counts() == no_counts(),
            s.kinds() == Map::<u32, u64>::empty(),
    {
        ReportObserveState::new()
    }
}

// ---- laws of counting

/// The counts after a stream of reports.
pub open spec fn counts_of(reports: Seq<Option<ReportMeta>>) -> ObserveCounts
    decreases reports.len(),
{
    if reports.len() == 0 {
        no_counts()
    } else {
        counts_after(counts_of(reports.drop_last()), reports.last())
    }
}

/// A stream whose reports are numbered without gaps, around the largest number too, shows
/// neither a gap nor a restart.
pub proof fn law_numbered_stream_is_whole(first: u32, n: nat)
    ensures
        ({
            let c = counts_of(
                Seq::new(
                    n,
                    |i: int|
                        crate::health::numbered(((first + i) % 0x1_0000_0000) as u32),
                ),
            );
            &&& c.frame_gap_total == 0
            &&& c.frame_reset_count == 0
            &&& n > 0 ==> c.last_frame_id == Some(((first + n - 1) % 0x1_0000_0000) as u32)
            &&& n == 0 ==> c.last_frame_id is None
            &&& c.timestamp_rewind_count == 0
            &&& c.last_timestamp_us is None
        }),
    decreases n,
{
    let all = Seq::new(
        n,
        |i: int| crate::health::numbered(((first + i) % 0x1_0000_0000) as u32),
    );
    if n > 0 {
        law_numbered_stream_is_whole(first, (n - 1) as nat);
        let before = Seq::new(
            (n - 1) as nat,
            |i: int| crate::health::numbered(((first + i) % 0x1_0000_0000) as u32),
        );
        assert(all.drop_last() =~= before);
        let c = counts_of(before);
        let m = all.last();
        assert(m == crate::health::numbered(((first + n - 1) % 0x1_0000_0000) as u32));
        assert(!wire::timestamp_flag(0));
        if n > 1 {
            let p = ((first + n - 2) % 0x1_0000_0000) as u32;
            let q = ((first + n - 1) % 0x1_0000_0000) as u32;
            assert(follows(p, q));
        }
    }
}

} // verus!
