//! Replaying the records of a capture.
use crate::bounded;
use crate::capture;
use crate::capture::{RecordView, ReportCaptureRecord};
use crate::capture_meta;
use crate::capture_meta::CaptureSidecar;
use crate::decoder::ReportDecoder;
use crate::health;
use crate::health::ReportHealth;
use crate::processor;
use crate::processor::{EventView, ReportProcessor};
use crate::report::ReportKinds;
use crate::restore;
use crate::restore::RestoredCapture;
use crate::text;
use crate::workbench;
use crate::workbench::{StreamView, Workbench, MAX_CAPTURE_RECORDS};
use vstd::prelude::*;

verus! {

// ---- counts

/// The counts after records.
pub open spec fn counts_after(h: ReportHealth, records: Seq<RecordView>) -> ReportHealth
    decreases records.len(),
{
    if records.len() == 0 {
        h
    } else {
        health::health_after(counts_after(h, records.drop_last()), records.last().meta)
    }
}

/// Whether records can be counted.
pub open spec fn records_room(h: ReportHealth, records: Seq<RecordView>) -> bool {
    forall|k: int|
        0 <= k < records.len() ==> health::health_room(
            #[trigger] counts_after(h, records.take(k)),
            records[k].meta,
        )
}

// ---- what is seen

/// What was seen after records, each at its time.
pub open spec fn after_records(
    v: StreamView,
    kinds: ReportKinds,
    decoders: Map<u32, ReportDecoder>,
    h: ReportHealth,
    records: Seq<RecordView>,
    times: Seq<u64>,
) -> StreamView
    decreases records.len(),
{
    if records.len() == 0 {
        v
    } else {
        let r = records.last();
        workbench::after_events(
            after_records(v, kinds, decoders, h, records.drop_last(), times),
            processor::report_events(
                kinds,
                decoders,
                counts_after(h, records),
                r.meta,
                r.kind,
                r.args,
            ),
            times[records.len() - 1],
        )
    }
}

/// What was seen once a replay starts: the session is over, what was saved beside the capture is
/// taken over or told why not, and nothing of the stream was seen.
pub open spec fn opened(v: StreamView, sidecar: Option<CaptureSidecar>, name: Seq<char>) -> StreamView {
    let over = workbench::stopped(v);
    let taken = match sidecar {
        None => over,
        Some(s) => match capture_meta::restored_all(
            capture_meta::meta_views(s.report_decoders@),
        ) {
            Ok(_) => restore::skipping(over, s.skip_samples as nat),
            Err(e) => workbench::logged(over, e),
        },
    };
    StreamView { mode: "replay"@, label: "replay "@ + name, ..workbench::cleared(taken, true) }
}

/// What stands beside a capture, if anything does.
pub open spec fn beside(sidecar: Option<&CaptureSidecar>) -> Option<CaptureSidecar> {
    match sidecar {
        Some(s) => Some(*s),
        None => None,
    }
}

impl Workbench {
    /// Starts to replay a capture, and gives what was taken over from beside it.
    pub fn open_replay(&mut self, sidecar: Option<&CaptureSidecar>, name: &str) -> (restored: Option<
        RestoredCapture,
    >)
        ensures
            final(self).panel == old(self).panel,
            final(self).stream() == opened(old(self).stream(), beside(sidecar), name@),
            match sidecar {
                None => restored is None,
                Some(s) => match capture_meta::restored_all(
                    capture_meta::meta_views(s.report_decoders@),
                ) {
                    Err(_) => restored is None,
                    Ok(saved) => {
                        &&& restored matches Some(c)
                        &&& c.decoders is Some == !saved.dom().is_empty()
                        &&& c.decoders matches Some(d) ==> crate::samples::decoder_views(d@)
                            == saved
                        &&& c.rseq_files@ == text::joined(text::texts(s.rseq_files@), "; "@)
                        &&& c.chip_files@ == text::joined(text::texts(s.chip_files@), "; "@)
                        &&& c.skip_samples@ == text::dec(s.skip_samples as nat)
                    },
                },
            },
    {
        self.stop_session();
        let restored = match sidecar {
            None => None,
            Some(s) => match self.apply_capture_sidecar(s) {
                Ok(c) => Some(c),
                Err(e) => {
                    self.log(e);
                    None
                },
            },
        };
        self.start_replay(name);
        restored
    }

    /// Takes the records of a capture as if they came now, each at its time, and tells so.
    pub fn replay_capture(
        &mut self,
        processor: &mut ReportProcessor,
        records: &[ReportCaptureRecord],
        times: &[u64],
        path: &str,
    )
        requires
            records@.len() <= times@.len(),
            records_room(old(processor).counts(), capture::records_view(records@)),
        ensures
            final(processor).decoder_map() == old(processor).decoder_map(),
            final(processor).kind_table() == old(processor).kind_table(),
            final(processor).counts() == counts_after(
                old(processor).counts(),
                capture::records_view(records@),
            ),
            final(self).panel == old(self).panel,
            final(self).stream() == workbench::logged(
                after_records(
                    old(self).stream(),
                    old(processor).kind_table(),
                    old(processor).decoder_map(),
                    old(processor).counts(),
                    capture::records_view(records@),
                    times@,
                ),
                "replayed "@ + text::dec(records@.len()) + " report(s) from "@ + path@,
            ),
    {
        let ghost all = capture::records_view(records@);
        let ghost h = processor.counts();
        let ghost seen = self.stream();
        let mut i: usize = 0;
        assert(all.take(0) =~= Seq::<RecordView>::empty());
        while i < records.len()
            invariant
                i <= records@.len() <= times@.len(),
                all == capture::records_view(records@),
                records_room(h, all),
                processor.decoder_map() == old(processor).decoder_map(),
                processor.kind_table() == old(processor).kind_table(),
                processor.counts() == counts_after(h, all.take(i as int)),
                self.panel == old(self).panel,
                self.stream() == after_records(
                    seen,
                    old(processor).kind_table(),
                    old(processor).decoder_map(),
                    h,
                    all.take(i as int),
                    times@,
                ),
            decreases records.len() - i,
        {
            proof {
                let next = all.take(i + 1);
                assert(next.drop_last() =~= all.take(i as int));
                assert(next.last() == records@[i as int].view());
                assert(all[i as int] == records@[i as int].view());
                assert(health::health_room(counts_after(h, all.take(i as int)), all[i as int].meta));
            }
            self.replay_record(processor, &records[i], times[i]);
            i += 1;
        }
        assert(all.take(all.len() as int) =~= all);
        self.finish_replay(records.len(), path);
    }
}

// ---- what is kept

proof fn lemma_kept_after_motion(v: StreamView, events: Seq<EventView>, now: u64)
    requires
        forall|k: int| 0 <= k < events.len() ==> #[trigger] events[k] is Sample,
    ensures
        workbench::after_events(v, events, now).capture == v.capture,
    decreases events.len(),
{
    if events.len() > 0 {
        let less = events.drop_last();
        assert forall|k: int| 0 <= k < less.len() implies #[trigger] less[k] is Sample by {
            assert(less[k] == events[k]);
        }
        lemma_kept_after_motion(v, less, now);
        assert(events[events.len() - 1] is Sample);
    }
}

proof fn lemma_motion(
    all: Seq<Seq<crate::samples::I16LeFieldValue>>,
    d: crate::decoder::DecoderView,
    meta: Option<crate::wire::ReportMeta>,
)
    ensures
        forall|k: int|
            0 <= k < processor::motion_events(all, d, meta).len() ==> #[trigger]
                processor::motion_events(all, d, meta)[k] is Sample,
    decreases all.len(),
{
    if all.len() > 0 {
        lemma_motion(all.drop_last(), d, meta);
    }
}

proof fn lemma_kept_after_record(
    v: StreamView,
    kinds: ReportKinds,
    decoders: Map<u32, ReportDecoder>,
    h: ReportHealth,
    r: RecordView,
    now: u64,
)
    ensures
        workbench::after_events(
            v,
            processor::report_events(kinds, decoders, h, r.meta, r.kind, r.args),
            now,
        ).capture == bounded::capped(v.capture, r, MAX_CAPTURE_RECORDS as nat),
{
    let events = processor::report_events(kinds, decoders, h, r.meta, r.kind, r.args);
    let decoder = processor::decoder_of(decoders, r.kind);
    let bytes = crate::report::first_bytes(r.args);
    let motion = events.drop_last().drop_last();
    if r.kind == kinds.fifo_raw && bytes is Some && decoder is Some {
        let all = crate::samples::samples_from(bytes->Some_0, 0, decoder->Some_0.fields.len());
        lemma_motion(all, decoder->Some_0, r.meta);
        assert(motion =~= processor::motion_events(all, decoder->Some_0, r.meta));
    } else {
        assert(motion =~= Seq::<EventView>::empty());
    }
    lemma_kept_after_motion(v, motion, now);
    assert(events.last() is Health);
    assert(events.drop_last().last() is Report);
    reveal_with_fuel(workbench::after_events, 3);
}

/// A replayed capture can be saved again as it was: the newest of its records are kept, in order,
/// which are all of them where they are not too many.
pub proof fn law_replayed_records_are_kept(
    v: StreamView,
    kinds: ReportKinds,
    decoders: Map<u32, ReportDecoder>,
    h: ReportHealth,
    records: Seq<RecordView>,
    times: Seq<u64>,
)
    requires
        v.capture.len() == 0,
    ensures
        after_records(v, kinds, decoders, h, records, times).capture == bounded::newest(
            records,
            MAX_CAPTURE_RECORDS as nat,
        ),
    decreases records.len(),
{
    if records.len() > 0 {
        let less = records.drop_last();
        law_replayed_records_are_kept(v, kinds, decoders, h, less, times);
        lemma_kept_after_record(
            after_records(v, kinds, decoders, h, less, times),
            kinds,
            decoders,
            counts_after(h, records),
            records.last(),
            times[records.len() - 1],
        );
        assert(bounded::capped(
            bounded::newest(less, MAX_CAPTURE_RECORDS as nat),
            records.last(),
            MAX_CAPTURE_RECORDS as nat,
        ) =~= bounded::newest(records, MAX_CAPTURE_RECORDS as nat));
    }
}

} // verus!
