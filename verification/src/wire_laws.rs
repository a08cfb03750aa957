//! What decoding gives back of what was encoded.
use crate::frame;
use crate::frame::{FrameType, FrameView, Scan, OVERHEAD};
use crate::le;
use crate::wire;
use crate::wire::{
    ArgView, ControlRequestView, ControlResultView, ReportMeta, SegView, TraceView,
    CONTROL_MAX_READ_LEN, CONTROL_MAX_WRITE_LEN, MAX_REPORT_PAYLOAD, MAX_REPORT_RAW_ARGS,
    MAX_REPORT_RAW_BYTES,
};
use vstd::prelude::*;

verus! {

/// A decoded control request is the one that was encoded.
pub proof fn law_control_request_round_trip(r: ControlRequestView)
    requires
        r matches ControlRequestView::BusWrite { data, .. } ==> data.len()
            <= CONTROL_MAX_WRITE_LEN,
    ensures
        wire::control_request_of(wire::control_request_bytes(r)) == Some(r),
{
    let p = wire::control_request_bytes(r);
    match r {
        ControlRequestView::BusRead { request_id, addr, len } => {
            assert(p.subrange(1, 3) =~= le::le16(request_id));
            assert(p.subrange(3, 7) =~= le::le32(addr));
            assert(p.subrange(7, 9) =~= le::le16(len));
            le::law_le16_round_trip(p, 1, request_id);
            le::law_le32_round_trip(p, 3, addr);
            le::law_le16_round_trip(p, 7, len);
        },
        ControlRequestView::BusWrite { request_id, addr, data } => {
            assert(p.subrange(1, 3) =~= le::le16(request_id));
            assert(p.subrange(3, 7) =~= le::le32(addr));
            assert(p.subrange(7, 9) =~= le::le16(data.len() as u16));
            le::law_le16_round_trip(p, 1, request_id);
            le::law_le32_round_trip(p, 3, addr);
            le::law_le16_round_trip(p, 7, data.len() as u16);
            assert(p.skip(9) =~= data);
        },
    }
}

/// A decoded control result is the one that was encoded.
pub proof fn law_control_result_round_trip(r: ControlResultView)
    requires
        r matches ControlResultView::BusRead { data, .. } ==> data.len() <= CONTROL_MAX_READ_LEN,
    ensures
        wire::control_result_of(wire::control_result_bytes(r)) == Some(r),
{
    let p = wire::control_result_bytes(r);
    match r {
        ControlResultView::BusRead { request_id, status, addr, data } => {
            assert(p.subrange(1, 3) =~= le::le16(request_id));
            assert(p[3] == wire::control_code(status));
            assert(p.subrange(4, 8) =~= le::le32(addr));
            assert(p.subrange(8, 10) =~= le::le16(data.len() as u16));
            le::law_le16_round_trip(p, 1, request_id);
            le::law_le32_round_trip(p, 4, addr);
            le::law_le16_round_trip(p, 8, data.len() as u16);
            assert(p.subrange(10, 10 + data.len() as int) =~= data);
        },
        ControlResultView::BusWrite { request_id, status, addr, len } => {
            assert(p.subrange(1, 3) =~= le::le16(request_id));
            assert(p[3] == wire::control_code(status));
            assert(p.subrange(4, 8) =~= le::le32(addr));
            assert(p.subrange(8, 10) =~= le::le16(len));
            le::law_le16_round_trip(p, 1, request_id);
            le::law_le32_round_trip(p, 4, addr);
            le::law_le16_round_trip(p, 8, len);
        },
    }
}

/// Whether a trace record can be carried: sizes fit their fields.
pub open spec fn trace_ok(t: TraceView) -> bool {
    match t {
        TraceView::Read { data, .. } => data.len() <= 65535,
        TraceView::Write { data, .. } => data.len() <= 65535,
        TraceView::Log { msg } => msg.len() <= 65535,
        TraceView::Report { args, .. } => wire::args_ok(args),
        _ => true,
    }
}

pub proof fn lemma_args_bytes_front(args: Seq<ArgView>)
    requires
        args.len() > 0,
    ensures
        wire::args_bytes(args) == wire::arg_bytes(args[0]) + wire::args_bytes(args.skip(1)),
        wire::raw_count(args) == wire::raw_count(args.skip(1)) + if args[0] is Bytes {
            1nat
        } else {
            0nat
        },
    decreases args.len(),
{
    if args.len() == 1 {
        assert(args.drop_last() =~= Seq::<ArgView>::empty());
        assert(args.skip(1) =~= Seq::<ArgView>::empty());
        assert(wire::args_bytes(args) =~= wire::arg_bytes(args[0]) + wire::args_bytes(
            args.skip(1),
        ));
    } else {
        lemma_args_bytes_front(args.drop_last());
        assert(args.drop_last().skip(1) =~= args.skip(1).drop_last());
        assert(args.skip(1).last() == args.last());
        assert(wire::args_bytes(args) =~= wire::arg_bytes(args[0]) + wire::args_bytes(
            args.skip(1),
        ));
    }
}

/// Whether every run of bytes among arguments is short enough for a report.
spec fn runs_fit(args: Seq<ArgView>) -> bool {
    forall|i: int|
        0 <= i < args.len() ==> (#[trigger] args[i] matches ArgView::Bytes(b) ==> b.len()
            <= MAX_REPORT_RAW_BYTES)
}

proof fn lemma_first_arg_at(p: Seq<u8>, pos: int, args: Seq<ArgView>)
    requires
        0 <= pos,
        args.len() > 0,
        pos + wire::args_bytes(args).len() <= p.len(),
        p.subrange(pos, pos + wire::args_bytes(args).len() as int) == wire::args_bytes(args),
        runs_fit(args),
    ensures
        ({
            let next = pos + wire::arg_bytes(args[0]).len() as int;
            let rest = wire::args_bytes(args.skip(1));
            &&& p.subrange(pos, next) == wire::arg_bytes(args[0])
            &&& next + rest.len() == pos + wire::args_bytes(args).len()
            &&& p.subrange(next, next + rest.len() as int) == rest
            &&& runs_fit(args.skip(1))
        }),
{
    lemma_args_bytes_front(args);
    let first = wire::arg_bytes(args[0]);
    let rest = args.skip(1);
    let n = first.len() as int;
    let here = p.subrange(pos, pos + wire::args_bytes(args).len() as int);
    assert(here.take(n) =~= first);
    assert(p.subrange(pos, pos + n) =~= here.take(n));
    assert(here.skip(n) =~= wire::args_bytes(rest));
    assert(p.subrange(pos + n, pos + n + wire::args_bytes(rest).len() as int) =~= here.skip(n));
    assert forall|i: int| 0 <= i < rest.len() implies (#[trigger] rest[i] matches ArgView::Bytes(b)
        ==> b.len() <= MAX_REPORT_RAW_BYTES) by {
        assert(rest[i] == args[i + 1]);
    }
}

proof fn lemma_number_arg_at(p: Seq<u8>, pos: int, v: u32)
    requires
        0 <= pos,
        pos + 5 <= p.len(),
        p.subrange(pos, pos + 5) == wire::arg_bytes(ArgView::U32(v)),
    ensures
        p[pos] == wire::REPORT_ARG_U32,
        le::at32(p, pos + 1) == v,
{
    let here = p.subrange(pos, pos + 5);
    assert(here[0] == p[pos]);
    assert(p.subrange(pos + 1, pos + 5) =~= here.skip(1));
    assert(wire::arg_bytes(ArgView::U32(v)).skip(1) =~= le::le32(v));
    le::law_le32_round_trip(p, pos + 1, v);
}

proof fn lemma_bytes_arg_at(p: Seq<u8>, pos: int, b: Seq<u8>)
    requires
        0 <= pos,
        b.len() <= MAX_REPORT_RAW_BYTES,
        pos + 3 + b.len() <= p.len(),
        p.subrange(pos, pos + 3 + b.len() as int) == wire::arg_bytes(ArgView::Bytes(b)),
    ensures
        p[pos] == wire::REPORT_ARG_BYTES,
        le::at16(p, pos + 1) == b.len(),
        p.subrange(pos + 3, pos + 3 + b.len() as int) == b,
{
    let here = p.subrange(pos, pos + 3 + b.len() as int);
    let bytes = wire::arg_bytes(ArgView::Bytes(b));
    assert(here[0] == p[pos]);
    assert(p.subrange(pos + 1, pos + 3) =~= here.subrange(1, 3));
    assert(bytes.subrange(1, 3) =~= le::le16(b.len() as u16));
    le::law_le16_round_trip(p, pos + 1, b.len() as u16);
    assert(p.subrange(pos + 3, pos + 3 + b.len() as int) =~= here.skip(3));
    assert(bytes.skip(3) =~= b);
}

proof fn lemma_args_read_back(p: Seq<u8>, pos: int, args: Seq<ArgView>, raws: nat)
    requires
        0 <= pos,
        pos + wire::args_bytes(args).len() <= p.len(),
        p.subrange(pos, pos + wire::args_bytes(args).len() as int) == wire::args_bytes(args),
        wire::raw_count(args) <= raws,
        runs_fit(args),
    ensures
        wire::args_at(p, pos, args.len(), raws) == Some(args),
    decreases args.len(),
{
    if args.len() == 0 {
        assert(args =~= Seq::<ArgView>::empty());
    } else {
        let rest = args.skip(1);
        let next = pos + wire::arg_bytes(args[0]).len() as int;
        lemma_args_bytes_front(args);
        lemma_first_arg_at(p, pos, args);
        match args[0] {
            ArgView::U32(v) => {
                lemma_number_arg_at(p, pos, v);
                lemma_args_read_back(p, next, rest, raws);
            },
            ArgView::Bytes(b) => {
                lemma_bytes_arg_at(p, pos, b);
                lemma_args_read_back(p, next, rest, (raws - 1) as nat);
            },
        }
        assert(seq![args[0]] + rest =~= args);
    }
}

proof fn lemma_report_round_trip(
    meta: Option<ReportMeta>,
    kind: u32,
    args: Seq<ArgView>,
    rest: Seq<u8>,
)
    requires
        wire::args_ok(args),
    ensures
        wire::trace_of(wire::report_payload(meta, kind, args) + rest) == Some(
            TraceView::Report { meta, kind, args },
        ),
{
    let payload = wire::report_payload(meta, kind, args);
    let count = args.len() as u8;
    let head = wire::report_head(meta, kind, count);
    let p = payload + rest;
    let start = head.len() as int;
    assert(p.subrange(start, start + wire::args_bytes(args).len() as int) =~= wire::args_bytes(
        args,
    ));
    lemma_args_read_back(p, start, args, MAX_REPORT_RAW_ARGS as nat);
    assert(p.take(start) =~= head);
    lemma_report_head_fields(p, meta, kind, count);
}

proof fn lemma_report_head_fields(p: Seq<u8>, meta: Option<ReportMeta>, kind: u32, count: u8)
    requires
        p.len() >= wire::report_head(meta, kind, count).len(),
        p.take(wire::report_head(meta, kind, count).len() as int) == wire::report_head(
            meta,
            kind,
            count,
        ),
    ensures
        match meta {
            Some(m) => {
                &&& wire::report_head(meta, kind, count).len() == 19
                &&& p[0] == wire::TRACE_OP_REPORT_V2
                &&& p[1] == m.flags
                &&& le::at32(p, 2) == m.frame_id
                &&& le::at64(p, 6) == m.timestamp_us
                &&& le::at32(p, 14) == kind
                &&& p[18] == count
            },
            None => {
                &&& wire::report_head(meta, kind, count).len() == 6
                &&& p[0] == wire::TRACE_OP_REPORT
                &&& le::at32(p, 1) == kind
                &&& p[5] == count
            },
        },
{
    let head = wire::report_head(meta, kind, count);
    let q = p.take(head.len() as int);
    match meta {
        Some(m) => {
            assert(q[0] == head[0] && q[1] == head[1] && q[18] == head[18]);
            assert(head.subrange(2, 6) =~= le::le32(m.frame_id));
            assert(head.subrange(6, 14) =~= le::le64(m.timestamp_us));
            assert(head.subrange(14, 18) =~= le::le32(kind));
            assert(p.subrange(2, 6) =~= q.subrange(2, 6));
            assert(p.subrange(6, 14) =~= q.subrange(6, 14));
            assert(p.subrange(14, 18) =~= q.subrange(14, 18));
            le::law_le32_round_trip(p, 2, m.frame_id);
            le::law_le64_round_trip(p, 6, m.timestamp_us);
            le::law_le32_round_trip(p, 14, kind);
        },
        None => {
            assert(q[0] == head[0] && q[5] == head[5]);
            assert(head.subrange(1, 5) =~= le::le32(kind));
            assert(p.subrange(1, 5) =~= q.subrange(1, 5));
            le::law_le32_round_trip(p, 1, kind);
        },
    }
}

proof fn lemma_sized_read_back(p: Seq<u8>, pos: int, bytes: Seq<u8>)
    requires
        0 <= pos,
        bytes.len() <= 65535,
        pos + 2 + bytes.len() <= p.len(),
        p.subrange(pos, pos + 2 + bytes.len() as int) == wire::with_len(bytes),
    ensures
        wire::sized_at(p, pos) == Some(bytes),
{
    let here = p.subrange(pos, pos + 2 + bytes.len() as int);
    assert(p.subrange(pos, pos + 2) =~= here.take(2));
    assert(wire::with_len(bytes).take(2) =~= le::le16(bytes.len() as u16));
    le::law_le16_round_trip(p, pos, bytes.len() as u16);
    assert(p.subrange(pos + 2, pos + 2 + bytes.len() as int) =~= here.skip(2));
    assert(wire::with_len(bytes).skip(2) =~= bytes);
}

/// A decoded trace record is the one that was encoded, whatever follows it.
pub proof fn law_trace_round_trip(t: TraceView, rest: Seq<u8>)
    requires
        trace_ok(t),
    ensures
        wire::trace_of(wire::trace_payload(t) + rest) == Some(t),
{
    let p = wire::trace_payload(t) + rest;
    match t {
        TraceView::Read { addr, data } => {
            assert(p.subrange(1, 5) =~= le::le32(addr));
            le::law_le32_round_trip(p, 1, addr);
            assert(p.subrange(5, 7 + data.len() as int) =~= wire::with_len(data));
            lemma_sized_read_back(p, 5, data);
        },
        TraceView::Write { addr, data } => {
            assert(p.subrange(1, 5) =~= le::le32(addr));
            le::law_le32_round_trip(p, 1, addr);
            assert(p.subrange(5, 7 + data.len() as int) =~= wire::with_len(data));
            lemma_sized_read_back(p, 5, data);
        },
        TraceView::Delay { us } => {
            assert(p.subrange(1, 5) =~= le::le32(us));
            le::law_le32_round_trip(p, 1, us);
        },
        TraceView::Log { msg } => {
            assert(p.subrange(1, 3 + msg.len() as int) =~= wire::with_len(msg));
            lemma_sized_read_back(p, 1, msg);
        },
        TraceView::Irq { pin } => {},
        TraceView::Report { meta, kind, args } => {
            lemma_report_round_trip(meta, kind, args, rest);
        },
        TraceView::BusSelect { kind, arg } => {
            assert(p.subrange(2, 6) =~= le::le32(arg));
            le::law_le32_round_trip(p, 2, arg);
        },
    }
}

/// A trace record sent as a frame reaches the other end of the line unchanged.
pub proof fn law_trace_over_the_line(n: nat, t: TraceView)
    requires
        trace_ok(t),
        wire::trace_payload(t).len() <= 65535,
        wire::trace_payload(t).len() + OVERHEAD <= n,
    ensures
        frame::run(n, Scan::Sync0, wire::trace_frame(t)) == (
            Scan::Sync0,
            seq![(FrameType::Trace, wire::trace_payload(t))],
        ),
        wire::trace_of(wire::trace_payload(t)) == Some(t),
{
    frame::law_frame_round_trip(n, Scan::Sync0, FrameType::Trace, wire::trace_payload(t));
    law_trace_round_trip(t, Seq::empty());
    assert(wire::trace_payload(t) + Seq::<u8>::empty() =~= wire::trace_payload(t));
}

/// The frames that trace records are sent as.
pub open spec fn trace_frames(ts: Seq<TraceView>) -> Seq<FrameView> {
    ts.map_values(|t: TraceView| (FrameType::Trace, wire::trace_payload(t)))
}

/// The bytes that trace records are sent as.
pub open spec fn traced_bytes(ts: Seq<TraceView>) -> Seq<u8>
    decreases ts.len(),
{
    if ts.len() == 0 {
        Seq::empty()
    } else {
        traced_bytes(ts.drop_last()) + wire::trace_frame(ts.last())
    }
}

proof fn lemma_traced_bytes(ts: Seq<TraceView>)
    ensures
        traced_bytes(ts) == frame::stream_of(trace_frames(ts)),
    decreases ts.len(),
{
    if ts.len() > 0 {
        lemma_traced_bytes(ts.drop_last());
        assert(trace_frames(ts).drop_last() =~= trace_frames(ts.drop_last()));
        assert(trace_frames(ts).last() == (FrameType::Trace, wire::trace_payload(ts.last())));
    }
}

/// The other end of the line gets all trace records that were sent, in order and unchanged.
pub proof fn law_traces_over_the_line(n: nat, ts: Seq<TraceView>)
    requires
        forall|i: int|
            0 <= i < ts.len() ==> {
                &&& trace_ok(#[trigger] ts[i])
                &&& wire::trace_payload(ts[i]).len() <= 65535
                &&& wire::trace_payload(ts[i]).len() + OVERHEAD <= n
            },
    ensures
        frame::run(n, Scan::Sync0, traced_bytes(ts)) == (Scan::Sync0, trace_frames(ts)),
        forall|i: int|
            0 <= i < ts.len() ==> wire::trace_of(#[trigger] trace_frames(ts)[i].1) == Some(ts[i]),
{
    lemma_traced_bytes(ts);
    let frames = trace_frames(ts);
    assert forall|i: int| 0 <= i < frames.len() implies (#[trigger] frames[i]).1.len() <= 65535
        && frames[i].1.len() + OVERHEAD <= n by {
        assert(trace_ok(ts[i]));
    }
    frame::law_stream_round_trip(n, frames);
    assert forall|i: int| 0 <= i < ts.len() implies wire::trace_of(#[trigger] frames[i].1) == Some(
        ts[i],
    ) by {
        assert(trace_ok(ts[i]));
        law_trace_round_trip(ts[i], Seq::empty());
        assert(wire::trace_payload(ts[i]) + Seq::<u8>::empty() =~= wire::trace_payload(ts[i]));
    }
}

proof fn lemma_args_bytes_bound(args: Seq<ArgView>)
    requires
        forall|i: int|
            0 <= i < args.len() ==> (#[trigger] args[i] matches ArgView::Bytes(b) ==> b.len()
                <= MAX_REPORT_RAW_BYTES),
    ensures
        wire::args_bytes(args).len() <= 5 * args.len() + 4094 * wire::raw_count(args),
    decreases args.len(),
{
    if args.len() > 0 {
        let less = args.drop_last();
        assert forall|i: int| 0 <= i < less.len() implies (#[trigger] less[i] matches ArgView::Bytes(
            b,
        ) ==> b.len() <= MAX_REPORT_RAW_BYTES) by {
            assert(less[i] == args[i]);
        }
        lemma_args_bytes_bound(less);
        assert(args[args.len() - 1] == args.last());
    }
}

/// No report that may be sent is longer than the largest report payload.
pub proof fn law_report_payload_bound(meta: Option<ReportMeta>, kind: u32, args: Seq<ArgView>)
    requires
        wire::args_ok(args),
    ensures
        wire::report_payload(meta, kind, args).len() <= MAX_REPORT_PAYLOAD,
{
    lemma_args_bytes_bound(args);
}

pub proof fn lemma_segs_bytes_front(segs: Seq<SegView>)
    requires
        segs.len() > 0,
    ensures
        wire::segs_bytes(segs) == wire::seg_bytes(segs[0]) + wire::segs_bytes(segs.skip(1)),
    decreases segs.len(),
{
    if segs.len() == 1 {
        assert(segs.drop_last() =~= Seq::<SegView>::empty());
        assert(segs.skip(1) =~= Seq::<SegView>::empty());
        assert(wire::segs_bytes(segs) =~= wire::seg_bytes(segs[0]) + wire::segs_bytes(
            segs.skip(1),
        ));
    } else {
        lemma_segs_bytes_front(segs.drop_last());
        assert(segs.drop_last().skip(1) =~= segs.skip(1).drop_last());
        assert(segs.skip(1).last() == segs.last());
        assert(wire::segs_bytes(segs) =~= wire::seg_bytes(segs[0]) + wire::segs_bytes(
            segs.skip(1),
        ));
    }
}

proof fn lemma_segs_read_back(segs: Seq<SegView>, rest: Seq<u8>)
    requires
        forall|i: int| 0 <= i < segs.len() ==> (#[trigger] segs[i]).1.len() <= 65535,
    ensures
        wire::segs_of(wire::segs_bytes(segs) + rest, segs.len()) == segs,
    decreases segs.len(),
{
    let p = wire::segs_bytes(segs) + rest;
    if segs.len() == 0 {
        assert(segs =~= Seq::<SegView>::empty());
    } else {
        lemma_segs_bytes_front(segs);
        let seg = segs[0];
        let tail = segs.skip(1);
        assert forall|i: int| 0 <= i < tail.len() implies (#[trigger] tail[i]).1.len()
            <= 65535 by {
            assert(tail[i] == segs[i + 1]);
        }
        assert(p.subrange(1, 3) =~= le::le16(seg.1.len() as u16));
        le::law_le16_round_trip(p, 1, seg.1.len() as u16);
        assert(p.subrange(3, 3 + seg.1.len() as int) =~= seg.1);
        assert(wire::first_seg(p) == Some(seg));
        assert(p.skip(3 + seg.1.len() as int) =~= wire::segs_bytes(tail) + rest);
        lemma_segs_read_back(tail, rest);
        assert(seq![seg] + tail =~= segs);
    }
}

/// The segments of a load payload are those that were packed into it.
pub proof fn law_load_round_trip(segs: Seq<SegView>)
    requires
        segs.len() <= 255,
        forall|i: int| 0 <= i < segs.len() ==> (#[trigger] segs[i]).1.len() <= 65535,
    ensures
        ({
            let p = wire::load_bytes(segs);
            &&& p[0] == wire::LOAD_VERSION
            &&& wire::load_complete(p)
            &&& wire::segs_of(p.skip(2), p[1] as nat) == segs
        }),
{
    let p = wire::load_bytes(segs);
    assert(p.skip(2) =~= wire::segs_bytes(segs) + Seq::<u8>::empty());
    lemma_segs_read_back(segs, Seq::empty());
}

} // verus!
