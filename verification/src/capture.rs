//! Recorded reports as bytes: a header, then records behind their lengths.
use crate::le;
use crate::le::{copy_range, push_bytes, push_u32, push_u64, read_u32, read_u64};
use crate::report;
use crate::report::ReportArg;
use crate::text;
use crate::text::{push_dec, push_hex};
use crate::wire::{ArgView, ReportMeta, REPORT_ARG_BYTES, REPORT_ARG_U32};
use vstd::prelude::*;
use vstd::slice::slice_subrange;

verus! {

/// A recorded report.
#[derive(Debug, Clone, PartialEq, Eq)]
pub struct ReportCaptureRecord {
    pub meta: Option<ReportMeta>,
    pub kind: u32,
    pub args: Vec<ReportArg>,
}

/// A recorded report as a mathematical value.
pub struct RecordView {
    pub meta: Option<ReportMeta>,
    pub kind: u32,
    pub args: Seq<ArgView>,
}

impl ReportCaptureRecord {
    pub open spec fn view(self) -> RecordView {
        RecordView { meta: self.meta, kind: self.kind, args: report::arg_views(self.args@) }
    }
}

/// What a list of records stands for.
pub open spec fn records_view(records: Seq<ReportCaptureRecord>) -> Seq<RecordView> {
    records.map_values(|r: ReportCaptureRecord| r.view())
}

/// The bytes that a capture starts with: `RSEQCAP1` and a line feed.
pub open spec fn magic() -> Seq<u8> {
    seq![0x52, 0x53, 0x45, 0x51, 0x43, 0x41, 0x50, 0x31, 0x0a]
}

/// The bytes that a capture starts with.
pub fn capture_magic() -> (m: Vec<u8>)
    ensures
        m@ == magic(),
{
    let m: Vec<u8> = vec![0x52, 0x53, 0x45, 0x51, 0x43, 0x41, 0x50, 0x31, 0x0a];
    assert(m@ =~= magic());
    m
}

// ---- encoding

/// The bytes of a report's metadata in a record.
pub open spec fn record_meta_bytes(meta: Option<ReportMeta>) -> Seq<u8> {
    match meta {
        Some(m) => seq![1u8, m.flags] + le::le32(m.frame_id) + le::le64(m.timestamp_us),
        None => seq![0u8, 0u8] + le::le32(0) + le::le64(0),
    }
}

/// The bytes of an argument in a record.
pub open spec fn record_arg_bytes(arg: ArgView) -> Seq<u8> {
    match arg {
        ArgView::U32(v) => seq![REPORT_ARG_U32] + le::le32(v),
        ArgView::Bytes(b) => seq![REPORT_ARG_BYTES] + le::le32(b.len() as u32) + b,
    }
}

/// The bytes of arguments in a record, one after the other.
pub open spec fn record_args_bytes(args: Seq<ArgView>) -> Seq<u8>
    decreases args.len(),
{
    if args.len() == 0 {
        Seq::empty()
    } else {
        record_args_bytes(args.drop_last()) + record_arg_bytes(args.last())
    }
}

/// What precedes the arguments in a record.
pub open spec fn record_head(meta: Option<ReportMeta>, kind: u32, count: u8) -> Seq<u8> {
    le::le32(kind) + record_meta_bytes(meta) + seq![count]
}

/// The bytes of a record.
pub open spec fn record_bytes(r: RecordView) -> Seq<u8> {
    record_head(r.meta, r.kind, r.args.len() as u8) + record_args_bytes(r.args)
}

/// The first raw argument that is too long for a record.
pub open spec fn oversized(args: Seq<ArgView>) -> Option<nat>
    decreases args.len(),
{
    if args.len() == 0 {
        None
    } else {
        match oversized(args.drop_last()) {
            Some(n) => Some(n),
            None => match args.last() {
                ArgView::Bytes(b) => if b.len() > u32::MAX {
                    Some(b.len())
                } else {
                    None
                },
                ArgView::U32(_) => None,
            },
        }
    }
}

/// The bytes of a record, or why it cannot be recorded.
pub open spec fn encoded(r: RecordView) -> Result<Seq<u8>, Seq<char>> {
    if r.args.len() > 255 {
        Err("capture report has "@ + text::dec(r.args.len()) + " args, max is "@ + text::dec(255))
    } else {
        match oversized(r.args) {
            Some(n) => Err(
                "capture bytes arg is too large: "@ + text::dec(n) + " byte(s)"@,
            ),
            None => Ok(record_bytes(r)),
        }
    }
}

/// What an encoded record or a reason against it stands for.
pub open spec fn bytes_result(r: Result<Vec<u8>, String>) -> Result<Seq<u8>, Seq<char>> {
    match r {
        Ok(b) => Ok(b@),
        Err(e) => Err(e@),
    }
}

/// Encodes a record.
pub fn encode_capture_record(record: &ReportCaptureRecord) -> (r: Result<Vec<u8>, String>)
    ensures
        bytes_result(r) == encoded(record.view()),
{
    let n: usize = record.args.len();
    if n > 255 {
        let mut reason: String = "capture report has ".to_owned();
        push_dec(&mut reason, n as u128);
        reason.push_str(" args, max is ");
        push_dec(&mut reason, 255);
        return Err(reason);
    }
    let ghost view = report::arg_views(record.args@);
    let mut payload: Vec<u8> = Vec::new();
    push_u32(&mut payload, record.kind);
    match record.meta {
        Some(m) => {
            payload.push(1);
            payload.push(m.flags);
            push_u32(&mut payload, m.frame_id);
            push_u64(&mut payload, m.timestamp_us);
        },
        None => {
            payload.push(0);
            payload.push(0);
            push_u32(&mut payload, 0);
            push_u64(&mut payload, 0);
        },
    }
    payload.push(n as u8);
    let ghost head = record_head(record.meta, record.kind, n as u8);
    assert(payload@ =~= head);
    assert(payload@ =~= head + record_args_bytes(view.take(0)));
    let mut i: usize = 0;
    while i < n
        invariant
            i <= n <= 255,
            n == record.args.len(),
            view == report::arg_views(record.args@),
            oversized(view.take(i as int)) is None,
            payload@ == head + record_args_bytes(view.take(i as int)),
        decreases n - i,
    {
        proof {
            assert(view.take(i + 1).drop_last() =~= view.take(i as int));
            assert(view[i as int] == record.args@[i as int].view());
        }
        match &record.args[i] {
            ReportArg::U32(v) => {
                payload.push(REPORT_ARG_U32);
                push_u32(&mut payload, *v);
            },
            ReportArg::Bytes(b) => {
                if b.len() as u128 > u32::MAX as u128 {
                    proof {
                        lemma_oversized_stays(view, i + 1);
                    }
                    let mut reason: String = "capture bytes arg is too large: ".to_owned();
                    push_dec(&mut reason, b.len() as u128);
                    reason.push_str(" byte(s)");
                    return Err(reason);
                }
                payload.push(REPORT_ARG_BYTES);
                push_u32(&mut payload, b.len() as u32);
                push_bytes(&mut payload, b);
            },
        }
        assert(payload@ =~= head + record_args_bytes(view.take(i + 1)));
        i += 1;
    }
    assert(view.take(view.len() as int) =~= view);
    Ok(payload)
}

proof fn lemma_oversized_stays(args: Seq<ArgView>, i: int)
    requires
        0 <= i <= args.len(),
        oversized(args.take(i)) is Some,
    ensures
        oversized(args) == oversized(args.take(i)),
    decreases args.len() - i,
{
    if i < args.len() {
        assert(args.take(i + 1).drop_last() =~= args.take(i));
        lemma_oversized_stays(args, i + 1);
    } else {
        assert(args.take(i) =~= args);
    }
}

// ---- decoding

/// Where taking `n` bytes from position `pos` on ends, or why they cannot be taken.
pub open spec fn taken(p: Seq<u8>, pos: int, n: int) -> Result<int, Seq<char>> {
    if pos + n > usize::MAX {
        Err("capture record length overflow"@)
    } else if pos + n > p.len() {
        Err("truncated capture record"@)
    } else {
        Ok(pos + n)
    }
}

/// `arg` in front of the rest.
pub open spec fn arg_before(arg: ArgView, rest: Result<Seq<ArgView>, Seq<char>>) -> Result<
    Seq<ArgView>,
    Seq<char>,
> {
    match rest {
        Ok(rest) => Ok(seq![arg] + rest),
        Err(e) => Err(e),
    }
}

/// The `count` arguments of a record from position `pos` on.
pub open spec fn record_args_at(p: Seq<u8>, pos: int, count: nat) -> Result<
    Seq<ArgView>,
    Seq<char>,
>
    decreases count,
{
    if count == 0 {
        Ok(Seq::empty())
    } else if taken(p, pos, 1) is Err {
        Err(taken(p, pos, 1)->Err_0)
    } else if p[pos] == REPORT_ARG_U32 {
        if taken(p, pos + 1, 4) is Err {
            Err(taken(p, pos + 1, 4)->Err_0)
        } else {
            arg_before(
                ArgView::U32(le::at32(p, pos + 1)),
                record_args_at(p, pos + 5, (count - 1) as nat),
            )
        }
    } else if p[pos] == REPORT_ARG_BYTES {
        if taken(p, pos + 1, 4) is Err {
            Err(taken(p, pos + 1, 4)->Err_0)
        } else {
            let len = le::at32(p, pos + 1) as int;
            if taken(p, pos + 5, len) is Err {
                Err(taken(p, pos + 5, len)->Err_0)
            } else {
                arg_before(
                    ArgView::Bytes(p.subrange(pos + 5, pos + 5 + len)),
                    record_args_at(p, pos + 5 + len, (count - 1) as nat),
                )
            }
        }
    } else {
        Err("invalid capture arg tag 0x"@ + text::hex(p[pos] as nat, 2))
    }
}

/// The record that a payload holds, or why it holds none. Bytes behind the record
/// are ignored.
pub open spec fn decoded(p: Seq<u8>) -> Result<RecordView, Seq<char>> {
    if p.len() < 19 {
        Err("truncated capture record"@)
    } else {
        match record_args_at(p, 19, p[18] as nat) {
            Ok(args) => Ok(
                RecordView {
                    meta: if p[4] != 0 {
                        Some(
                            ReportMeta {
                                flags: p[5],
                                frame_id: le::at32(p, 6),
                                timestamp_us: le::at64(p, 10),
                            },
                        )
                    } else {
                        None
                    },
                    kind: le::at32(p, 0),
                    args,
                },
            ),
            Err(e) => Err(e),
        }
    }
}

/// What a decoded record or a reason against it stands for.
pub open spec fn record_result(r: Result<ReportCaptureRecord, String>) -> Result<
    RecordView,
    Seq<char>,
> {
    match r {
        Ok(r) => Ok(r.view()),
        Err(e) => Err(e@),
    }
}

/// Takes the next `len` bytes.
pub fn take_bytes<'a>(payload: &'a [u8], pos: &mut usize, len: usize) -> (r: Result<
    &'a [u8],
    String,
>)
    ensures
        match r {
            Ok(b) => taken(payload@, *old(pos) as int, len as int) == Ok::<int, Seq<char>>(
                *final(pos) as int,
            ) && b@ == payload@.subrange(*old(pos) as int, *final(pos) as int),
            Err(e) => taken(payload@, *old(pos) as int, len as int) == Err::<int, Seq<char>>(
                e@,
            ) && *final(pos) == *old(pos),
        },
{
    let start: usize = *pos;
    if usize::MAX - start < len {
        return Err("capture record length overflow".to_owned());
    }
    let end: usize = start + len;
    if end > payload.len() {
        return Err("truncated capture record".to_owned());
    }
    *pos = end;
    Ok(slice_subrange(payload, start, end))
}

/// Takes the next byte.
pub fn take_u8(payload: &[u8], pos: &mut usize) -> (r: Result<u8, String>)
    ensures
        match r {
            Ok(v) => taken(payload@, *old(pos) as int, 1) == Ok::<int, Seq<char>>(
                *final(pos) as int,
            ) && v == payload@[*old(pos) as int],
            Err(e) => taken(payload@, *old(pos) as int, 1) == Err::<int, Seq<char>>(e@)
                && *final(pos) == *old(pos),
        },
{
    match take_bytes(payload, pos, 1) {
        Ok(b) => Ok(b[0]),
        Err(e) => Err(e),
    }
}

/// Takes the next four bytes as a number.
pub fn take_u32(payload: &[u8], pos: &mut usize) -> (r: Result<u32, String>)
    ensures
        match r {
            Ok(v) => taken(payload@, *old(pos) as int, 4) == Ok::<int, Seq<char>>(
                *final(pos) as int,
            ) && v == le::at32(payload@, *old(pos) as int),
            Err(e) => taken(payload@, *old(pos) as int, 4) == Err::<int, Seq<char>>(e@)
                && *final(pos) == *old(pos),
        },
{
    match take_bytes(payload, pos, 4) {
        Ok(b) => Ok(read_u32(b, 0)),
        Err(e) => Err(e),
    }
}

/// Takes the next eight bytes as a number.
pub fn take_u64(payload: &[u8], pos: &mut usize) -> (r: Result<u64, String>)
    ensures
        match r {
            Ok(v) => taken(payload@, *old(pos) as int, 8) == Ok::<int, Seq<char>>(
                *final(pos) as int,
            ) && v == le::at64(payload@, *old(pos) as int),
            Err(e) => taken(payload@, *old(pos) as int, 8) == Err::<int, Seq<char>>(e@)
                && *final(pos) == *old(pos),
        },
{
    match take_bytes(payload, pos, 8) {
        Ok(b) => Ok(read_u64(b, 0)),
        Err(e) => Err(e),
    }
}

/// Arguments already read in front of those still to read.
pub open spec fn args_before(done: Seq<ArgView>, rest: Result<Seq<ArgView>, Seq<char>>) -> Result<
    Seq<ArgView>,
    Seq<char>,
> {
    match rest {
        Ok(rest) => Ok(done + rest),
        Err(e) => Err(e),
    }
}

proof fn lemma_args_before(
    done: Seq<ArgView>,
    arg: ArgView,
    rest: Result<Seq<ArgView>, Seq<char>>,
)
    ensures
        args_before(done, arg_before(arg, rest)) == args_before(done.push(arg), rest),
{
    if rest is Ok {
        assert(done + (seq![arg] + rest->Ok_0) =~= done.push(arg) + rest->Ok_0);
    }
}

/// Takes one argument of a record.
fn take_arg(payload: &[u8], pos: &mut usize, count: Ghost<nat>) -> (r: Result<ReportArg, String>)
    requires
        *old(pos) <= payload.len(),
        count@ > 0,
    ensures
        *final(pos) <= payload.len(),
        match r {
            Ok(arg) => record_args_at(payload@, *old(pos) as int, count@) == arg_before(
                arg.view(),
                record_args_at(payload@, *final(pos) as int, (count@ - 1) as nat),
            ),
            Err(e) => record_args_at(payload@, *old(pos) as int, count@) == Err::<
                Seq<ArgView>,
                Seq<char>,
            >(e@),
        },
{
    let tag: u8 = match take_u8(payload, pos) {
        Ok(tag) => tag,
        Err(e) => return Err(e),
    };
    if tag == REPORT_ARG_U32 {
        match take_u32(payload, pos) {
            Ok(v) => Ok(ReportArg::U32(v)),
            Err(e) => Err(e),
        }
    } else if tag == REPORT_ARG_BYTES {
        let len: u32 = match take_u32(payload, pos) {
            Ok(len) => len,
            Err(e) => return Err(e),
        };
        match take_bytes(payload, pos, len as usize) {
            Ok(b) => {
                let bytes = copy_range(b, 0, b.len());
                assert(bytes@ =~= b@);
                Ok(ReportArg::Bytes(bytes))
            },
            Err(e) => Err(e),
        }
    } else {
        let mut reason: String = "invalid capture arg tag 0x".to_owned();
        push_hex(&mut reason, tag as u128, 2);
        Err(reason)
    }
}

/// Decodes a record.
pub fn decode_capture_record(payload: &[u8]) -> (r: Result<ReportCaptureRecord, String>)
    ensures
        record_result(r) == decoded(payload@),
{
    if payload.len() < 19 {
        return Err("truncated capture record".to_owned());
    }
    let kind: u32 = read_u32(payload, 0);
    let meta = if payload[4] != 0 {
        Some(
            ReportMeta {
                flags: payload[5],
                frame_id: read_u32(payload, 6),
                timestamp_us: read_u64(payload, 10),
            },
        )
    } else {
        None
    };
    let argc: usize = payload[18] as usize;
    let mut pos: usize = 19;
    let mut args: Vec<ReportArg> = Vec::new();
    let ghost whole = record_args_at(payload@, 19, argc as nat);
    let mut i: usize = 0;
    proof {
        assert(report::arg_views(args@) =~= Seq::<ArgView>::empty());
        if whole is Ok {
            assert(Seq::<ArgView>::empty() + whole->Ok_0 =~= whole->Ok_0);
        }
    }
    while i < argc
        invariant
            i <= argc,
            pos <= payload.len(),
            payload.len() >= 19,
            argc == payload@[18],
            whole == record_args_at(payload@, 19, argc as nat),
            whole == args_before(
                report::arg_views(args@),
                record_args_at(payload@, pos as int, (argc - i) as nat),
            ),
        decreases argc - i,
    {
        let ghost done = report::arg_views(args@);
        let ghost before = args@;
        match take_arg(payload, &mut pos, Ghost((argc - i) as nat)) {
            Ok(arg) => {
                proof {
                    lemma_args_before(
                        done,
                        arg.view(),
                        record_args_at(payload@, pos as int, (argc - i - 1) as nat),
                    );
                }
                args.push(arg);
                assert(report::arg_views(args@) =~= report::arg_views(before).push(arg.view()));
            },
            Err(e) => {
                return Err(e);
            },
        }
        i += 1;
    }
    proof {
        let done = report::arg_views(args@);
        assert(done + Seq::<ArgView>::empty() =~= done);
    }
    Ok(ReportCaptureRecord { meta, kind, args })
}

// ---- whole captures

/// A record behind its length, as it stands in a capture.
pub open spec fn framed(payload: Seq<u8>) -> Seq<u8> {
    le::le32((payload.len() % 0x1_0000_0000) as u32) + payload
}

/// Encodes a record behind its length, as it stands in a capture.
pub fn capture_record_bytes(record: &ReportCaptureRecord) -> (r: Result<Vec<u8>, String>)
    ensures
        bytes_result(r) == (match encoded(record.view()) {
            Ok(p) => Ok(framed(p)),
            Err(e) => Err(e),
        }),
{
    match encode_capture_record(record) {
        Ok(payload) => {
            let mut out: Vec<u8> = Vec::new();
            push_u32(&mut out, (payload.len() as u128 % 0x1_0000_0000) as u32);
            push_bytes(&mut out, &payload);
            assert(out@ =~= framed(payload@));
            Ok(out)
        },
        Err(e) => Err(e),
    }
}

/// The bytes of a capture with records, or why the first that cannot be recorded cannot.
pub open spec fn capture_encoded(records: Seq<RecordView>) -> Result<Seq<u8>, Seq<char>>
    decreases records.len(),
{
    if records.len() == 0 {
        Ok(magic())
    } else {
        match capture_encoded(records.drop_last()) {
            Err(e) => Err(e),
            Ok(b) => match encoded(records.last()) {
                Ok(p) => Ok(b + framed(p)),
                Err(e) => Err(e),
            },
        }
    }
}

proof fn lemma_capture_fails(records: Seq<RecordView>, n: int)
    requires
        0 <= n <= records.len(),
        capture_encoded(records.take(n)) is Err,
    ensures
        capture_encoded(records) == capture_encoded(records.take(n)),
    decreases records.len() - n,
{
    if n < records.len() {
        assert(records.take(n + 1).drop_last() =~= records.take(n));
        lemma_capture_fails(records, n + 1);
    } else {
        assert(records.take(n) =~= records);
    }
}

/// The bytes of a capture with records.
pub fn write_report_capture(records: &[ReportCaptureRecord]) -> (r: Result<Vec<u8>, String>)
    ensures
        bytes_result(r) == capture_encoded(records_view(records@)),
{
    let ghost all = records_view(records@);
    let mut out: Vec<u8> = capture_magic();
    let mut i: usize = 0;
    assert(all.take(0) =~= Seq::<RecordView>::empty());
    while i < records.len()
        invariant
            i <= records.len(),
            all == records_view(records@),
            capture_encoded(all.take(i as int)) == Ok::<Seq<u8>, Seq<char>>(out@),
        decreases records.len() - i,
    {
        assert(all.take(i + 1).drop_last() =~= all.take(i as int));
        assert(all.take(i + 1).last() == records@[i as int].view());
        match capture_record_bytes(&records[i]) {
            Ok(bytes) => {
                push_bytes(&mut out, &bytes);
            },
            Err(e) => {
                proof {
                    lemma_capture_fails(all, i + 1);
                }
                return Err(e);
            },
        }
        i += 1;
    }
    assert(all.take(all.len() as int) =~= all);
    Ok(out)
}

/// Why bytes are no capture.
#[derive(Debug, Clone, PartialEq, Eq)]
pub enum CaptureError {
    /// They end within the header.
    ShortHeader,
    /// They start otherwise.
    NotCapture,
    /// They end within a record.
    ShortRecord,
    /// A record is malformed.
    BadRecord(String),
}

/// Why bytes are no capture, as a mathematical value.
pub enum CaptureErrorView {
    ShortHeader,
    NotCapture,
    ShortRecord,
    BadRecord(Seq<char>),
}

impl CaptureError {
    pub open spec fn view(self) -> CaptureErrorView {
        match self {
            Self::ShortHeader => CaptureErrorView::ShortHeader,
            Self::NotCapture => CaptureErrorView::NotCapture,
            Self::ShortRecord => CaptureErrorView::ShortRecord,
            Self::BadRecord(s) => CaptureErrorView::BadRecord(s@),
        }
    }
}

/// The records of a capture from position `pos` on. Fewer bytes at the end than
/// a length takes are ignored.
pub open spec fn records_at(p: Seq<u8>, pos: int) -> Result<Seq<RecordView>, CaptureErrorView>
    decreases p.len() - pos,
{
    if pos < 0 || pos + 4 > p.len() {
        Ok(Seq::empty())
    } else {
        let end = pos + 4 + le::at32(p, pos);
        if end > p.len() {
            Err(CaptureErrorView::ShortRecord)
        } else {
            match decoded(p.subrange(pos + 4, end)) {
                Err(e) => Err(CaptureErrorView::BadRecord(e)),
                Ok(r) => match records_at(p, end) {
                    Ok(rest) => Ok(seq![r] + rest),
                    Err(e) => Err(e),
                },
            }
        }
    }
}

/// The records of a capture.
pub open spec fn capture_of(p: Seq<u8>) -> Result<Seq<RecordView>, CaptureErrorView> {
    if p.len() < magic().len() {
        Err(CaptureErrorView::ShortHeader)
    } else if p.take(magic().len() as int) != magic() {
        Err(CaptureErrorView::NotCapture)
    } else {
        records_at(p, magic().len() as int)
    }
}

/// Records already read in front of those still to read.
pub open spec fn records_before(
    done: Seq<RecordView>,
    rest: Result<Seq<RecordView>, CaptureErrorView>,
) -> Result<Seq<RecordView>, CaptureErrorView> {
    match rest {
        Ok(rest) => Ok(done + rest),
        Err(e) => Err(e),
    }
}

/// Reads the records of a capture.
pub fn parse_capture(bytes: &[u8]) -> (r: Result<Vec<ReportCaptureRecord>, CaptureError>)
    ensures
        (match r {
            Ok(records) => Ok(records_view(records@)),
            Err(e) => Err(e.view()),
        }) == capture_of(bytes@),
{
    let header = capture_magic();
    if bytes.len() < header.len() {
        return Err(CaptureError::ShortHeader);
    }
    let mut k: usize = 0;
    while k < header.len()
        invariant
            k <= header.len() <= bytes.len(),
            header@ == magic(),
            bytes@.take(k as int) == magic().take(k as int),
        decreases header.len() - k,
    {
        if bytes[k] != header[k] {
            assert(bytes@.take(magic().len() as int)[k as int] != magic()[k as int]);
            return Err(CaptureError::NotCapture);
        }
        k += 1;
        assert(bytes@.take(k as int) =~= magic().take(k as int));
    }
    assert(magic().take(magic().len() as int) =~= magic());
    let mut records: Vec<ReportCaptureRecord> = Vec::new();
    let mut pos: usize = header.len();
    let ghost whole = records_at(bytes@, magic().len() as int);
    proof {
        assert(records_view(records@) =~= Seq::<RecordView>::empty());
        if whole is Ok {
            assert(Seq::<RecordView>::empty() + whole->Ok_0 =~= whole->Ok_0);
        }
    }
    while bytes.len() - pos >= 4
        invariant
            pos <= bytes.len(),
            bytes@.len() >= magic().len(),
            bytes@.take(magic().len() as int) == magic(),
            whole == records_at(bytes@, magic().len() as int),
            whole == records_before(records_view(records@), records_at(bytes@, pos as int)),
        decreases bytes.len() - pos,
    {
        let len: usize = read_u32(bytes, pos) as usize;
        if bytes.len() - pos - 4 < len {
            return Err(CaptureError::ShortRecord);
        }
        let ghost done = records_view(records@);
        let ghost before = records@;
        let end: usize = pos + 4 + len;
        match decode_capture_record(slice_subrange(bytes, pos + 4, end)) {
            Ok(r) => {
                records.push(r);
                proof {
                    assert(records_view(records@) =~= done.push(r.view()));
                    let rest = records_at(bytes@, end as int);
                    if rest is Ok {
                        assert(done + (seq![r.view()] + rest->Ok_0) =~= done.push(r.view())
                            + rest->Ok_0);
                    }
                }
            },
            Err(e) => {
                return Err(CaptureError::BadRecord(e));
            },
        }
        pos = end;
    }
    proof {
        let done = records_view(records@);
        assert(done + Seq::<RecordView>::empty() =~= done);
    }
    Ok(records)
}

// ---- laws

/// Whether a record can be recorded and found again in a capture.
pub open spec fn recordable(r: RecordView) -> bool {
    &&& encoded(r) is Ok
    &&& record_bytes(r).len() <= u32::MAX
    &&& record_bytes(r).len() <= usize::MAX
}

pub proof fn lemma_record_args_front(args: Seq<ArgView>)
    requires
        args.len() > 0,
    ensures
        record_args_bytes(args) == record_arg_bytes(args[0]) + record_args_bytes(args.skip(1)),
        oversized(args) is None ==> oversized(args.skip(1)) is None && (args[0] matches ArgView::Bytes(
            b,
        ) ==> b.len() <= u32::MAX),
    decreases args.len(),
{
    if args.len() == 1 {
        assert(args.drop_last() =~= Seq::<ArgView>::empty());
        assert(args.skip(1) =~= Seq::<ArgView>::empty());
        assert(record_args_bytes(args) =~= record_arg_bytes(args[0]) + record_args_bytes(
            args.skip(1),
        ));
    } else {
        lemma_record_args_front(args.drop_last());
        assert(args.drop_last().skip(1) =~= args.skip(1).drop_last());
        assert(args.skip(1).last() == args.last());
        assert(record_args_bytes(args) =~= record_arg_bytes(args[0]) + record_args_bytes(
            args.skip(1),
        ));
    }
}

#[verifier::rlimit(80)]
proof fn lemma_record_args_read_back(p: Seq<u8>, pos: int, args: Seq<ArgView>)
    requires
        0 <= pos,
        p.len() <= usize::MAX,
        pos + record_args_bytes(args).len() <= p.len(),
        p.subrange(pos, pos + record_args_bytes(args).len() as int) == record_args_bytes(args),
        oversized(args) is None,
    ensures
        record_args_at(p, pos, args.len()) == Ok::<Seq<ArgView>, Seq<char>>(args),
    decreases args.len(),
{
    if args.len() == 0 {
        assert(args =~= Seq::<ArgView>::empty());
    } else {
        lemma_record_args_front(args);
        let all = record_args_bytes(args);
        let first = record_arg_bytes(args[0]);
        let rest = args.skip(1);
        let next = pos + first.len() as int;
        let here = p.subrange(pos, pos + all.len() as int);
        assert(p.subrange(pos, next) =~= here.take(first.len() as int));
        assert(here.take(first.len() as int) =~= first);
        assert(p.subrange(next, next + record_args_bytes(rest).len() as int) =~= here.skip(
            first.len() as int,
        ));
        assert(here.skip(first.len() as int) =~= record_args_bytes(rest));
        assert(p[pos] == p.subrange(pos, next)[0]);
        assert(p.subrange(pos + 1, pos + 5) =~= p.subrange(pos, next).subrange(1, 5));
        match args[0] {
            ArgView::U32(v) => {
                assert(first.subrange(1, 5) =~= le::le32(v));
                le::law_le32_round_trip(p, pos + 1, v);
            },
            ArgView::Bytes(b) => {
                assert(first.subrange(1, 5) =~= le::le32(b.len() as u32));
                le::law_le32_round_trip(p, pos + 1, b.len() as u32);
                assert(p.subrange(pos + 5, next) =~= p.subrange(pos, next).skip(5));
                assert(first.skip(5) =~= b);
            },
        }
        lemma_record_args_read_back(p, next, rest);
        assert(seq![args[0]] + rest =~= args);
    }
}

/// A decoded record is the one that was encoded.
pub proof fn law_record_round_trip(r: RecordView)
    requires
        encoded(r) is Ok,
        record_bytes(r).len() <= usize::MAX,
    ensures
        encoded(r) == Ok::<Seq<u8>, Seq<char>>(record_bytes(r)),
        decoded(record_bytes(r)) == Ok::<RecordView, Seq<char>>(r),
{
    let p = record_bytes(r);
    let count = r.args.len() as u8;
    let head = record_head(r.meta, r.kind, count);
    assert(p.subrange(19, 19 + record_args_bytes(r.args).len() as int) =~= record_args_bytes(
        r.args,
    ));
    lemma_record_args_read_back(p, 19, r.args);
    assert(p.take(19) =~= head);
    lemma_record_head(p, r.meta, r.kind, count);
}

proof fn lemma_record_args_cut(p: Seq<u8>, pos: int, args: Seq<ArgView>, k: int)
    requires
        0 <= pos,
        p.len() <= usize::MAX,
        pos <= k < pos + record_args_bytes(args).len() <= p.len(),
        p.subrange(pos, pos + record_args_bytes(args).len() as int) == record_args_bytes(args),
        oversized(args) is None,
    ensures
        record_args_at(p.take(k), pos, args.len()) == Err::<Seq<ArgView>, Seq<char>>(
            "truncated capture record"@,
        ),
    decreases args.len(),
{
    if args.len() > 0 {
        lemma_record_args_front(args);
        let q = p.take(k);
        let all = record_args_bytes(args);
        let first = record_arg_bytes(args[0]);
        let rest = args.skip(1);
        let next = pos + first.len() as int;
        let here = p.subrange(pos, pos + all.len() as int);
        assert(here.take(first.len() as int) =~= first);
        assert(p.subrange(next, next + record_args_bytes(rest).len() as int) =~= here.skip(
            first.len() as int,
        ));
        assert(here.skip(first.len() as int) =~= record_args_bytes(rest));
        assert(p[pos] == here[0]);
        if k >= pos + 5 {
            assert(q.subrange(pos + 1, pos + 5) =~= here.take(first.len() as int).subrange(1, 5));
            match args[0] {
                ArgView::U32(v) => {
                    assert(first.subrange(1, 5) =~= le::le32(v));
                    le::law_le32_round_trip(q, pos + 1, v);
                },
                ArgView::Bytes(b) => {
                    assert(first.subrange(1, 5) =~= le::le32(b.len() as u32));
                    le::law_le32_round_trip(q, pos + 1, b.len() as u32);
                },
            }
        }
        if k >= next {
            lemma_record_args_cut(p, next, rest, k);
        }
    }
}

/// An encoded record that is cut off anywhere is refused.
pub proof fn law_cut_record_is_refused(r: RecordView, k: int)
    requires
        encoded(r) is Ok,
        record_bytes(r).len() <= usize::MAX,
        0 <= k < record_bytes(r).len(),
    ensures
        decoded(record_bytes(r).take(k)) == Err::<RecordView, Seq<char>>(
            "truncated capture record"@,
        ),
{
    let p = record_bytes(r);
    if k >= 19 {
        assert(p.subrange(19, 19 + record_args_bytes(r.args).len() as int) =~= record_args_bytes(
            r.args,
        ));
        assert(p[18] == r.args.len() as u8);
        lemma_record_args_cut(p, 19, r.args, k);
    }
}

proof fn lemma_record_head(p: Seq<u8>, meta: Option<ReportMeta>, kind: u32, count: u8)
    requires
        p.len() >= 19,
        p.take(19) == record_head(meta, kind, count),
    ensures
        le::at32(p, 0) == kind,
        p[18] == count,
        match meta {
            Some(m) => p[4] == 1 && p[5] == m.flags && le::at32(p, 6) == m.frame_id && le::at64(
                p,
                10,
            ) == m.timestamp_us,
            None => p[4] == 0,
        },
{
    let q = p.take(19);
    let head = record_head(meta, kind, count);
    let body = record_meta_bytes(meta);
    assert(body.len() == 14);
    assert(head[4] == body[0] && head[5] == body[1] && head[18] == count);
    assert(q[4] == p[4] && q[5] == p[5] && q[18] == p[18]);
    assert(p.subrange(0, 4) =~= q.subrange(0, 4));
    assert(head.subrange(0, 4) =~= le::le32(kind));
    le::law_le32_round_trip(p, 0, kind);
    match meta {
        Some(m) => {
            assert(p.subrange(6, 10) =~= q.subrange(6, 10));
            assert(head.subrange(6, 10) =~= le::le32(m.frame_id));
            le::law_le32_round_trip(p, 6, m.frame_id);
            assert(p.subrange(10, 18) =~= q.subrange(10, 18));
            assert(head.subrange(10, 18) =~= le::le64(m.timestamp_us));
            le::law_le64_round_trip(p, 10, m.timestamp_us);
        },
        None => {},
    }
}

/// The bytes of records in a capture, one after the other.
pub open spec fn framed_all(records: Seq<RecordView>) -> Seq<u8>
    decreases records.len(),
{
    if records.len() == 0 {
        Seq::empty()
    } else {
        framed(record_bytes(records[0])) + framed_all(records.skip(1))
    }
}

proof fn lemma_framed_front(p: Seq<u8>, pos: int, payload: Seq<u8>, rest: Seq<u8>)
    requires
        0 <= pos <= p.len(),
        p.skip(pos) == framed(payload) + rest,
        payload.len() <= u32::MAX,
    ensures
        pos + 4 + payload.len() <= p.len(),
        le::at32(p, pos) == payload.len(),
        p.subrange(pos + 4, pos + 4 + payload.len() as int) == payload,
        p.skip(pos + 4 + payload.len() as int) == rest,
{
    let tail = p.skip(pos);
    let n = payload.len() as int;
    assert(framed(payload) == le::le32(payload.len() as u32) + payload);
    assert(le::le32(payload.len() as u32).len() == 4);
    assert(tail.len() == 4 + n + rest.len());
    assert(tail.len() == p.len() - pos);
    assert(p.subrange(pos, pos + 4) =~= tail.subrange(0, 4));
    assert(tail.subrange(0, 4) =~= le::le32(payload.len() as u32));
    le::law_le32_round_trip(p, pos, payload.len() as u32);
    assert(p.subrange(pos + 4, pos + 4 + n) =~= tail.subrange(4, 4 + n));
    assert(tail.subrange(4, 4 + n) =~= payload);
    assert(p.skip(pos + 4 + n) =~= tail.skip(4 + n));
    assert(tail.skip(4 + n) =~= rest);
}

proof fn lemma_records_read_back(p: Seq<u8>, pos: int, records: Seq<RecordView>)
    requires
        0 <= pos <= p.len(),
        p.skip(pos) == framed_all(records),
        forall|i: int| 0 <= i < records.len() ==> recordable(#[trigger] records[i]),
    ensures
        records_at(p, pos) == Ok::<Seq<RecordView>, CaptureErrorView>(records),
    decreases records.len(),
{
    if records.len() == 0 {
        assert(p.skip(pos).len() == 0);
        assert(records =~= Seq::<RecordView>::empty());
    } else {
        let r = records[0];
        let rest = records.skip(1);
        let payload = record_bytes(r);
        assert(recordable(r));
        law_record_round_trip(r);
        lemma_framed_front(p, pos, payload, framed_all(rest));
        assert forall|i: int| 0 <= i < rest.len() implies recordable(#[trigger] rest[i]) by {
            assert(rest[i] == records[i + 1]);
        }
        lemma_records_read_back(p, pos + 4 + payload.len() as int, rest);
        assert(seq![r] + rest =~= records);
    }
}

proof fn lemma_joined(a: Seq<u8>, b: Seq<u8>, c: Seq<u8>)
    ensures
        a + (b + c) == a + b + c,
        a + Seq::<u8>::empty() == a,
        Seq::<u8>::empty() + a == a,
{
    assert(a + (b + c) =~= a + b + c);
    assert(a + Seq::<u8>::empty() =~= a);
    assert(Seq::<u8>::empty() + a =~= a);
}

proof fn lemma_framed_last(records: Seq<RecordView>)
    requires
        records.len() > 0,
    ensures
        framed_all(records) == framed_all(records.drop_last()) + framed(
            record_bytes(records.last()),
        ),
    decreases records.len(),
{
    if records.len() == 1 {
        assert(records.drop_last() =~= Seq::<RecordView>::empty());
        assert(records.skip(1) =~= Seq::<RecordView>::empty());
        assert(records[0] == records.last());
        lemma_joined(framed(record_bytes(records[0])), Seq::empty(), Seq::empty());
    } else {
        let rest = records.skip(1);
        lemma_framed_last(rest);
        assert(rest.drop_last() =~= records.drop_last().skip(1));
        assert(rest.last() == records.last());
        assert(records.drop_last()[0] == records[0]);
        lemma_joined(
            framed(record_bytes(records[0])),
            framed_all(rest.drop_last()),
            framed(record_bytes(records.last())),
        );
    }
}

proof fn lemma_capture_encoded(records: Seq<RecordView>)
    requires
        forall|i: int| 0 <= i < records.len() ==> recordable(#[trigger] records[i]),
    ensures
        capture_encoded(records) == Ok::<Seq<u8>, Seq<char>>(magic() + framed_all(records)),
    decreases records.len(),
{
    if records.len() == 0 {
        lemma_joined(magic(), Seq::empty(), Seq::empty());
    } else {
        let less = records.drop_last();
        assert forall|i: int| 0 <= i < less.len() implies recordable(#[trigger] less[i]) by {
            assert(less[i] == records[i]);
        }
        lemma_capture_encoded(less);
        assert(recordable(records.last()));
        law_record_round_trip(records.last());
        lemma_framed_last(records);
        lemma_joined(magic(), framed_all(less), framed(record_bytes(records.last())));
    }
}

/// Reading a capture gives back the records that were written to it, in order.
pub proof fn law_capture_round_trip(records: Seq<RecordView>)
    requires
        forall|i: int| 0 <= i < records.len() ==> recordable(#[trigger] records[i]),
    ensures
        capture_encoded(records) is Ok,
        capture_of(capture_encoded(records)->Ok_0) == Ok::<Seq<RecordView>, CaptureErrorView>(
            records,
        ),
{
    lemma_capture_encoded(records);
    let p = magic() + framed_all(records);
    assert(p.take(magic().len() as int) =~= magic());
    assert(p.skip(magic().len() as int) =~= framed_all(records));
    lemma_records_read_back(p, magic().len() as int, records);
}

} // verus!
