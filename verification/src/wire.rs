//! What frames carry: trace records, control requests and results, execution
//! status, and programs to load.
use crate::bus;
use crate::bus::{BusError, BusKind, VmError};
use crate::crc32::crc32;
use crate::frame;
use crate::frame::{FrameType, HEADER_LEN, OVERHEAD, SYNC0, SYNC1};
use crate::le;
use crate::le::{put_bytes, put_u16, put_u32, read_u16, read_u32, read_u64};
use vstd::prelude::*;
use vstd::slice::slice_subrange;

verus! {

/// Trace operation: read.
pub const TRACE_OP_READ: u8 = 0x01;

/// Trace operation: write.
pub const TRACE_OP_WRITE: u8 = 0x02;

/// Trace operation: delay.
pub const TRACE_OP_DELAY: u8 = 0x03;

/// Trace operation: log line.
pub const TRACE_OP_LOG: u8 = 0x04;

/// Trace operation: an awaited interrupt came.
pub const TRACE_OP_IRQ: u8 = 0x05;

/// Trace operation: structured report without metadata.
pub const TRACE_OP_REPORT: u8 = 0x06;

/// Trace operation: structured report with frame id and timestamp.
pub const TRACE_OP_REPORT_V2: u8 = 0x07;

/// Trace operation: bus selection.
pub const TRACE_OP_BUS_SELECT: u8 = 0x08;

/// The largest trace payload: a report with metadata, seven numbers and one
/// full raw buffer.
pub const MAX_TRACE_PAYLOAD: usize = 4153;

/// Control operation: read a register of the current bus.
pub const CONTROL_OP_BUS_READ: u8 = 0x01;

/// Control operation: write a register of the current bus.
pub const CONTROL_OP_BUS_WRITE: u8 = 0x02;

/// The most bytes that one control read returns.
pub const CONTROL_MAX_READ_LEN: usize = 64;

/// The most bytes that one control write carries.
pub const CONTROL_MAX_WRITE_LEN: usize = 64;

/// Tag of a numeric report argument.
pub const REPORT_ARG_U32: u8 = 0x01;

/// Tag of a raw report argument.
pub const REPORT_ARG_BYTES: u8 = 0x02;

/// The most arguments of one report.
pub const MAX_REPORT_ARGS: usize = 8;

/// The most raw arguments of one report.
pub const MAX_REPORT_RAW_ARGS: usize = 1;

/// The most bytes of a raw argument.
pub const MAX_REPORT_RAW_BYTES: usize = 4096;

/// The largest report payload.
pub const MAX_REPORT_PAYLOAD: usize = 4153;

/// `ReportMeta::flags`: the timestamp is valid.
pub const REPORT_FLAG_TIMESTAMP_VALID: u8 = 0x01;

/// Version of the load payload.
pub const LOAD_VERSION: u8 = 1;

/// Segment kind: the main program.
pub const SEG_KIND_MAIN: u8 = 0x00;

/// Segment kind: interrupt dispatch table.
pub const SEG_KIND_IRQ_TABLE: u8 = 0x01;

/// Segment kind: interrupt handler.
pub const SEG_KIND_IRQ_HANDLER: u8 = 0x02;

/// Segment kind: handler of the first interrupt line.
pub const SEG_KIND_IRQ_INT1: u8 = 0x10;

/// Segment kind: handler of the second interrupt line.
pub const SEG_KIND_IRQ_INT2: u8 = 0x11;

/// How a control request ended.
#[derive(Debug, Clone, Copy, PartialEq, Eq, Structural)]
pub enum ControlStatus {
    Success,
    InvalidPayload,
    Unsupported,
    InvalidAddress,
    AccessSizeMismatch,
    Timeout,
    HardwareFailure,
}

/// The code of a control status.
pub open spec fn control_code(s: ControlStatus) -> u8 {
    match s {
        ControlStatus::Success => 0,
        ControlStatus::InvalidPayload => 1,
        ControlStatus::Unsupported => 2,
        ControlStatus::InvalidAddress => 3,
        ControlStatus::AccessSizeMismatch => 4,
        ControlStatus::Timeout => 5,
        ControlStatus::HardwareFailure => 6,
    }
}

/// The control status with the given code.
pub open spec fn control_status_of(n: u8) -> Option<ControlStatus> {
    match n {
        0 => Some(ControlStatus::Success),
        1 => Some(ControlStatus::InvalidPayload),
        2 => Some(ControlStatus::Unsupported),
        3 => Some(ControlStatus::InvalidAddress),
        4 => Some(ControlStatus::AccessSizeMismatch),
        5 => Some(ControlStatus::Timeout),
        6 => Some(ControlStatus::HardwareFailure),
        _ => None,
    }
}

/// A code names a control status exactly when it is the code of that status.
pub proof fn law_control_codes(n: u8, s: ControlStatus)
    ensures
        control_status_of(n) == Some(s) <==> n == control_code(s),
{
}

impl ControlStatus {
    /// The status with code `value`, if there is one.
    pub fn from_u8(value: u8) -> (s: Option<Self>)
        ensures
            s == control_status_of(value),
    {
        match value {
            0 => Some(Self::Success),
            1 => Some(Self::InvalidPayload),
            2 => Some(Self::Unsupported),
            3 => Some(Self::InvalidAddress),
            4 => Some(Self::AccessSizeMismatch),
            5 => Some(Self::Timeout),
            6 => Some(Self::HardwareFailure),
            _ => None,
        }
    }

    /// The code of this status.
    pub fn to_u8(self) -> (n: u8)
        ensures
            n == control_code(self),
    {
        match self {
            Self::Success => 0,
            Self::InvalidPayload => 1,
            Self::Unsupported => 2,
            Self::InvalidAddress => 3,
            Self::AccessSizeMismatch => 4,
            Self::Timeout => 5,
            Self::HardwareFailure => 6,
        }
    }

    /// The status that reports a bus error.
    pub fn from_bus_error(error: BusError) -> (s: Self)
        ensures
            s == (match error {
                BusError::InvalidAddress => Self::InvalidAddress,
                BusError::AccessSizeMismatch => Self::AccessSizeMismatch,
                BusError::Timeout => Self::Timeout,
                BusError::HardwareFailure => Self::HardwareFailure,
            }),
    {
        match error {
            BusError::InvalidAddress => Self::InvalidAddress,
            BusError::AccessSizeMismatch => Self::AccessSizeMismatch,
            BusError::Timeout => Self::Timeout,
            BusError::HardwareFailure => Self::HardwareFailure,
        }
    }
}

/// A control request, with its data borrowed from the payload.
#[derive(Debug, Clone, Copy, PartialEq, Eq)]
pub enum ControlRequestRef<'a> {
    BusRead { request_id: u16, addr: u32, len: u16 },
    BusWrite { request_id: u16, addr: u32, data: &'a [u8] },
}

/// A control request as a mathematical value.
pub enum ControlRequestView {
    BusRead { request_id: u16, addr: u32, len: u16 },
    BusWrite { request_id: u16, addr: u32, data: Seq<u8> },
}

impl<'a> ControlRequestRef<'a> {
    pub open spec fn view(self) -> ControlRequestView {
        match self {
            Self::BusRead { request_id, addr, len } => ControlRequestView::BusRead {
                request_id,
                addr,
                len,
            },
            Self::BusWrite { request_id, addr, data } => ControlRequestView::BusWrite {
                request_id,
                addr,
                data: data@,
            },
        }
    }
}

/// The answer to a control request, with its data borrowed from the payload.
#[derive(Debug, Clone, Copy, PartialEq, Eq)]
pub enum ControlResultRef<'a> {
    BusRead { request_id: u16, status: ControlStatus, addr: u32, data: &'a [u8] },
    BusWrite { request_id: u16, status: ControlStatus, addr: u32, len: u16 },
}

/// The answer to a control request as a mathematical value.
pub enum ControlResultView {
    BusRead { request_id: u16, status: ControlStatus, addr: u32, data: Seq<u8> },
    BusWrite { request_id: u16, status: ControlStatus, addr: u32, len: u16 },
}

impl<'a> ControlResultRef<'a> {
    pub open spec fn view(self) -> ControlResultView {
        match self {
            Self::BusRead { request_id, status, addr, data } => ControlResultView::BusRead {
                request_id,
                status,
                addr,
                data: data@,
            },
            Self::BusWrite { request_id, status, addr, len } => ControlResultView::BusWrite {
                request_id,
                status,
                addr,
                len,
            },
        }
    }
}

/// What a report carries besides its kind and arguments.
#[derive(Debug, Clone, Copy, PartialEq, Eq, Structural)]
pub struct ReportMeta {
    pub flags: u8,
    pub frame_id: u32,
    pub timestamp_us: u64,
}

/// Whether the timestamp of a report with these flags is valid: bit 0.
pub open spec fn timestamp_flag(flags: u8) -> bool {
    flags % 2 == 1
}

impl ReportMeta {
    /// Whether the timestamp is valid.
    pub fn timestamp_valid(&self) -> (valid: bool)
        ensures
            valid == timestamp_flag(self.flags),
    {
        let flags: u8 = self.flags;
        assert((flags & 1 != 0) == (flags % 2 == 1)) by (bit_vector);
        flags & REPORT_FLAG_TIMESTAMP_VALID != 0
    }
}

/// A report argument, with raw bytes borrowed.
#[derive(Debug, Clone, Copy, PartialEq, Eq)]
pub enum ReportArgRef<'a> {
    U32(u32),
    Bytes(&'a [u8]),
}

/// A report argument as a mathematical value.
pub enum ArgView {
    U32(u32),
    Bytes(Seq<u8>),
}

impl<'a> ReportArgRef<'a> {
    pub open spec fn view(self) -> ArgView {
        match self {
            Self::U32(v) => ArgView::U32(v),
            Self::Bytes(b) => ArgView::Bytes(b@),
        }
    }
}

/// What a list of borrowed arguments stands for.
pub open spec fn args_view(args: Seq<ReportArgRef<'_>>) -> Seq<ArgView> {
    args.map_values(|a: ReportArgRef<'_>| a.view())
}

/// The arguments of a decoded report.
#[derive(Debug, Clone, Copy, PartialEq, Eq)]
pub struct ReportArgs<'a> {
    args: [ReportArgRef<'a>; MAX_REPORT_ARGS],
    len: u8,
}

impl<'a> ReportArgs<'a> {
    /// How many of the slots are arguments.
    pub closed spec fn count(&self) -> nat {
        self.len as nat
    }

    /// All slots, used or not.
    pub closed spec fn slots(&self) -> Seq<ReportArgRef<'a>> {
        self.args@
    }

    /// The arguments.
    pub open spec fn view(&self) -> Seq<ArgView> {
        args_view(self.slots().take(self.count() as int))
    }

    /// Takes the first `len` slots as arguments.
    pub fn new(args: [ReportArgRef<'a>; MAX_REPORT_ARGS], len: u8) -> (r: Self)
        ensures
            r.slots() == args@,
            r.count() == len,
    {
        Self { args, len }
    }

    /// The number of arguments.
    pub fn len(&self) -> (n: usize)
        ensures
            n == self.count(),
    {
        self.len as usize
    }

    /// Whether there are no arguments.
    pub fn is_empty(&self) -> (r: bool)
        ensures
            r == (self.count() == 0),
    {
        self.len == 0
    }

    /// The arguments.
    pub fn as_slice(&self) -> (s: &[ReportArgRef<'a>])
        requires
            self.count() <= MAX_REPORT_ARGS,
        ensures
            s@ == self.slots().take(self.count() as int),
            args_view(s@) == self@,
    {
        let n: usize = self.len();
        slice_subrange(self.args.as_slice(), 0, n)
    }
}

/// A trace record, with its data borrowed from the payload.
#[allow(inconsistent_fields)]
#[derive(Debug, Clone, Copy, PartialEq, Eq)]
pub enum TraceRef<'a> {
    Read { addr: u32, data: &'a [u8] },
    Write { addr: u32, data: &'a [u8] },
    Delay { us: u32 },
    Log { msg: &'a [u8] },
    Irq { pin: u8 },
    Report { meta: Option<ReportMeta>, kind: u32, args: ReportArgs<'a> },
    BusSelect { kind: BusKind, arg: u32 },
}

/// A trace record as a mathematical value.
#[allow(inconsistent_fields)]
pub enum TraceView {
    Read { addr: u32, data: Seq<u8> },
    Write { addr: u32, data: Seq<u8> },
    Delay { us: u32 },
    Log { msg: Seq<u8> },
    Irq { pin: u8 },
    Report { meta: Option<ReportMeta>, kind: u32, args: Seq<ArgView> },
    BusSelect { kind: BusKind, arg: u32 },
}

impl<'a> TraceRef<'a> {
    pub open spec fn view(self) -> TraceView {
        match self {
            Self::Read { addr, data } => TraceView::Read { addr, data: data@ },
            Self::Write { addr, data } => TraceView::Write { addr, data: data@ },
            Self::Delay { us } => TraceView::Delay { us },
            Self::Log { msg } => TraceView::Log { msg: msg@ },
            Self::Irq { pin } => TraceView::Irq { pin },
            Self::Report { meta, kind, args } => TraceView::Report { meta, kind, args: args@ },
            Self::BusSelect { kind, arg } => TraceView::BusSelect { kind, arg },
        }
    }
}

// ---- encoding of traces

/// `bytes` behind their length modulo 2^16.
pub open spec fn with_len(bytes: Seq<u8>) -> Seq<u8> {
    le::le16((bytes.len() % 65536) as u16) + bytes
}

/// The payload of a read or write trace.
pub open spec fn rw_payload(op: u8, addr: u32, data: Seq<u8>) -> Seq<u8> {
    seq![op] + le::le32(addr) + with_len(data)
}

/// The bytes of one report argument.
pub open spec fn arg_bytes(arg: ArgView) -> Seq<u8> {
    match arg {
        ArgView::U32(v) => seq![REPORT_ARG_U32] + le::le32(v),
        ArgView::Bytes(b) => seq![REPORT_ARG_BYTES] + with_len(b),
    }
}

/// The bytes of report arguments, one after the other.
pub open spec fn args_bytes(args: Seq<ArgView>) -> Seq<u8>
    decreases args.len(),
{
    if args.len() == 0 {
        Seq::empty()
    } else {
        args_bytes(args.drop_last()) + arg_bytes(args.last())
    }
}

/// The metadata of a report on the wire.
pub open spec fn meta_bytes(meta: ReportMeta) -> Seq<u8> {
    seq![meta.flags] + le::le32(meta.frame_id) + le::le64(meta.timestamp_us)
}

/// What precedes the arguments in a report payload.
pub open spec fn report_head(meta: Option<ReportMeta>, kind: u32, count: u8) -> Seq<u8> {
    let op = match meta {
        Some(meta) => seq![TRACE_OP_REPORT_V2] + meta_bytes(meta),
        None => seq![TRACE_OP_REPORT],
    };
    op + le::le32(kind) + seq![count]
}

/// The payload of a report trace.
pub open spec fn report_payload(meta: Option<ReportMeta>, kind: u32, args: Seq<ArgView>) -> Seq<
    u8,
> {
    report_head(meta, kind, args.len() as u8) + args_bytes(args)
}

/// The payload of a trace record.
pub open spec fn trace_payload(t: TraceView) -> Seq<u8> {
    match t {
        TraceView::Read { addr, data } => rw_payload(TRACE_OP_READ, addr, data),
        TraceView::Write { addr, data } => rw_payload(TRACE_OP_WRITE, addr, data),
        TraceView::Delay { us } => seq![TRACE_OP_DELAY] + le::le32(us),
        TraceView::Log { msg } => seq![TRACE_OP_LOG] + with_len(msg),
        TraceView::Irq { pin } => seq![TRACE_OP_IRQ, pin],
        TraceView::Report { meta, kind, args } => report_payload(meta, kind, args),
        TraceView::BusSelect { kind, arg } => seq![TRACE_OP_BUS_SELECT, bus::bus_kind_code(kind)]
            + le::le32(arg),
    }
}

/// The frame of a trace record.
pub open spec fn trace_frame(t: TraceView) -> Seq<u8> {
    frame::frame_bytes(FrameType::Trace, trace_payload(t))
}

/// How many of the arguments are raw bytes.
pub open spec fn raw_count(args: Seq<ArgView>) -> nat
    decreases args.len(),
{
    if args.len() == 0 {
        0
    } else {
        raw_count(args.drop_last()) + if args.last() is Bytes {
            1nat
        } else {
            0nat
        }
    }
}

/// Whether a report may carry these arguments.
pub open spec fn args_ok(args: Seq<ArgView>) -> bool {
    &&& args.len() <= MAX_REPORT_ARGS
    &&& raw_count(args) <= MAX_REPORT_RAW_ARGS
    &&& forall|i: int|
        0 <= i < args.len() ==> (#[trigger] args[i] matches ArgView::Bytes(b) ==> b.len()
            <= MAX_REPORT_RAW_BYTES)
}

/// Turns the payload that stands behind a frame header's place into a trace frame.
fn seal_trace(out: &mut [u8], payload_len: usize)
    requires
        payload_len + OVERHEAD <= old(out).len(),
    ensures
        final(out)@ == le::spliced(
            old(out)@,
            0,
            frame::frame_bytes(
                FrameType::Trace,
                old(out)@.subrange(HEADER_LEN as int, HEADER_LEN + payload_len),
            ),
        ),
{
    let ghost payload = old(out)@.subrange(HEADER_LEN as int, HEADER_LEN + payload_len);
    out[0] = SYNC0;
    out[1] = SYNC1;
    out[2] = FrameType::Trace.to_u8();
    put_u16(out, 3, (payload_len % 65536) as u16);
    let c: usize = HEADER_LEN + payload_len;
    assert(out@.subrange(2, c as int) == frame::frame_body(FrameType::Trace, payload));
    let crc: u32 = crc32(slice_subrange(out, 2, c));
    put_u32(out, c, crc);
    assert(out@ == le::spliced(old(out)@, 0, frame::frame_bytes(FrameType::Trace, payload)));
}

/// Builds a read or write trace frame at the front of `out` and returns its length.
pub fn encode_trace_rw(out: &mut [u8], op: u8, addr: u32, data: &[u8]) -> (n: usize)
    requires
        data.len() + 7 + OVERHEAD <= old(out).len(),
    ensures
        n == data.len() + 7 + OVERHEAD,
        final(out)@ == le::spliced(
            old(out)@,
            0,
            frame::frame_bytes(FrameType::Trace, rw_payload(op, addr, data@)),
        ),
{
    let payload_len: usize = 7 + data.len();
    out[5] = op;
    put_u32(out, 6, addr);
    put_u16(out, 10, (data.len() % 65536) as u16);
    put_bytes(out, 12, data);
    assert(out@.subrange(5, 5 + payload_len) == rw_payload(op, addr, data@));
    seal_trace(out, payload_len);
    assert(final(out)@ == le::spliced(
        old(out)@,
        0,
        frame::frame_bytes(FrameType::Trace, rw_payload(op, addr, data@)),
    ));
    OVERHEAD + payload_len
}

/// Builds a delay trace frame at the front of `out` and returns its length.
pub fn encode_trace_delay(out: &mut [u8], us: u32) -> (n: usize)
    requires
        5 + OVERHEAD <= old(out).len(),
    ensures
        n == 5 + OVERHEAD,
        final(out)@ == le::spliced(old(out)@, 0, trace_frame(TraceView::Delay { us })),
{
    out[5] = TRACE_OP_DELAY;
    put_u32(out, 6, us);
    assert(out@.subrange(5, 10) == trace_payload(TraceView::Delay { us }));
    seal_trace(out, 5);
    assert(final(out)@ == le::spliced(old(out)@, 0, trace_frame(TraceView::Delay { us })));
    OVERHEAD + 5
}

/// Builds a log trace frame at the front of `out` and returns its length.
pub fn encode_trace_log(out: &mut [u8], msg: &str) -> (n: usize)
    requires
        vstd::utf8::encode_utf8(msg@).len() + 3 + OVERHEAD <= old(out).len(),
    ensures
        n == vstd::utf8::encode_utf8(msg@).len() + 3 + OVERHEAD,
        final(out)@ == le::spliced(
            old(out)@,
            0,
            trace_frame(TraceView::Log { msg: vstd::utf8::encode_utf8(msg@) }),
        ),
{
    let bytes: &[u8] = msg.as_bytes();
    let payload_len: usize = 3 + bytes.len();
    out[5] = TRACE_OP_LOG;
    put_u16(out, 6, (bytes.len() % 65536) as u16);
    put_bytes(out, 8, bytes);
    assert(out@.subrange(5, 5 + payload_len) == trace_payload(
        TraceView::Log { msg: vstd::utf8::encode_utf8(msg@) },
    ));
    seal_trace(out, payload_len);
    assert(final(out)@ == le::spliced(
        old(out)@,
        0,
        trace_frame(TraceView::Log { msg: vstd::utf8::encode_utf8(msg@) }),
    ));
    OVERHEAD + payload_len
}

/// Builds an interrupt trace frame at the front of `out` and returns its length.
pub fn encode_trace_irq(out: &mut [u8], pin: u8) -> (n: usize)
    requires
        2 + OVERHEAD <= old(out).len(),
    ensures
        n == 2 + OVERHEAD,
        final(out)@ == le::spliced(old(out)@, 0, trace_frame(TraceView::Irq { pin })),
{
    out[5] = TRACE_OP_IRQ;
    out[6] = pin;
    assert(out@.subrange(5, 7) == trace_payload(TraceView::Irq { pin }));
    seal_trace(out, 2);
    assert(final(out)@ == le::spliced(old(out)@, 0, trace_frame(TraceView::Irq { pin })));
    OVERHEAD + 2
}

/// Builds a bus selection trace frame at the front of `out` and returns its length.
pub fn encode_trace_bus_select(out: &mut [u8], kind: BusKind, arg: u32) -> (n: usize)
    requires
        6 + OVERHEAD <= old(out).len(),
    ensures
        n == 6 + OVERHEAD,
        final(out)@ == le::spliced(old(out)@, 0, trace_frame(TraceView::BusSelect { kind, arg })),
{
    out[5] = TRACE_OP_BUS_SELECT;
    out[6] = kind.to_u8();
    put_u32(out, 7, arg);
    assert(out@.subrange(5, 11) == trace_payload(TraceView::BusSelect { kind, arg }));
    seal_trace(out, 6);
    assert(final(out)@ == le::spliced(
        old(out)@,
        0,
        trace_frame(TraceView::BusSelect { kind, arg }),
    ));
    OVERHEAD + 6
}

proof fn lemma_args_take(args: Seq<ReportArgRef<'_>>, i: int)
    requires
        0 <= i < args.len(),
    ensures
        args_view(args.take(i + 1)).drop_last() == args_view(args.take(i)),
        args_view(args.take(i + 1)).last() == args[i].view(),
        args_view(args).take(i) == args_view(args.take(i)),
{
    assert(args_view(args.take(i + 1)).drop_last() =~= args_view(args.take(i)));
    assert(args_view(args).take(i) =~= args_view(args.take(i)));
}

proof fn lemma_args_bytes_grow(args: Seq<ArgView>, i: int)
    requires
        0 <= i <= args.len(),
    ensures
        args_bytes(args.take(i)).len() <= args_bytes(args).len(),
    decreases args.len() - i,
{
    if i < args.len() {
        lemma_args_bytes_grow(args, i + 1);
        assert(args.take(i + 1).drop_last() == args.take(i));
    } else {
        assert(args.take(i) == args);
    }
}

/// Builds a report trace frame without metadata at the front of `out` and
/// returns its length.
pub fn encode_trace_report(out: &mut [u8], kind: u32, args: &[ReportArgRef<'_>]) -> (n: usize)
    requires
        args_ok(args_view(args@)),
        report_payload(None, kind, args_view(args@)).len() + OVERHEAD <= old(out).len(),
    ensures
        n == report_payload(None, kind, args_view(args@)).len() + OVERHEAD,
        final(out)@ == le::spliced(
            old(out)@,
            0,
            trace_frame(TraceView::Report { meta: None, kind, args: args_view(args@) }),
        ),
{
    encode_trace_report_inner(out, None, kind, args)
}

/// Builds a report trace frame with metadata at the front of `out` and returns
/// its length.
pub fn encode_trace_report_v2(
    out: &mut [u8],
    meta: ReportMeta,
    kind: u32,
    args: &[ReportArgRef<'_>],
) -> (n: usize)
    requires
        args_ok(args_view(args@)),
        report_payload(Some(meta), kind, args_view(args@)).len() + OVERHEAD <= old(out).len(),
    ensures
        n == report_payload(Some(meta), kind, args_view(args@)).len() + OVERHEAD,
        final(out)@ == le::spliced(
            old(out)@,
            0,
            trace_frame(TraceView::Report { meta: Some(meta), kind, args: args_view(args@) }),
        ),
{
    encode_trace_report_inner(out, Some(meta), kind, args)
}

/// Writes one report argument into `out` from position `pos` on.
fn put_arg(out: &mut [u8], pos: usize, arg: ReportArgRef<'_>) -> (next: usize)
    requires
        pos + arg_bytes(arg.view()).len() <= old(out).len(),
    ensures
        next == pos + arg_bytes(arg.view()).len(),
        final(out)@ == le::spliced(old(out)@, pos as int, arg_bytes(arg.view())),
{
    match arg {
        ReportArgRef::U32(value) => {
            out[pos] = REPORT_ARG_U32;
            put_u32(out, pos + 1, value);
            assert(out@ == le::spliced(old(out)@, pos as int, arg_bytes(arg.view())));
            pos + 5
        },
        ReportArgRef::Bytes(bytes) => {
            out[pos] = REPORT_ARG_BYTES;
            put_u16(out, pos + 1, (bytes.len() % 65536) as u16);
            put_bytes(out, pos + 3, bytes);
            assert(out@ == le::spliced(old(out)@, pos as int, arg_bytes(arg.view())));
            pos + 3 + bytes.len()
        },
    }
}

/// Writes what precedes the arguments of a report behind a frame header's place.
fn put_report_head(out: &mut [u8], meta: Option<ReportMeta>, kind: u32, count: u8) -> (next: usize)
    requires
        HEADER_LEN + report_head(meta, kind, count).len() <= old(out).len(),
    ensures
        next == HEADER_LEN + report_head(meta, kind, count).len(),
        final(out)@ == le::spliced(
            old(out)@,
            HEADER_LEN as int,
            report_head(meta, kind, count),
        ),
{
    let pos: usize = match meta {
        Some(meta) => {
            out[5] = TRACE_OP_REPORT_V2;
            out[6] = meta.flags;
            put_u32(out, 7, meta.frame_id);
            put_u32(out, 11, (meta.timestamp_us % 4294967296) as u32);
            put_u32(out, 15, (meta.timestamp_us / 4294967296) as u32);
            19
        },
        None => {
            out[5] = TRACE_OP_REPORT;
            6
        },
    };
    put_u32(out, pos, kind);
    out[pos + 4] = count;
    assert(out@ =~= le::spliced(old(out)@, HEADER_LEN as int, report_head(meta, kind, count)));
    pos + 5
}

/// Writing two runs of bytes next to each other writes their concatenation.
proof fn lemma_splice_twice(out: Seq<u8>, at: int, first: Seq<u8>, second: Seq<u8>)
    requires
        0 <= at,
        at + first.len() + second.len() <= out.len(),
    ensures
        le::spliced(le::spliced(out, at, first), at + first.len(), second) == le::spliced(
            out,
            at,
            first + second,
        ),
{
    assert(le::spliced(le::spliced(out, at, first), at + first.len(), second) =~= le::spliced(
        out,
        at,
        first + second,
    ));
}

/// Writes report arguments into `out` from position `start` on.
fn put_args(out: &mut [u8], start: usize, args: &[ReportArgRef<'_>]) -> (next: usize)
    requires
        start + args_bytes(args_view(args@)).len() <= old(out).len(),
    ensures
        next == start + args_bytes(args_view(args@)).len(),
        final(out)@ == le::spliced(old(out)@, start as int, args_bytes(args_view(args@))),
{
    let ghost view = args_view(args@);
    let mut pos: usize = start;
    let mut i: usize = 0;
    assert(args_view(args@.take(0)) =~= Seq::<ArgView>::empty());
    assert(out@ =~= le::spliced(out@, start as int, Seq::<u8>::empty()));
    while i < args.len()
        invariant
            i <= args.len(),
            view == args_view(args@),
            start + args_bytes(view).len() <= old(out)@.len(),
            pos == start + args_bytes(args_view(args@.take(i as int))).len(),
            out@.len() == old(out)@.len(),
            out@ == le::spliced(
                old(out)@,
                start as int,
                args_bytes(args_view(args@.take(i as int))),
            ),
        decreases args.len() - i,
    {
        proof {
            lemma_args_take(args@, i as int);
            lemma_args_bytes_grow(view, i + 1);
            assert(view.take(i + 1) =~= args_view(args@.take(i + 1)));
            lemma_splice_twice(
                old(out)@,
                start as int,
                args_bytes(args_view(args@.take(i as int))),
                arg_bytes(args@[i as int].view()),
            );
        }
        pos = put_arg(out, pos, args[i]);
        i += 1;
    }
    assert(args@.take(args@.len() as int) == args@);
    pos
}

fn encode_trace_report_inner(
    out: &mut [u8],
    meta: Option<ReportMeta>,
    kind: u32,
    args: &[ReportArgRef<'_>],
) -> (n: usize)
    requires
        args_ok(args_view(args@)),
        report_payload(meta, kind, args_view(args@)).len() + OVERHEAD <= old(out).len(),
    ensures
        n == report_payload(meta, kind, args_view(args@)).len() + OVERHEAD,
        final(out)@ == le::spliced(
            old(out)@,
            0,
            trace_frame(TraceView::Report { meta, kind, args: args_view(args@) }),
        ),
{
    let ghost view = args_view(args@);
    let ghost payload = report_payload(meta, kind, view);
    let start: usize = put_report_head(out, meta, kind, args.len() as u8);
    let end: usize = put_args(out, start, args);
    proof {
        lemma_splice_twice(
            old(out)@,
            HEADER_LEN as int,
            report_head(meta, kind, args.len() as u8),
            args_bytes(view),
        );
    }
    assert(out@ == le::spliced(old(out)@, HEADER_LEN as int, payload));
    let payload_len: usize = end - HEADER_LEN;
    assert(out@.subrange(HEADER_LEN as int, HEADER_LEN + payload_len) =~= payload);
    let ghost before = out@;
    seal_trace(out, payload_len);
    assert(le::spliced(before, 0, frame::frame_bytes(FrameType::Trace, payload)) =~= le::spliced(
        old(out)@,
        0,
        frame::frame_bytes(FrameType::Trace, payload),
    ));
    OVERHEAD + payload_len
}

// ---- decoding of traces

/// `arg` in front of the rest, if the rest could be read.
pub open spec fn arg_then(arg: ArgView, rest: Option<Seq<ArgView>>) -> Option<Seq<ArgView>> {
    match rest {
        Some(rest) => Some(seq![arg] + rest),
        None => None,
    }
}

/// The `count` arguments that stand in `p` from position `pos` on, when at most
/// `raws` of them are raw bytes.
pub open spec fn args_at(p: Seq<u8>, pos: int, count: nat, raws: nat) -> Option<Seq<ArgView>>
    decreases count,
{
    if count == 0 {
        Some(Seq::empty())
    } else if pos >= p.len() {
        None
    } else if p[pos] == REPORT_ARG_U32 {
        if pos + 5 > p.len() {
            None
        } else {
            arg_then(
                ArgView::U32(le::at32(p, pos + 1)),
                args_at(p, pos + 5, (count - 1) as nat, raws),
            )
        }
    } else if p[pos] == REPORT_ARG_BYTES {
        if raws == 0 || pos + 3 > p.len() {
            None
        } else {
            let len = le::at16(p, pos + 1) as int;
            if len > MAX_REPORT_RAW_BYTES || pos + 3 + len > p.len() {
                None
            } else {
                arg_then(
                    ArgView::Bytes(p.subrange(pos + 3, pos + 3 + len)),
                    args_at(p, pos + 3 + len, (count - 1) as nat, (raws - 1) as nat),
                )
            }
        }
    } else {
        None
    }
}

/// The `count` arguments of a report that start at position `pos`.
pub open spec fn report_args_at(p: Seq<u8>, pos: int, count: nat) -> Option<Seq<ArgView>> {
    if count > MAX_REPORT_ARGS {
        None
    } else {
        args_at(p, pos, count, MAX_REPORT_RAW_ARGS as nat)
    }
}

/// The bytes behind a two-byte length at position `pos`.
pub open spec fn sized_at(p: Seq<u8>, pos: int) -> Option<Seq<u8>> {
    if pos + 2 > p.len() {
        None
    } else {
        let len = le::at16(p, pos) as int;
        if pos + 2 + len > p.len() {
            None
        } else {
            Some(p.subrange(pos + 2, pos + 2 + len))
        }
    }
}

/// The trace record that a payload starts with.
pub open spec fn trace_of(p: Seq<u8>) -> Option<TraceView> {
    if p.len() == 0 {
        None
    } else if p[0] == TRACE_OP_READ || p[0] == TRACE_OP_WRITE {
        match sized_at(p, 5) {
            Some(data) => if p[0] == TRACE_OP_READ {
                Some(TraceView::Read { addr: le::at32(p, 1), data })
            } else {
                Some(TraceView::Write { addr: le::at32(p, 1), data })
            },
            None => None,
        }
    } else if p[0] == TRACE_OP_DELAY {
        if p.len() < 5 {
            None
        } else {
            Some(TraceView::Delay { us: le::at32(p, 1) })
        }
    } else if p[0] == TRACE_OP_LOG {
        match sized_at(p, 1) {
            Some(msg) => Some(TraceView::Log { msg }),
            None => None,
        }
    } else if p[0] == TRACE_OP_IRQ {
        if p.len() < 2 {
            None
        } else {
            Some(TraceView::Irq { pin: p[1] })
        }
    } else if p[0] == TRACE_OP_REPORT {
        if p.len() < 6 {
            None
        } else {
            match report_args_at(p, 6, p[5] as nat) {
                Some(args) => Some(TraceView::Report { meta: None, kind: le::at32(p, 1), args }),
                None => None,
            }
        }
    } else if p[0] == TRACE_OP_REPORT_V2 {
        if p.len() < 19 {
            None
        } else {
            let meta = ReportMeta {
                flags: p[1],
                frame_id: le::at32(p, 2),
                timestamp_us: le::at64(p, 6),
            };
            match report_args_at(p, 19, p[18] as nat) {
                Some(args) => Some(
                    TraceView::Report { meta: Some(meta), kind: le::at32(p, 14), args },
                ),
                None => None,
            }
        }
    } else if p[0] == TRACE_OP_BUS_SELECT {
        if p.len() < 6 {
            None
        } else {
            match bus::bus_kind_of(p[1]) {
                Some(kind) => Some(TraceView::BusSelect { kind, arg: le::at32(p, 2) }),
                None => None,
            }
        }
    } else {
        None
    }
}

/// What a decoded record stands for.
pub open spec fn trace_view(t: Option<TraceRef<'_>>) -> Option<TraceView> {
    match t {
        Some(t) => Some(t.view()),
        None => None,
    }
}

/// Arguments already read in front of those still to read.
pub open spec fn args_then(done: Seq<ArgView>, rest: Option<Seq<ArgView>>) -> Option<
    Seq<ArgView>,
> {
    match rest {
        Some(rest) => Some(done + rest),
        None => None,
    }
}

proof fn lemma_args_then(done: Seq<ArgView>, arg: ArgView, rest: Option<Seq<ArgView>>)
    ensures
        args_then(done, arg_then(arg, rest)) == args_then(done.push(arg), rest),
{
    if rest is Some {
        assert(done + (seq![arg] + rest->Some_0) =~= done.push(arg) + rest->Some_0);
    }
}

fn decode_report_args<'a>(payload: &'a [u8], start: usize, count: usize) -> (r: Option<
    ReportArgs<'a>,
>)
    requires
        start <= payload.len(),
    ensures
        (match r {
            Some(args) => Some(args@),
            None => None,
        }) == report_args_at(payload@, start as int, count as nat),
        r matches Some(args) ==> args.count() == count,
{
    if count > MAX_REPORT_ARGS {
        return None;
    }
    let mut args: [ReportArgRef<'a>; MAX_REPORT_ARGS] = [
        ReportArgRef::U32(0),
        ReportArgRef::U32(0),
        ReportArgRef::U32(0),
        ReportArgRef::U32(0),
        ReportArgRef::U32(0),
        ReportArgRef::U32(0),
        ReportArgRef::U32(0),
        ReportArgRef::U32(0),
    ];
    let ghost p = payload@;
    let ghost whole = args_at(p, start as int, count as nat, MAX_REPORT_RAW_ARGS as nat);
    let mut pos: usize = start;
    let mut raws: usize = MAX_REPORT_RAW_ARGS;
    let mut i: usize = 0;
    assert(args_view(args@.take(0)) =~= Seq::<ArgView>::empty());
    proof {
        if whole is Some {
            assert(Seq::<ArgView>::empty() + whole->Some_0 =~= whole->Some_0);
        }
    }
    while i < count
        invariant
            i <= count <= MAX_REPORT_ARGS,
            p == payload@,
            pos <= payload.len(),
            raws <= MAX_REPORT_RAW_ARGS,
            whole == report_args_at(p, start as int, count as nat),
            whole == args_then(
                args_view(args@.take(i as int)),
                args_at(p, pos as int, (count - i) as nat, raws as nat),
            ),
        decreases count - i,
    {
        let ghost done = args_view(args@.take(i as int));
        let ghost before = args@;
        if pos >= payload.len() {
            return None;
        }
        if payload[pos] == REPORT_ARG_U32 {
            if payload.len() - pos < 5 {
                return None;
            }
            let value: u32 = read_u32(payload, pos + 1);
            args[i] = ReportArgRef::U32(value);
            pos = pos + 5;
        } else if payload[pos] == REPORT_ARG_BYTES {
            if raws == 0 {
                return None;
            }
            if payload.len() - pos < 3 {
                return None;
            }
            let len: usize = read_u16(payload, pos + 1) as usize;
            if len > MAX_REPORT_RAW_BYTES || payload.len() - pos - 3 < len {
                return None;
            }
            args[i] = ReportArgRef::Bytes(slice_subrange(payload, pos + 3, pos + 3 + len));
            pos = pos + 3 + len;
            raws = raws - 1;
        } else {
            return None;
        }
        proof {
            let arg = args@[i as int].view();
            lemma_args_then(
                done,
                arg,
                args_at(p, pos as int, (count - i - 1) as nat, raws as nat),
            );
            assert(args_view(args@.take(i + 1)) =~= done.push(arg));
        }
        i += 1;
    }
    proof {
        let done = args_view(args@.take(count as int));
        assert(done + Seq::<ArgView>::empty() =~= done);
    }
    Some(ReportArgs::new(args, count as u8))
}

/// Reads the bytes behind a two-byte length at position `pos`.
fn read_sized(payload: &[u8], pos: usize) -> (r: Option<&[u8]>)
    requires
        pos <= 5,
    ensures
        (match r {
            Some(b) => Some(b@),
            None => None,
        }) == sized_at(payload@, pos as int),
{
    if payload.len() < pos + 2 {
        return None;
    }
    let len: usize = read_u16(payload, pos) as usize;
    if payload.len() - pos - 2 < len {
        return None;
    }
    Some(slice_subrange(payload, pos + 2, pos + 2 + len))
}

/// Decodes a trace payload. Bytes behind the record are ignored.
pub fn decode_trace(payload: &[u8]) -> (r: Option<TraceRef<'_>>)
    ensures
        trace_view(r) == trace_of(payload@),
        r matches Some(TraceRef::Report { args, .. }) ==> args.count() <= MAX_REPORT_ARGS,
{
    if payload.is_empty() {
        return None;
    }
    let op: u8 = payload[0];
    if op == TRACE_OP_READ || op == TRACE_OP_WRITE {
        match read_sized(payload, 5) {
            Some(data) => {
                let addr: u32 = read_u32(payload, 1);
                if op == TRACE_OP_READ {
                    Some(TraceRef::Read { addr, data })
                } else {
                    Some(TraceRef::Write { addr, data })
                }
            },
            None => None,
        }
    } else if op == TRACE_OP_DELAY {
        if payload.len() < 5 {
            return None;
        }
        let us: u32 = read_u32(payload, 1);
        Some(TraceRef::Delay { us })
    } else if op == TRACE_OP_LOG {
        match read_sized(payload, 1) {
            Some(msg) => Some(TraceRef::Log { msg }),
            None => None,
        }
    } else if op == TRACE_OP_IRQ {
        if payload.len() < 2 {
            return None;
        }
        Some(TraceRef::Irq { pin: payload[1] })
    } else if op == TRACE_OP_REPORT {
        if payload.len() < 6 {
            return None;
        }
        let kind: u32 = read_u32(payload, 1);
        match decode_report_args(payload, 6, payload[5] as usize) {
            Some(args) => Some(TraceRef::Report { meta: None, kind, args }),
            None => None,
        }
    } else if op == TRACE_OP_REPORT_V2 {
        if payload.len() < 19 {
            return None;
        }
        let meta = ReportMeta {
            flags: payload[1],
            frame_id: read_u32(payload, 2),
            timestamp_us: read_u64(payload, 6),
        };
        let kind: u32 = read_u32(payload, 14);
        match decode_report_args(payload, 19, payload[18] as usize) {
            Some(args) => Some(TraceRef::Report { meta: Some(meta), kind, args }),
            None => None,
        }
    } else if op == TRACE_OP_BUS_SELECT {
        if payload.len() < 6 {
            return None;
        }
        match BusKind::from_u8(payload[1]) {
            Some(kind) => {
                let arg: u32 = read_u32(payload, 2);
                Some(TraceRef::BusSelect { kind, arg })
            },
            None => None,
        }
    } else {
        None
    }
}

// ---- control requests and results

/// The payload of a control request.
pub open spec fn control_request_bytes(r: ControlRequestView) -> Seq<u8> {
    match r {
        ControlRequestView::BusRead { request_id, addr, len } => seq![CONTROL_OP_BUS_READ]
            + le::le16(request_id) + le::le32(addr) + le::le16(len),
        ControlRequestView::BusWrite { request_id, addr, data } => seq![CONTROL_OP_BUS_WRITE]
            + le::le16(request_id) + le::le32(addr) + with_len(data),
    }
}

/// The control request that a payload holds.
pub open spec fn control_request_of(p: Seq<u8>) -> Option<ControlRequestView> {
    if p.len() == 0 {
        None
    } else if p[0] == CONTROL_OP_BUS_READ && p.len() == 9 {
        Some(
            ControlRequestView::BusRead {
                request_id: le::at16(p, 1),
                addr: le::at32(p, 3),
                len: le::at16(p, 7),
            },
        )
    } else if p[0] == CONTROL_OP_BUS_WRITE && p.len() >= 9 && le::at16(p, 7)
        <= CONTROL_MAX_WRITE_LEN && p.len() == 9 + le::at16(p, 7) {
        Some(
            ControlRequestView::BusWrite {
                request_id: le::at16(p, 1),
                addr: le::at32(p, 3),
                data: p.skip(9),
            },
        )
    } else {
        None
    }
}

/// The payload of a control result.
pub open spec fn control_result_bytes(r: ControlResultView) -> Seq<u8> {
    match r {
        ControlResultView::BusRead { request_id, status, addr, data } => seq![
            CONTROL_OP_BUS_READ,
        ] + le::le16(request_id) + seq![control_code(status)] + le::le32(addr) + with_len(data),
        ControlResultView::BusWrite { request_id, status, addr, len } => seq![
            CONTROL_OP_BUS_WRITE,
        ] + le::le16(request_id) + seq![control_code(status)] + le::le32(addr) + le::le16(len),
    }
}

/// The control result that a payload holds. Bytes behind the data of a read are
/// ignored.
pub open spec fn control_result_of(p: Seq<u8>) -> Option<ControlResultView> {
    if p.len() < 10 {
        None
    } else {
        match control_status_of(p[3]) {
            None => None,
            Some(status) => {
                let len = le::at16(p, 8);
                if p[0] == CONTROL_OP_BUS_READ && len <= CONTROL_MAX_READ_LEN && 10 + len
                    <= p.len() {
                    Some(
                        ControlResultView::BusRead {
                            request_id: le::at16(p, 1),
                            status,
                            addr: le::at32(p, 4),
                            data: p.subrange(10, 10 + len),
                        },
                    )
                } else if p[0] == CONTROL_OP_BUS_WRITE && p.len() == 10 {
                    Some(
                        ControlResultView::BusWrite {
                            request_id: le::at16(p, 1),
                            status,
                            addr: le::at32(p, 4),
                            len,
                        },
                    )
                } else {
                    None
                }
            },
        }
    }
}

/// Builds a control read request at the front of `out` and returns its length.
pub fn encode_control_bus_read_into(out: &mut [u8], request_id: u16, addr: u32, len: u16) -> (n:
    usize)
    requires
        9 <= old(out).len(),
    ensures
        n == 9,
        final(out)@ == le::spliced(
            old(out)@,
            0,
            control_request_bytes(ControlRequestView::BusRead { request_id, addr, len }),
        ),
{
    out[0] = CONTROL_OP_BUS_READ;
    put_u16(out, 1, request_id);
    put_u32(out, 3, addr);
    put_u16(out, 7, len);
    assert(final(out)@ =~= le::spliced(
        old(out)@,
        0,
        control_request_bytes(ControlRequestView::BusRead { request_id, addr, len }),
    ));
    9
}

/// Builds a control write request at the front of `out` and returns its length.
pub fn encode_control_bus_write_into(
    out: &mut [u8],
    request_id: u16,
    addr: u32,
    data: &[u8],
) -> (n: usize)
    requires
        data.len() <= CONTROL_MAX_WRITE_LEN,
        9 + data.len() <= old(out).len(),
    ensures
        n == 9 + data.len(),
        final(out)@ == le::spliced(
            old(out)@,
            0,
            control_request_bytes(
                ControlRequestView::BusWrite { request_id, addr, data: data@ },
            ),
        ),
{
    out[0] = CONTROL_OP_BUS_WRITE;
    put_u16(out, 1, request_id);
    put_u32(out, 3, addr);
    put_u16(out, 7, data.len() as u16);
    put_bytes(out, 9, data);
    assert(final(out)@ =~= le::spliced(
        old(out)@,
        0,
        control_request_bytes(ControlRequestView::BusWrite { request_id, addr, data: data@ }),
    ));
    9 + data.len()
}

/// Decodes a control request.
pub fn decode_control_request(payload: &[u8]) -> (r: Option<ControlRequestRef<'_>>)
    ensures
        (match r {
            Some(r) => Some(r.view()),
            None => None,
        }) == control_request_of(payload@),
{
    if payload.is_empty() {
        return None;
    }
    if payload[0] == CONTROL_OP_BUS_READ {
        if payload.len() != 9 {
            return None;
        }
        Some(
            ControlRequestRef::BusRead {
                request_id: read_u16(payload, 1),
                addr: read_u32(payload, 3),
                len: read_u16(payload, 7),
            },
        )
    } else if payload[0] == CONTROL_OP_BUS_WRITE {
        if payload.len() < 9 {
            return None;
        }
        let dlen: usize = read_u16(payload, 7) as usize;
        if dlen > CONTROL_MAX_WRITE_LEN || payload.len() != 9 + dlen {
            return None;
        }
        assert(payload@.skip(9) =~= payload@.subrange(9, 9 + dlen));
        Some(
            ControlRequestRef::BusWrite {
                request_id: read_u16(payload, 1),
                addr: read_u32(payload, 3),
                data: slice_subrange(payload, 9, 9 + dlen),
            },
        )
    } else {
        None
    }
}

/// Builds the result of a control read at the front of `out` and returns its length.
pub fn encode_control_bus_read_result_into(
    out: &mut [u8],
    request_id: u16,
    status: ControlStatus,
    addr: u32,
    data: &[u8],
) -> (n: usize)
    requires
        data.len() <= CONTROL_MAX_READ_LEN,
        10 + data.len() <= old(out).len(),
    ensures
        n == 10 + data.len(),
        final(out)@ == le::spliced(
            old(out)@,
            0,
            control_result_bytes(
                ControlResultView::BusRead { request_id, status, addr, data: data@ },
            ),
        ),
{
    out[0] = CONTROL_OP_BUS_READ;
    put_u16(out, 1, request_id);
    out[3] = status.to_u8();
    put_u32(out, 4, addr);
    put_u16(out, 8, data.len() as u16);
    let ghost head = seq![CONTROL_OP_BUS_READ] + le::le16(request_id) + seq![
        control_code(status),
    ] + le::le32(addr) + le::le16(data.len() as u16);
    assert(out@ =~= le::spliced(old(out)@, 0, head));
    put_bytes(out, 10, data);
    proof {
        lemma_splice_twice(old(out)@, 0, head, data@);
        assert(head + data@ =~= control_result_bytes(
            ControlResultView::BusRead { request_id, status, addr, data: data@ },
        ));
    }
    10 + data.len()
}

/// Builds the result of a control write at the front of `out` and returns its length.
pub fn encode_control_bus_write_result_into(
    out: &mut [u8],
    request_id: u16,
    status: ControlStatus,
    addr: u32,
    len: u16,
) -> (n: usize)
    requires
        10 <= old(out).len(),
    ensures
        n == 10,
        final(out)@ == le::spliced(
            old(out)@,
            0,
            control_result_bytes(ControlResultView::BusWrite { request_id, status, addr, len }),
        ),
{
    out[0] = CONTROL_OP_BUS_WRITE;
    put_u16(out, 1, request_id);
    out[3] = status.to_u8();
    put_u32(out, 4, addr);
    put_u16(out, 8, len);
    assert(final(out)@ =~= le::spliced(
        old(out)@,
        0,
        control_result_bytes(ControlResultView::BusWrite { request_id, status, addr, len }),
    ));
    10
}

/// Decodes a control result.
pub fn decode_control_result(payload: &[u8]) -> (r: Option<ControlResultRef<'_>>)
    ensures
        (match r {
            Some(r) => Some(r.view()),
            None => None,
        }) == control_result_of(payload@),
{
    if payload.len() < 10 {
        return None;
    }
    let status = match ControlStatus::from_u8(payload[3]) {
        Some(status) => status,
        None => return None,
    };
    let request_id: u16 = read_u16(payload, 1);
    let addr: u32 = read_u32(payload, 4);
    let len: u16 = read_u16(payload, 8);
    if payload[0] == CONTROL_OP_BUS_READ {
        let dlen: usize = len as usize;
        if dlen > CONTROL_MAX_READ_LEN || payload.len() < 10 + dlen {
            return None;
        }
        Some(
            ControlResultRef::BusRead {
                request_id,
                status,
                addr,
                data: slice_subrange(payload, 10, 10 + dlen),
            },
        )
    } else if payload[0] == CONTROL_OP_BUS_WRITE {
        if payload.len() != 10 {
            return None;
        }
        Some(ControlResultRef::BusWrite { request_id, status, addr, len })
    } else {
        None
    }
}

// ---- execution status

/// How a program run ended.
#[derive(Debug, Clone, Copy, PartialEq, Eq, Structural)]
pub enum ExecStatus {
    Success,
    InvalidOpcode,
    ProgramTooShort,
    InvalidLength,
    DivideByZero,
    BusError,
}

/// The code of an execution status.
pub open spec fn exec_code(s: ExecStatus) -> u8 {
    match s {
        ExecStatus::Success => 0,
        ExecStatus::InvalidOpcode => 1,
        ExecStatus::ProgramTooShort => 2,
        ExecStatus::InvalidLength => 3,
        ExecStatus::DivideByZero => 4,
        ExecStatus::BusError => 5,
    }
}

/// The execution status with the given code.
pub open spec fn exec_status_of(n: u8) -> Option<ExecStatus> {
    match n {
        0 => Some(ExecStatus::Success),
        1 => Some(ExecStatus::InvalidOpcode),
        2 => Some(ExecStatus::ProgramTooShort),
        3 => Some(ExecStatus::InvalidLength),
        4 => Some(ExecStatus::DivideByZero),
        5 => Some(ExecStatus::BusError),
        _ => None,
    }
}

/// A code names an execution status exactly when it is the code of that status.
pub proof fn law_exec_codes(n: u8, s: ExecStatus)
    ensures
        exec_status_of(n) == Some(s) <==> n == exec_code(s),
{
}

impl ExecStatus {
    /// The status with code `n`, if there is one.
    pub fn from_u8(n: u8) -> (s: Option<Self>)
        ensures
            s == exec_status_of(n),
    {
        match n {
            0 => Some(Self::Success),
            1 => Some(Self::InvalidOpcode),
            2 => Some(Self::ProgramTooShort),
            3 => Some(Self::InvalidLength),
            4 => Some(Self::DivideByZero),
            5 => Some(Self::BusError),
            _ => None,
        }
    }

    /// The code of this status.
    pub fn to_u8(self) -> (n: u8)
        ensures
            n == exec_code(self),
    {
        match self {
            Self::Success => 0,
            Self::InvalidOpcode => 1,
            Self::ProgramTooShort => 2,
            Self::InvalidLength => 3,
            Self::DivideByZero => 4,
            Self::BusError => 5,
        }
    }

    /// The status that reports why a program stopped.
    pub fn from_vm_error(e: VmError) -> (s: Self)
        ensures
            s == (match e {
                VmError::InvalidOpcode => Self::InvalidOpcode,
                VmError::ProgramTooShort => Self::ProgramTooShort,
                VmError::InvalidLength => Self::InvalidLength,
                VmError::DivideByZero => Self::DivideByZero,
                VmError::BusError(_) => Self::BusError,
            }),
    {
        match e {
            VmError::InvalidOpcode => Self::InvalidOpcode,
            VmError::ProgramTooShort => Self::ProgramTooShort,
            VmError::InvalidLength => Self::InvalidLength,
            VmError::DivideByZero => Self::DivideByZero,
            VmError::BusError(_) => Self::BusError,
        }
    }
}

// ---- programs to load

/// A segment as a mathematical value: its kind and its bytes.
pub type SegView = (u8, Seq<u8>);

/// The bytes of one segment.
pub open spec fn seg_bytes(seg: SegView) -> Seq<u8> {
    seq![seg.0] + with_len(seg.1)
}

/// The bytes of segments, one after the other.
pub open spec fn segs_bytes(segs: Seq<SegView>) -> Seq<u8>
    decreases segs.len(),
{
    if segs.len() == 0 {
        Seq::empty()
    } else {
        segs_bytes(segs.drop_last()) + seg_bytes(segs.last())
    }
}

/// The load payload that carries the given segments.
pub open spec fn load_bytes(segs: Seq<SegView>) -> Seq<u8> {
    seq![LOAD_VERSION, segs.len() as u8] + segs_bytes(segs)
}

/// What a list of borrowed segments stands for.
pub open spec fn segs_view(segs: Seq<(u8, &[u8])>) -> Seq<SegView> {
    segs.map_values(|s: (u8, &[u8])| (s.0, s.1@))
}

/// The first segment of `rest`, if it is complete.
pub open spec fn first_seg(rest: Seq<u8>) -> Option<SegView> {
    if rest.len() < 3 || rest.len() < 3 + le::at16(rest, 1) {
        None
    } else {
        Some((rest[0], rest.subrange(3, 3 + le::at16(rest, 1))))
    }
}

/// At most `count` segments that `rest` starts with, up to the first incomplete one.
pub open spec fn segs_of(rest: Seq<u8>, count: nat) -> Seq<SegView>
    decreases count,
{
    if count == 0 {
        Seq::empty()
    } else {
        match first_seg(rest) {
            None => Seq::empty(),
            Some(seg) => seq![seg] + segs_of(rest.skip(3 + seg.1.len() as int), (count - 1) as nat),
        }
    }
}

/// Packs a main program into a load payload at the front of `out` and returns
/// the payload's length.
pub fn encode_load_main_into(out: &mut [u8], bytecode: &[u8]) -> (n: usize)
    requires
        5 + bytecode.len() <= old(out).len(),
    ensures
        n == 5 + bytecode.len(),
        final(out)@ == le::spliced(old(out)@, 0, load_bytes(seq![(SEG_KIND_MAIN, bytecode@)])),
{
    out[0] = LOAD_VERSION;
    out[1] = 1;
    out[2] = SEG_KIND_MAIN;
    put_u16(out, 3, (bytecode.len() % 65536) as u16);
    put_bytes(out, 5, bytecode);
    proof {
        let segs: Seq<SegView> = seq![(SEG_KIND_MAIN, bytecode@)];
        assert(segs.drop_last() =~= Seq::<SegView>::empty());
        assert(segs_bytes(segs.drop_last()) =~= Seq::<u8>::empty());
        assert(segs_bytes(segs) =~= seg_bytes(segs[0]));
        assert(out@ =~= le::spliced(old(out)@, 0, load_bytes(segs)));
    }
    5 + bytecode.len()
}

proof fn lemma_segs_take(segs: Seq<(u8, &[u8])>, i: int)
    requires
        0 <= i < segs.len(),
    ensures
        segs_view(segs.take(i + 1)).drop_last() == segs_view(segs.take(i)),
        segs_view(segs.take(i + 1)).last() == (segs[i].0, segs[i].1@),
        segs_view(segs).take(i + 1) == segs_view(segs.take(i + 1)),
{
    assert(segs_view(segs.take(i + 1)).drop_last() =~= segs_view(segs.take(i)));
    assert(segs_view(segs).take(i + 1) =~= segs_view(segs.take(i + 1)));
}

proof fn lemma_segs_bytes_grow(segs: Seq<SegView>, i: int)
    requires
        0 <= i <= segs.len(),
    ensures
        segs_bytes(segs.take(i)).len() <= segs_bytes(segs).len(),
    decreases segs.len() - i,
{
    if i < segs.len() {
        lemma_segs_bytes_grow(segs, i + 1);
        assert(segs.take(i + 1).drop_last() == segs.take(i));
    } else {
        assert(segs.take(i) == segs);
    }
}

/// Packs segments into a load payload at the front of `out` and returns the
/// payload's length.
pub fn encode_load_segments_into(out: &mut [u8], segments: &[(u8, &[u8])]) -> (n: usize)
    requires
        segments.len() <= 255,
        load_bytes(segs_view(segments@)).len() <= old(out).len(),
    ensures
        n == load_bytes(segs_view(segments@)).len(),
        final(out)@ == le::spliced(old(out)@, 0, load_bytes(segs_view(segments@))),
{
    let ghost view = segs_view(segments@);
    let ghost head = seq![LOAD_VERSION, segments.len() as u8];
    out[0] = LOAD_VERSION;
    out[1] = segments.len() as u8;
    assert(segs_view(segments@.take(0)) =~= Seq::<SegView>::empty());
    assert(out@ =~= le::spliced(old(out)@, 0, head + Seq::<u8>::empty()));
    let mut pos: usize = 2;
    let mut i: usize = 0;
    while i < segments.len()
        invariant
            i <= segments.len() <= 255,
            view == segs_view(segments@),
            head == seq![LOAD_VERSION, segments.len() as u8],
            2 + segs_bytes(view).len() <= old(out)@.len(),
            pos == 2 + segs_bytes(segs_view(segments@.take(i as int))).len(),
            out@.len() == old(out)@.len(),
            out@ == le::spliced(
                old(out)@,
                0,
                head + segs_bytes(segs_view(segments@.take(i as int))),
            ),
        decreases segments.len() - i,
    {
        let ghost done = head + segs_bytes(segs_view(segments@.take(i as int)));
        let ghost seg: SegView = (segments@[i as int].0, segments@[i as int].1@);
        proof {
            lemma_segs_take(segments@, i as int);
            lemma_segs_bytes_grow(view, i + 1);
        }
        let kind: u8 = segments[i].0;
        let bytes: &[u8] = segments[i].1;
        let ghost before = out@;
        out[pos] = kind;
        put_u16(out, pos + 1, (bytes.len() % 65536) as u16);
        put_bytes(out, pos + 3, bytes);
        proof {
            assert(out@ =~= le::spliced(before, pos as int, seg_bytes(seg)));
            lemma_splice_twice(old(out)@, 0, done, seg_bytes(seg));
            assert(done + seg_bytes(seg) =~= head + segs_bytes(
                segs_view(segments@.take(i + 1)),
            ));
        }
        pos = pos + 3 + bytes.len();
        i += 1;
    }
    assert(segments@.take(segments@.len() as int) == segments@);
    pos
}

/// The segments of a load payload that are still to be read.
pub struct LoadSegs<'a> {
    rest: &'a [u8],
    remaining: usize,
}

impl<'a> LoadSegs<'a> {
    /// The segments that further calls of `next` will give.
    pub closed spec fn view(&self) -> Seq<SegView> {
        segs_of(self.rest@, self.remaining as nat)
    }

    /// The next segment. There is none after the announced number, nor after an
    /// incomplete one.
    pub fn next(&mut self) -> (seg: Option<(u8, &'a [u8])>)
        ensures
            match seg {
                Some(seg) => old(self)@.len() > 0 && (seg.0, seg.1@) == old(self)@[0]
                    && final(self)@ == old(self)@.skip(1),
                None => old(self)@.len() == 0 && final(self)@.len() == 0,
            },
    {
        if self.remaining == 0 {
            return None;
        }
        if self.rest.len() < 3 {
            return None;
        }
        let kind: u8 = self.rest[0];
        let len: usize = read_u16(self.rest, 1) as usize;
        if self.rest.len() - 3 < len {
            return None;
        }
        let bytes = slice_subrange(self.rest, 3, 3 + len);
        let ghost before = self.rest@;
        self.rest = slice_subrange(self.rest, 3 + len, self.rest.len());
        assert(self.rest@ =~= before.skip(3 + len));
        self.remaining = self.remaining - 1;
        assert(final(self)@ =~= old(self)@.skip(1));
        Some((kind, bytes))
    }
}

/// Whether a load payload has a version, a number of segments, and that many segments in full.
pub open spec fn load_complete(p: Seq<u8>) -> bool {
    p.len() >= 2 && segs_of(p.skip(2), p[1] as nat).len() == p[1]
}

/// Opens a load payload: its version and its segments. There are none where one of the announced
/// segments is missing or incomplete.
pub fn load_segments(payload: &[u8]) -> (r: Option<(u8, LoadSegs<'_>)>)
    ensures
        match r {
            Some(r) => load_complete(payload@) && r.0 == payload@[0] && r.1@ == segs_of(
                payload@.skip(2),
                payload@[1] as nat,
            ),
            None => !load_complete(payload@),
        },
{
    if payload.len() < 2 {
        return None;
    }
    let rest = slice_subrange(payload, 2, payload.len());
    assert(rest@ =~= payload@.skip(2));
    let count: usize = payload[1] as usize;
    let mut probe = LoadSegs { rest, remaining: count };
    let mut found: usize = 0;
    while found < count
        invariant
            payload@.len() >= 2,
            count == payload@[1],
            found <= count,
            segs_of(payload@.skip(2), count as nat).len() == found + probe@.len(),
        decreases count - found,
    {
        if probe.next().is_none() {
            return None;
        }
        found += 1;
    }
    proof {
        lemma_segs_of_len(payload@.skip(2), count as nat);
    }
    Some((payload[0], LoadSegs { rest, remaining: count }))
}

proof fn lemma_segs_of_len(rest: Seq<u8>, n: nat)
    ensures
        segs_of(rest, n).len() <= n,
    decreases n,
{
    if n > 0 {
        match first_seg(rest) {
            Some(seg) => {
                lemma_segs_of_len(rest.skip(3 + seg.1.len() as int), (n - 1) as nat);
            },
            None => {},
        }
    }
}

} // verus!
