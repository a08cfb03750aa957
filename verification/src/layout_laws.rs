//! How frames, payloads and capture files are laid out, byte by byte.

use vstd::prelude::*;

use crate::bus;
use crate::bus::BusKind;
use crate::capture;
use crate::capture::{CaptureErrorView, RecordView};
use crate::crc32;
use crate::frame;
use crate::frame::FrameType;
use crate::le;
use crate::text;
use crate::wire;
use crate::wire::{
    ArgView, ControlRequestView, ControlResultView, ControlStatus, ExecStatus, ReportMeta, SegView,
    TraceView,
};
use crate::wire_laws;

verus! {

// ---- numbers

/// The number that bytes stand for, the least significant one first.
pub open spec fn number(b: Seq<u8>) -> int
    decreases b.len(),
{
    if b.len() == 0 {
        0
    } else {
        b[0] + 256 * number(b.skip(1))
    }
}

proof fn lemma_number2(b: Seq<u8>)
    requires
        b.len() == 2,
    ensures
        number(b) == b[0] + 256 * b[1],
{
    reveal_with_fuel(number, 3);
}

proof fn lemma_number4(b: Seq<u8>)
    requires
        b.len() == 4,
    ensures
        number(b) == b[0] + 256 * b[1] + 65536 * b[2] + 16777216 * b[3],
{
    reveal_with_fuel(number, 5);
}

proof fn lemma_number8(b: Seq<u8>)
    requires
        b.len() == 8,
    ensures
        number(b) == number(b.take(4)) + 4294967296 * number(b.skip(4)),
{
    lemma_number4(b.take(4));
    let b1 = b.skip(1);
    let b2 = b1.skip(1);
    let b3 = b2.skip(1);
    assert(b3.skip(1) =~= b.skip(4));
    assert(number(b) == b[0] + 256 * number(b1));
    assert(number(b1) == b[1] + 256 * number(b2));
    assert(number(b2) == b[2] + 256 * number(b3));
    assert(number(b3) == b[3] + 256 * number(b.skip(4)));
}

proof fn lemma_le16(a: u16)
    ensures
        le::le16(a).len() == 2 && number(le::le16(a)) == a,
{
    lemma_number2(le::le16(a));
}

proof fn lemma_le32(b: u32)
    ensures
        le::le32(b).len() == 4 && number(le::le32(b)) == b,
{
    lemma_number4(le::le32(b));
}

proof fn lemma_le64(c: u64)
    ensures
        le::le64(c).len() == 8 && number(le::le64(c)) == c,
{
    let low = (c % 4294967296) as u32;
    let high = (c / 4294967296) as u32;
    lemma_le32(low);
    lemma_le32(high);
    let (a, b) = (le::le32(low), le::le32(high));
    assert((a + b).take(4) =~= a);
    assert((a + b).skip(4) =~= b);
    lemma_number8(a + b);
}

/// Numbers are written with the least significant byte first, in as many bytes as their type has.
pub proof fn law_number_bytes(a: u16, b: u32, c: u64)
    ensures
        le::le16(a).len() == 2 && number(le::le16(a)) == a,
        le::le32(b).len() == 4 && number(le::le32(b)) == b,
        le::le64(c).len() == 8 && number(le::le64(c)) == c,
{
    lemma_le16(a);
    lemma_le32(b);
    lemma_le64(c);
}

/// Numbers are read from bytes with the least significant one first.
pub proof fn law_read_number(s: Seq<u8>, at: int)
    requires
        0 <= at,
    ensures
        at + 2 <= s.len() ==> le::at16(s, at) == number(s.subrange(at, at + 2)),
        at + 4 <= s.len() ==> le::at32(s, at) == number(s.subrange(at, at + 4)),
        at + 8 <= s.len() ==> le::at64(s, at) == number(s.subrange(at, at + 8)),
{
    if at + 2 <= s.len() {
        lemma_number2(s.subrange(at, at + 2));
    }
    if at + 4 <= s.len() {
        lemma_number4(s.subrange(at, at + 4));
    }
    if at + 8 <= s.len() {
        let b = s.subrange(at, at + 8);
        lemma_number8(b);
        assert(b.take(4) =~= s.subrange(at, at + 4));
        assert(b.skip(4) =~= s.subrange(at + 4, at + 8));
        lemma_number4(b.take(4));
        lemma_number4(b.skip(4));
    }
}

proof fn lemma_back16(p: Seq<u8>, at: int)
    requires
        0 <= at,
        at + 2 <= p.len(),
    ensures
        le::le16(le::at16(p, at)) == p.subrange(at, at + 2),
{
    assert(le::le16(le::at16(p, at)) =~= p.subrange(at, at + 2));
}

proof fn lemma_back64(p: Seq<u8>, at: int)
    requires
        0 <= at,
        at + 8 <= p.len(),
    ensures
        le::le64(le::at64(p, at)) == p.subrange(at, at + 8),
{
    le::law_le32_of_at32(p, at);
    le::law_le32_of_at32(p, at + 4);
    let low = le::at32(p, at);
    let high = le::at32(p, at + 4);
    let v = low + 4294967296 * high;
    assert(v % 4294967296 == low && v / 4294967296 == high);
    assert(p.subrange(at, at + 4) + p.subrange(at + 4, at + 8) =~= p.subrange(at, at + 8));
}

// ---- codes

/// The numbers that stand for frame types, bus kinds and statuses on the line.
pub proof fn law_codes()
    ensures
        frame::frame_code(FrameType::Load) == 0x01,
        frame::frame_code(FrameType::Exec) == 0x02,
        frame::frame_code(FrameType::Reset) == 0x03,
        frame::frame_code(FrameType::Ping) == 0x04,
        frame::frame_code(FrameType::Ack) == 0x81,
        frame::frame_code(FrameType::Trace) == 0x82,
        frame::frame_code(FrameType::Result) == 0x83,
        frame::frame_code(FrameType::Pong) == 0x84,
        bus::bus_kind_code(BusKind::Spi) == 0,
        bus::bus_kind_code(BusKind::I2c) == 1,
        bus::bus_kind_code(BusKind::I3c) == 2,
        wire::control_code(ControlStatus::Success) == 0,
        wire::control_code(ControlStatus::InvalidPayload) == 1,
        wire::control_code(ControlStatus::Unsupported) == 2,
        wire::control_code(ControlStatus::InvalidAddress) == 3,
        wire::control_code(ControlStatus::AccessSizeMismatch) == 4,
        wire::control_code(ControlStatus::Timeout) == 5,
        wire::control_code(ControlStatus::HardwareFailure) == 6,
        wire::exec_code(ExecStatus::Success) == 0,
        wire::exec_code(ExecStatus::InvalidOpcode) == 1,
        wire::exec_code(ExecStatus::ProgramTooShort) == 2,
        wire::exec_code(ExecStatus::InvalidLength) == 3,
        wire::exec_code(ExecStatus::DivideByZero) == 4,
        wire::exec_code(ExecStatus::BusError) == 5,
{
}

// ---- frames

/// One step of the division: the lowest bit leaves, and where it was set the polynomial is taken
/// off.
pub open spec fn divided(c: u32) -> u32 {
    if c & 1 == 1 {
        (c >> 1) ^ 0xEDB8_8320
    } else {
        c >> 1
    }
}

/// The checksum of nothing is zero, and one more byte is eight steps of the division.
pub proof fn law_checksum(data: Seq<u8>, byte: u8)
    ensures
        crc32::crc32_spec(Seq::empty()) == 0,
        !crc32::crc32_spec(data.push(byte)) == divided(
            divided(
                divided(
                    divided(
                        divided(
                            divided(divided(divided(!crc32::crc32_spec(data) ^ (byte as u32)))),
                        ),
                    ),
                ),
            ),
        ),
{
    assert(!0xFFFF_FFFFu32 == 0) by (bit_vector);
    assert(data.push(byte).drop_last() =~= data);
    let a = crc32::crc_update(0xFFFF_FFFF, data);
    let b = crc32::crc_update(0xFFFF_FFFF, data.push(byte));
    assert(!(!a) == a) by (bit_vector);
    assert(!(!b) == b) by (bit_vector);
    reveal_with_fuel(crc32::crc_bits, 9);
}

/// A frame: two sync bytes, the type, the length of the payload, the payload, and the checksum of
/// what stands between the sync bytes and it.
#[verifier::rlimit(90)]
pub proof fn law_frame_layout(ty: FrameType, payload: Seq<u8>)
    requires
        payload.len() < 65536,
    ensures
        ({
            let f = frame::frame_bytes(ty, payload);
            let n = payload.len() as int;
            &&& f.len() == 9 + n
            &&& f[0] == 0x55
            &&& f[1] == 0xAA
            &&& f[2] == frame::frame_code(ty)
            &&& number(f.subrange(3, 5)) == n
            &&& f.subrange(5, 5 + n) == payload
            &&& number(f.subrange(5 + n, 9 + n)) == crc32::crc32_spec(f.subrange(2, 5 + n))
        }),
{
    let n = payload.len() as int;
    let size = le::le16((payload.len() % 65536) as u16);
    let code = frame::frame_code(ty);
    let body = seq![code] + size + payload;
    let crc = le::le32(crc32::crc32_spec(body));
    lemma_le16(n as u16);
    lemma_le32(crc32::crc32_spec(body));
    lemma_frame_parts(code, size, payload, crc);
    assert(frame::frame_bytes(ty, payload) == seq![0x55u8, 0xAAu8] + body + crc);
}

proof fn lemma_frame_parts(code: u8, size: Seq<u8>, payload: Seq<u8>, crc: Seq<u8>)
    requires
        size.len() == 2,
        crc.len() == 4,
    ensures
        ({
            let body = seq![code] + size + payload;
            let f = seq![0x55u8, 0xAAu8] + body + crc;
            let n = payload.len() as int;
            &&& f.len() == 9 + n
            &&& f[0] == 0x55 && f[1] == 0xAA && f[2] == code
            &&& f.subrange(3, 5) == size
            &&& f.subrange(5, 5 + n) == payload
            &&& f.subrange(2, 5 + n) == body
            &&& f.subrange(5 + n, 9 + n) == crc
        }),
{
    let body = seq![code] + size + payload;
    let f = seq![0x55u8, 0xAAu8] + body + crc;
    let n = payload.len() as int;
    assert(f.subrange(3, 5) =~= size);
    assert(f.subrange(5, 5 + n) =~= payload);
    assert(f.subrange(2, 5 + n) =~= body);
    assert(f.subrange(5 + n, 9 + n) =~= crc);
}

// ---- trace records

/// Bytes behind their length in two bytes.
pub open spec fn sized(p: Seq<u8>, at: int, data: Seq<u8>) -> bool {
    &&& p.len() == at + 2 + data.len()
    &&& number(p.subrange(at, at + 2)) == data.len()
    &&& p.skip(at + 2) == data
}

proof fn lemma_sized(head: Seq<u8>, data: Seq<u8>)
    requires
        data.len() < 65536,
    ensures
        sized(head + wire::with_len(data), head.len() as int, data),
{
    let p = head + wire::with_len(data);
    let at = head.len() as int;
    law_number_bytes(data.len() as u16, 0, 0);
    assert(p.subrange(at, at + 2) =~= le::le16(data.len() as u16));
    assert(p.skip(at + 2) =~= data);
}

/// The payloads of trace records other than reports: a number that tells the record, and its
/// quantities in their order.
pub proof fn law_trace_layout(addr: u32, data: Seq<u8>, us: u32, pin: u8, kind: BusKind)
    requires
        data.len() < 65536,
    ensures
        ({
            let read = wire::trace_payload(TraceView::Read { addr, data });
            let write = wire::trace_payload(TraceView::Write { addr, data });
            let delay = wire::trace_payload(TraceView::Delay { us });
            let log = wire::trace_payload(TraceView::Log { msg: data });
            let irq = wire::trace_payload(TraceView::Irq { pin });
            let select = wire::trace_payload(TraceView::BusSelect { kind, arg: us });
            &&& read[0] == 1 && number(read.subrange(1, 5)) == addr && sized(read, 5, data)
            &&& write[0] == 2 && number(write.subrange(1, 5)) == addr && sized(write, 5, data)
            &&& delay.len() == 5 && delay[0] == 3 && number(delay.subrange(1, 5)) == us
            &&& log[0] == 4 && sized(log, 1, data)
            &&& irq == seq![5u8, pin]
            &&& select.len() == 6 && select[0] == 8 && select[1] == bus::bus_kind_code(kind)
                && number(select.subrange(2, 6)) == us
        }),
{
    law_number_bytes(0, addr, 0);
    law_number_bytes(0, us, 0);
    let read = wire::trace_payload(TraceView::Read { addr, data });
    let write = wire::trace_payload(TraceView::Write { addr, data });
    lemma_sized(seq![1u8] + le::le32(addr), data);
    lemma_sized(seq![2u8] + le::le32(addr), data);
    lemma_sized(seq![4u8], data);
    assert(read.subrange(1, 5) =~= le::le32(addr));
    assert(write.subrange(1, 5) =~= le::le32(addr));
    assert(wire::trace_payload(TraceView::Delay { us }).subrange(1, 5) =~= le::le32(us));
    assert(wire::trace_payload(TraceView::BusSelect { kind, arg: us }).subrange(2, 6) =~= le::le32(
        us,
    ));
}

/// The payload of a report: its number, the metadata where there is any, the kind, how many
/// arguments follow, and the arguments.
pub proof fn law_report_layout(m: ReportMeta, kind: u32, args: Seq<ArgView>)
    requires
        args.len() < 256,
    ensures
        ({
            let plain = wire::trace_payload(TraceView::Report { meta: None, kind, args });
            let full = wire::trace_payload(TraceView::Report { meta: Some(m), kind, args });
            &&& plain[0] == 6
            &&& number(plain.subrange(1, 5)) == kind
            &&& plain[5] == args.len()
            &&& plain.skip(6) == wire::args_bytes(args)
            &&& full[0] == 7
            &&& full[1] == m.flags
            &&& number(full.subrange(2, 6)) == m.frame_id
            &&& number(full.subrange(6, 14)) == m.timestamp_us
            &&& number(full.subrange(14, 18)) == kind
            &&& full[18] == args.len()
            &&& full.skip(19) == wire::args_bytes(args)
        }),
{
    let plain = wire::trace_payload(TraceView::Report { meta: None, kind, args });
    let full = wire::trace_payload(TraceView::Report { meta: Some(m), kind, args });
    law_number_bytes(0, kind, 0);
    law_number_bytes(0, m.frame_id, m.timestamp_us);
    assert(plain.subrange(1, 5) =~= le::le32(kind));
    assert(plain.skip(6) =~= wire::args_bytes(args));
    assert(full.subrange(2, 6) =~= le::le32(m.frame_id));
    assert(full.subrange(6, 14) =~= le::le64(m.timestamp_us));
    assert(full.subrange(14, 18) =~= le::le32(kind));
    assert(full.skip(19) =~= wire::args_bytes(args));
}

/// The arguments of a report follow one another: a number behind a one, bytes behind a two and their
/// length.
pub proof fn law_argument_layout(args: Seq<ArgView>, v: u32, data: Seq<u8>)
    requires
        data.len() < 65536,
    ensures
        wire::args_bytes(Seq::empty()).len() == 0,
        ({
            let before = wire::args_bytes(args);
            let n = before.len() as int;
            let one = wire::args_bytes(args.push(ArgView::U32(v)));
            let more = wire::args_bytes(args.push(ArgView::Bytes(data)));
            &&& one.len() == n + 5 && one.take(n) == before && one[n] == 1
            &&& number(one.subrange(n + 1, n + 5)) == v
            &&& more.take(n) == before && more[n] == 2 && sized(more, n + 1, data)
        }),
{
    let before = wire::args_bytes(args);
    let n = before.len() as int;
    assert(args.push(ArgView::U32(v)).drop_last() =~= args);
    assert(args.push(ArgView::Bytes(data)).drop_last() =~= args);
    let one = wire::args_bytes(args.push(ArgView::U32(v)));
    let more = wire::args_bytes(args.push(ArgView::Bytes(data)));
    law_number_bytes(0, v, 0);
    assert(one.subrange(n + 1, n + 5) =~= le::le32(v));
    assert(one.take(n) =~= before);
    assert(more.take(n) =~= before);
    lemma_sized(before + seq![2u8], data);
    assert(more =~= before + seq![2u8] + wire::with_len(data));
}

// ---- control and load

/// The payloads of control requests and results.
pub proof fn law_control_layout(
    id: u16,
    addr: u32,
    len: u16,
    data: Seq<u8>,
    status: ControlStatus,
)
    requires
        data.len() < 65536,
    ensures
        ({
            let read = wire::control_request_bytes(
                ControlRequestView::BusRead { request_id: id, addr, len },
            );
            let write = wire::control_request_bytes(
                ControlRequestView::BusWrite { request_id: id, addr, data },
            );
            let got = wire::control_result_bytes(
                ControlResultView::BusRead { request_id: id, status, addr, data },
            );
            let put = wire::control_result_bytes(
                ControlResultView::BusWrite { request_id: id, status, addr, len },
            );
            &&& read.len() == 9 && read[0] == 1
            &&& number(read.subrange(1, 3)) == id && number(read.subrange(3, 7)) == addr
            &&& number(read.subrange(7, 9)) == len
            &&& write[0] == 2
            &&& number(write.subrange(1, 3)) == id && number(write.subrange(3, 7)) == addr
            &&& sized(write, 7, data)
            &&& got[0] == 1
            &&& number(got.subrange(1, 3)) == id && got[3] == wire::control_code(status)
            &&& number(got.subrange(4, 8)) == addr && sized(got, 8, data)
            &&& put.len() == 10 && put[0] == 2
            &&& number(put.subrange(1, 3)) == id && put[3] == wire::control_code(status)
            &&& number(put.subrange(4, 8)) == addr && number(put.subrange(8, 10)) == len
        }),
{
    law_number_bytes(id, addr, 0);
    law_number_bytes(len, 0, 0);
    let read = wire::control_request_bytes(
        ControlRequestView::BusRead { request_id: id, addr, len },
    );
    let write = wire::control_request_bytes(
        ControlRequestView::BusWrite { request_id: id, addr, data },
    );
    let got = wire::control_result_bytes(
        ControlResultView::BusRead { request_id: id, status, addr, data },
    );
    let put = wire::control_result_bytes(
        ControlResultView::BusWrite { request_id: id, status, addr, len },
    );
    assert(read.subrange(1, 3) =~= le::le16(id));
    assert(read.subrange(3, 7) =~= le::le32(addr));
    assert(read.subrange(7, 9) =~= le::le16(len));
    assert(write.subrange(1, 3) =~= le::le16(id));
    assert(write.subrange(3, 7) =~= le::le32(addr));
    lemma_sized(seq![2u8] + le::le16(id) + le::le32(addr), data);
    assert(got.subrange(1, 3) =~= le::le16(id));
    assert(got.subrange(4, 8) =~= le::le32(addr));
    lemma_sized(
        seq![1u8] + le::le16(id) + seq![wire::control_code(status)] + le::le32(addr),
        data,
    );
    assert(put.subrange(1, 3) =~= le::le16(id));
    assert(put.subrange(4, 8) =~= le::le32(addr));
    assert(put.subrange(8, 10) =~= le::le16(len));
}

/// A load payload: the version, how many segments follow, and for each its kind and its bytes behind
/// their length.
pub proof fn law_load_layout(segs: Seq<SegView>, kind: u8, data: Seq<u8>)
    requires
        segs.len() < 255,
        data.len() < 65536,
    ensures
        ({
            let before = wire::load_bytes(segs);
            let after = wire::load_bytes(segs.push((kind, data)));
            let n = before.len() as int;
            &&& before[0] == 1 && before[1] == segs.len()
            &&& after[0] == 1 && after[1] == segs.len() + 1
            &&& after.subrange(2, n) == before.skip(2)
            &&& after[n] == kind
            &&& sized(after, n + 1, data)
        }),
        wire::load_bytes(Seq::empty()) == seq![1u8, 0u8],
{
    let all = segs.push((kind, data));
    assert(all.drop_last() =~= segs);
    let before = wire::load_bytes(segs);
    let after = wire::load_bytes(all);
    let n = before.len() as int;
    let head = seq![1u8, all.len() as u8] + wire::segs_bytes(segs) + seq![kind];
    lemma_sized(head, data);
    assert(after =~= head + wire::with_len(data));
    assert(after.subrange(2, n) =~= before.skip(2));
    assert(wire::load_bytes(Seq::empty()) =~= seq![1u8, 0u8]);
}

/// A control request is read from exactly the bytes that tell it, and writes of more bytes than one
/// request can carry are refused.
pub proof fn law_control_request_is_whole(p: Seq<u8>)
    ensures
        wire::control_request_of(p) matches Some(r) ==> {
            &&& wire::control_request_bytes(r) == p
            &&& r matches ControlRequestView::BusWrite { data, .. } ==> data.len() <= 64
        },
{
    if wire::control_request_of(p) is Some {
        lemma_back16(p, 1);
        le::law_le32_of_at32(p, 3);
        lemma_back16(p, 7);
        assert(wire::control_request_bytes(wire::control_request_of(p)->Some_0) =~= p);
    }
}

/// A control result is read from the bytes that tell it at the front of the payload; that of a write
/// is the whole payload.
pub proof fn law_control_result_is_in_front(p: Seq<u8>)
    ensures
        wire::control_result_of(p) matches Some(r) ==> {
            let b = wire::control_result_bytes(r);
            &&& b.len() <= p.len() && p.take(b.len() as int) == b
            &&& r is BusWrite ==> b == p
            &&& r matches ControlResultView::BusRead { data, .. } ==> data.len() <= 64
        },
{
    if wire::control_result_of(p) is Some {
        let r = wire::control_result_of(p)->Some_0;
        lemma_back16(p, 1);
        le::law_le32_of_at32(p, 4);
        lemma_back16(p, 8);
        let b = wire::control_result_bytes(r);
        let status = wire::control_status_of(p[3])->Some_0;
        wire::law_control_codes(p[3], status);
        assert(p.take(b.len() as int) =~= b);
    }
}

proof fn lemma_args_sound(p: Seq<u8>, pos: int, count: nat, raws: nat)
    requires
        0 <= pos <= p.len(),
    ensures
        wire::args_at(p, pos, count, raws) matches Some(args) ==> {
            let b = wire::args_bytes(args);
            &&& args.len() == count
            &&& wire::raw_count(args) <= raws
            &&& pos + b.len() <= p.len() && p.subrange(pos, pos + b.len() as int) == b
            &&& forall|i: int|
                0 <= i < args.len() ==> (#[trigger] args[i] matches ArgView::Bytes(d) ==> d.len()
                    <= 4096)
        },
    decreases count,
{
    if wire::args_at(p, pos, count, raws) is Some {
        let args = wire::args_at(p, pos, count, raws)->Some_0;
        if count == 0 {
            assert(p.subrange(pos, pos) =~= wire::args_bytes(args));
        } else {
            let less = (count - 1) as nat;
            let size: int = if p[pos] == 1 {
                5
            } else {
                3 + le::at16(p, pos + 1)
            };
            let next = pos + size;
            let raws2 = if p[pos] == 1 {
                raws
            } else {
                (raws - 1) as nat
            };
            lemma_args_sound(p, next, less, raws2);
            let rest = wire::args_at(p, next, less, raws2)->Some_0;
            assert(args.skip(1) =~= rest);
            wire_laws::lemma_args_bytes_front(args);
            let b = wire::args_bytes(args);
            let c = wire::args_bytes(rest);
            if p[pos] == 1 {
                le::law_le32_of_at32(p, pos + 1);
            } else {
                lemma_back16(p, pos + 1);
            }
            assert(p.subrange(pos, next) =~= wire::arg_bytes(args[0]));
            assert(p.subrange(pos, pos + b.len() as int) =~= p.subrange(pos, next) + p.subrange(
                next,
                next + c.len() as int,
            ));
            assert forall|i: int| 0 <= i < args.len() implies (
            #[trigger] args[i] matches ArgView::Bytes(d) ==> d.len() <= 4096) by {
                if i > 0 {
                    assert(args[i] == rest[i - 1]);
                }
            }
        }
    }
}

/// A trace record is read from the bytes that tell it at the front of the payload, and nothing is
/// read from a payload without such bytes: at most eight arguments, one of them bytes, and of those
/// at most so many.
pub proof fn law_trace_is_in_front(p: Seq<u8>)
    ensures
        wire::trace_of(p) matches Some(t) ==> {
            let b = wire::trace_payload(t);
            &&& b.len() <= p.len() && p.take(b.len() as int) == b
            &&& t matches TraceView::Report { args, .. } ==> {
                &&& args.len() <= 8
                &&& wire::raw_count(args) <= 1
                &&& forall|i: int|
                    0 <= i < args.len() ==> (#[trigger] args[i] matches ArgView::Bytes(d)
                        ==> d.len() <= 4096)
            }
        },
{
    if wire::trace_of(p) is Some {
        if p[0] == 6 {
            lemma_plain_report_in_front(p);
        } else if p[0] == 7 {
            lemma_full_report_in_front(p);
        } else {
            lemma_short_trace_in_front(p);
        }
    }
}

proof fn lemma_short_trace_in_front(p: Seq<u8>)
    requires
        wire::trace_of(p) is Some,
        p[0] != 6,
        p[0] != 7,
    ensures
        ({
            let b = wire::trace_payload(wire::trace_of(p)->Some_0);
            b.len() <= p.len() && p.take(b.len() as int) == b
        }),
        !(wire::trace_of(p)->Some_0 is Report),
{
    if p[0] == 1 || p[0] == 2 {
        lemma_access_in_front(p);
    } else if p[0] == 4 {
        lemma_log_in_front(p);
    } else if p[0] == 3 {
        le::law_le32_of_at32(p, 1);
        assert(p.take(5) =~= seq![p[0]] + p.subrange(1, 5));
    } else if p[0] == 5 {
        assert(p.take(2) =~= seq![p[0], p[1]]);
    } else {
        le::law_le32_of_at32(p, 2);
        bus::law_bus_kind_codes(p[1], bus::bus_kind_of(p[1])->Some_0);
        assert(p.take(6) =~= seq![p[0], p[1]] + p.subrange(2, 6));
    }
}

proof fn lemma_access_in_front(p: Seq<u8>)
    requires
        wire::trace_of(p) is Some,
        p[0] == 1 || p[0] == 2,
    ensures
        ({
            let b = wire::trace_payload(wire::trace_of(p)->Some_0);
            b.len() <= p.len() && p.take(b.len() as int) == b
        }),
        !(wire::trace_of(p)->Some_0 is Report),
{
    le::law_le32_of_at32(p, 1);
    lemma_back16(p, 5);
    let len = le::at16(p, 5) as int;
    let data = p.subrange(7, 7 + len);
    assert(data.len() % 65536 == len);
    assert(p.take(7 + len) =~= seq![p[0]] + p.subrange(1, 5) + (p.subrange(5, 7) + data));
    assert(wire::rw_payload(p[0], le::at32(p, 1), data) == p.take(7 + len));
}

proof fn lemma_log_in_front(p: Seq<u8>)
    requires
        wire::trace_of(p) is Some,
        p[0] == 4,
    ensures
        ({
            let b = wire::trace_payload(wire::trace_of(p)->Some_0);
            b.len() <= p.len() && p.take(b.len() as int) == b
        }),
        !(wire::trace_of(p)->Some_0 is Report),
{
    lemma_back16(p, 1);
    let len = le::at16(p, 1) as int;
    let data = p.subrange(3, 3 + len);
    assert(data.len() % 65536 == len);
    assert(p.take(3 + len) =~= seq![p[0]] + (p.subrange(1, 3) + data));
    assert(seq![p[0]] + wire::with_len(data) == p.take(3 + len));
}

proof fn lemma_plain_report_in_front(p: Seq<u8>)
    requires
        wire::trace_of(p) is Some,
        p[0] == 6,
    ensures
        ({
            let t = wire::trace_of(p)->Some_0;
            let b = wire::trace_payload(t);
            &&& b.len() <= p.len() && p.take(b.len() as int) == b
            &&& t matches TraceView::Report { args, .. } && args.len() <= 8 && wire::raw_count(args)
                <= 1 && forall|i: int|
                0 <= i < args.len() ==> (#[trigger] args[i] matches ArgView::Bytes(d) ==> d.len()
                    <= 4096)
        }),
{
    le::law_le32_of_at32(p, 1);
    lemma_args_sound(p, 6, p[5] as nat, 1);
    let args = wire::report_args_at(p, 6, p[5] as nat)->Some_0;
    let n = wire::args_bytes(args).len() as int;
    assert(p.take(6 + n) =~= seq![p[0]] + p.subrange(1, 5) + seq![p[5]] + p.subrange(6, 6 + n));
}

proof fn lemma_full_report_in_front(p: Seq<u8>)
    requires
        wire::trace_of(p) is Some,
        p[0] == 7,
    ensures
        ({
            let t = wire::trace_of(p)->Some_0;
            let b = wire::trace_payload(t);
            &&& b.len() <= p.len() && p.take(b.len() as int) == b
            &&& t matches TraceView::Report { args, .. } && args.len() <= 8 && wire::raw_count(args)
                <= 1 && forall|i: int|
                0 <= i < args.len() ==> (#[trigger] args[i] matches ArgView::Bytes(d) ==> d.len()
                    <= 4096)
        }),
{
    le::law_le32_of_at32(p, 2);
    lemma_back64(p, 6);
    le::law_le32_of_at32(p, 14);
    lemma_args_sound(p, 19, p[18] as nat, 1);
    let args = wire::report_args_at(p, 19, p[18] as nat)->Some_0;
    let n = wire::args_bytes(args).len() as int;
    assert(p.take(19 + n) =~= seq![p[0]] + (seq![p[1]] + p.subrange(2, 6) + p.subrange(6, 14))
        + p.subrange(14, 18) + seq![p[18]] + p.subrange(19, 19 + n));
}

// ---- capture files

/// What a capture file begins with, and what each record adds to it: its length in four bytes and
/// its bytes.
#[verifier::rlimit(90)]
pub proof fn law_capture_layout(records: Seq<RecordView>, r: RecordView)
    requires
        capture::capture_encoded(records) is Ok,
        capture::encoded(r) is Ok,
        capture::encoded(r)->Ok_0.len() <= u32::MAX,
    ensures
        capture::capture_encoded(Seq::empty()) == Ok::<Seq<u8>, Seq<char>>(
            seq![0x52u8, 0x53, 0x45, 0x51, 0x43, 0x41, 0x50, 0x31, 0x0a],
        ),
        capture::capture_encoded(records.push(r)) is Ok,
        ({
            let before = capture::capture_encoded(records)->Ok_0;
            let after = capture::capture_encoded(records.push(r))->Ok_0;
            let record = capture::encoded(r)->Ok_0;
            let n = before.len() as int;
            &&& after.len() == n + 4 + record.len()
            &&& after.take(n) == before
            &&& number(after.subrange(n, n + 4)) == record.len()
            &&& after.skip(n + 4) == record
        }),
{
    assert(records.push(r).drop_last() =~= records);
    let before = capture::capture_encoded(records)->Ok_0;
    let record = capture::encoded(r)->Ok_0;
    let size = le::le32((record.len() % 0x1_0000_0000) as u32);
    lemma_le32(record.len() as u32);
    lemma_joined_record(before, size, record);
}

proof fn lemma_joined_record(before: Seq<u8>, size: Seq<u8>, record: Seq<u8>)
    requires
        size.len() == 4,
    ensures
        ({
            let after = before + (size + record);
            let n = before.len() as int;
            &&& after.len() == n + 4 + record.len()
            &&& after.take(n) == before
            &&& after.subrange(n, n + 4) == size
            &&& after.skip(n + 4) == record
        }),
{
    let after = before + (size + record);
    let n = before.len() as int;
    assert(after.take(n) =~= before);
    assert(after.subrange(n, n + 4) =~= size);
    assert(after.skip(n + 4) =~= record);
}

/// A record of a capture file: the kind, whether there is metadata, the metadata or zeros, how many
/// arguments follow, and the arguments.
pub proof fn law_record_layout(r: RecordView)
    requires
        capture::encoded(r) is Ok,
    ensures
        ({
            let p = capture::encoded(r)->Ok_0;
            &&& p.len() >= 19
            &&& number(p.subrange(0, 4)) == r.kind
            &&& r.meta is None ==> p[4] == 0 && p.subrange(5, 18) == Seq::new(13, |i: int| 0u8)
            &&& r.meta matches Some(m) ==> {
                &&& p[4] == 1
                &&& p[5] == m.flags
                &&& number(p.subrange(6, 10)) == m.frame_id
                &&& number(p.subrange(10, 18)) == m.timestamp_us
            }
            &&& p[18] == r.args.len()
            &&& p.skip(19) == capture::record_args_bytes(r.args)
        }),
{
    let p = capture::encoded(r)->Ok_0;
    law_number_bytes(0, r.kind, 0);
    assert(p.subrange(0, 4) =~= le::le32(r.kind));
    match r.meta {
        Some(m) => {
            law_number_bytes(0, m.frame_id, m.timestamp_us);
            assert(p.subrange(6, 10) =~= le::le32(m.frame_id));
            assert(p.subrange(10, 18) =~= le::le64(m.timestamp_us));
        },
        None => {
            assert(p.subrange(5, 18) =~= Seq::new(13, |i: int| 0u8));
        },
    }
    assert(p.skip(19) =~= capture::record_args_bytes(r.args));
}

/// The arguments of a record follow one another: a number behind a one, bytes behind a two and their
/// length in four bytes.
pub proof fn law_record_argument_layout(args: Seq<ArgView>, v: u32, data: Seq<u8>)
    requires
        data.len() <= u32::MAX,
    ensures
        capture::record_args_bytes(Seq::empty()).len() == 0,
        ({
            let before = capture::record_args_bytes(args);
            let n = before.len() as int;
            let one = capture::record_args_bytes(args.push(ArgView::U32(v)));
            let more = capture::record_args_bytes(args.push(ArgView::Bytes(data)));
            &&& one.len() == n + 5 && one.take(n) == before && one[n] == 1
            &&& number(one.subrange(n + 1, n + 5)) == v
            &&& more.len() == n + 5 + data.len() && more.take(n) == before && more[n] == 2
            &&& number(more.subrange(n + 1, n + 5)) == data.len()
            &&& more.skip(n + 5) == data
        }),
{
    let before = capture::record_args_bytes(args);
    let n = before.len() as int;
    assert(args.push(ArgView::U32(v)).drop_last() =~= args);
    assert(args.push(ArgView::Bytes(data)).drop_last() =~= args);
    let one = capture::record_args_bytes(args.push(ArgView::U32(v)));
    let more = capture::record_args_bytes(args.push(ArgView::Bytes(data)));
    law_number_bytes(0, v, 0);
    law_number_bytes(0, data.len() as u32, 0);
    assert(one.subrange(n + 1, n + 5) =~= le::le32(v));
    assert(one.take(n) =~= before);
    assert(more.take(n) =~= before);
    assert(more.subrange(n + 1, n + 5) =~= le::le32(data.len() as u32));
    assert(more.skip(n + 5) =~= data);
}

/// Which records a capture file cannot hold: those of more than 255 arguments, and those with more
/// bytes in one argument than four bytes can count.
pub proof fn law_refused_records(r: RecordView)
    ensures
        capture::encoded(r) is Ok <==> r.args.len() <= 255 && forall|i: int|
            0 <= i < r.args.len() ==> (#[trigger] r.args[i] matches ArgView::Bytes(b) ==> b.len()
                <= u32::MAX),
        r.args.len() > 255 ==> capture::encoded(r) == Err::<Seq<u8>, Seq<char>>(
            "capture report has "@ + text::dec(r.args.len()) + " args, max is "@ + text::dec(255),
        ),
{
    lemma_oversized(r.args);
}

proof fn lemma_oversized(args: Seq<ArgView>)
    ensures
        capture::oversized(args) is None <==> forall|i: int|
            0 <= i < args.len() ==> (#[trigger] args[i] matches ArgView::Bytes(b) ==> b.len()
                <= u32::MAX),
    decreases args.len(),
{
    if args.len() > 0 {
        let less = args.drop_last();
        lemma_oversized(less);
        assert(forall|i: int| 0 <= i < less.len() ==> less[i] == args[i]);
        assert(args[args.len() - 1] == args.last());
        if capture::oversized(less) is None {
            assert forall|i: int| 0 <= i < less.len() implies (
            #[trigger] args[i] matches ArgView::Bytes(b) ==> b.len() <= u32::MAX) by {
                assert(less[i] == args[i]);
            }
        } else {
            let i = choose|i: int|
                0 <= i < less.len() && !(#[trigger] less[i] matches ArgView::Bytes(b) ==> b.len()
                    <= u32::MAX);
            assert(args[i] == less[i]);
        }
    }
}

proof fn lemma_record_args_sound(p: Seq<u8>, pos: int, count: nat)
    requires
        0 <= pos <= p.len(),
        p.len() <= usize::MAX,
    ensures
        capture::record_args_at(p, pos, count) matches Ok(args) ==> {
            let b = capture::record_args_bytes(args);
            &&& args.len() == count
            &&& pos + b.len() <= p.len() && p.subrange(pos, pos + b.len() as int) == b
        },
    decreases count,
{
    if capture::record_args_at(p, pos, count) is Ok {
        let args = capture::record_args_at(p, pos, count)->Ok_0;
        if count == 0 {
            assert(p.subrange(pos, pos) =~= capture::record_args_bytes(args));
        } else {
            let less = (count - 1) as nat;
            let next: int = if p[pos] == 1 {
                pos + 5
            } else {
                pos + 5 + le::at32(p, pos + 1)
            };
            lemma_record_args_sound(p, next, less);
            let rest = capture::record_args_at(p, next, less)->Ok_0;
            assert(args.skip(1) =~= rest);
            capture::lemma_record_args_front(args);
            let b = capture::record_args_bytes(args);
            let c = capture::record_args_bytes(rest);
            le::law_le32_of_at32(p, pos + 1);
            if p[pos] == 1 {
                assert(p.subrange(pos, next) =~= seq![1u8] + p.subrange(pos + 1, pos + 5));
            } else {
                assert(p.subrange(pos, next) =~= seq![2u8] + p.subrange(pos + 1, pos + 5)
                    + p.subrange(pos + 5, next));
            }
            assert(p.subrange(pos, next) == capture::record_arg_bytes(args[0]));
            assert(p.subrange(pos, pos + b.len() as int) =~= p.subrange(pos, next) + p.subrange(
                next,
                next + c.len() as int,
            ));
        }
    }
}

/// A record is read from the bytes that tell it: the kind, the metadata where its mark is not zero,
/// and as many arguments as are told, which stand behind them.
pub proof fn law_record_is_in_front(p: Seq<u8>)
    requires
        p.len() <= usize::MAX,
    ensures
        capture::decoded(p) matches Ok(r) ==> {
            let b = capture::record_args_bytes(r.args);
            &&& p.len() >= 19
            &&& r.kind == number(p.subrange(0, 4))
            &&& r.meta is Some <==> p[4] != 0
            &&& r.meta matches Some(m) ==> {
                &&& m.flags == p[5]
                &&& m.frame_id == number(p.subrange(6, 10))
                &&& m.timestamp_us == number(p.subrange(10, 18))
            }
            &&& r.args.len() == p[18]
            &&& 19 + b.len() <= p.len() && p.subrange(19, 19 + b.len() as int) == b
        },
        p.len() < 19 ==> capture::decoded(p) == Err::<RecordView, Seq<char>>(
            "truncated capture record"@,
        ),
{
    if p.len() >= 19 {
        law_read_number(p, 0);
        law_read_number(p, 6);
        law_read_number(p, 10);
        lemma_record_args_sound(p, 19, p[18] as nat);
    }
}

/// What a capture file is refused for, and what its records are: the file begins with its mark, each
/// record stands behind its length, and fewer than four bytes at the end do not count.
pub proof fn law_capture_is_its_records(p: Seq<u8>, pos: int)
    requires
        0 <= pos,
    ensures
        p.len() < 9 ==> capture::capture_of(p) == Err::<Seq<RecordView>, CaptureErrorView>(
            CaptureErrorView::ShortHeader,
        ),
        p.len() >= 9 && p.take(9) != seq![
            0x52u8,
            0x53,
            0x45,
            0x51,
            0x43,
            0x41,
            0x50,
            0x31,
            0x0a,
        ] ==> capture::capture_of(p) == Err::<Seq<RecordView>, CaptureErrorView>(
            CaptureErrorView::NotCapture,
        ),
        p.len() >= 9 && p.take(9) == seq![
            0x52u8,
            0x53,
            0x45,
            0x51,
            0x43,
            0x41,
            0x50,
            0x31,
            0x0a,
        ] ==> capture::capture_of(p) == capture::records_at(p, 9),
        pos + 4 > p.len() ==> capture::records_at(p, pos) == Ok::<
            Seq<RecordView>,
            CaptureErrorView,
        >(Seq::empty()),
        pos + 4 <= p.len() ==> {
            let end = pos + 4 + number(p.subrange(pos, pos + 4));
            let r = capture::records_at(p, pos);
            &&& end > p.len() ==> r == Err::<Seq<RecordView>, CaptureErrorView>(
                CaptureErrorView::ShortRecord,
            )
            &&& end <= p.len() ==> (match capture::decoded(p.subrange(pos + 4, end)) {
                Err(e) => r == Err::<Seq<RecordView>, CaptureErrorView>(
                    CaptureErrorView::BadRecord(e),
                ),
                Ok(first) => match capture::records_at(p, end) {
                    Ok(rest) => r == Ok::<Seq<RecordView>, CaptureErrorView>(seq![first] + rest),
                    Err(e) => r == Err::<Seq<RecordView>, CaptureErrorView>(e),
                },
            })
        },
{
    if pos + 4 <= p.len() {
        law_read_number(p, pos);
    }
}

/// The segments of a load payload are those that stand in front of it, one behind the other.
pub proof fn law_segments_are_in_front(rest: Seq<u8>, count: nat)
    ensures
        ({
            let segs = wire::segs_of(rest, count);
            let b = wire::segs_bytes(segs);
            &&& segs.len() <= count
            &&& b.len() <= rest.len() && rest.take(b.len() as int) == b
        }),
    decreases count,
{
    let segs = wire::segs_of(rest, count);
    let b = wire::segs_bytes(segs);
    if count == 0 || wire::first_seg(rest) is None {
        assert(rest.take(0) =~= b);
    } else {
        let seg = wire::first_seg(rest)->Some_0;
        let n = 3 + seg.1.len() as int;
        let tail = rest.skip(n);
        law_segments_are_in_front(tail, (count - 1) as nat);
        let more = wire::segs_of(tail, (count - 1) as nat);
        assert(segs.skip(1) =~= more);
        wire_laws::lemma_segs_bytes_front(segs);
        lemma_back16(rest, 1);
        let c = wire::segs_bytes(more);
        assert(seg.1.len() % 65536 == le::at16(rest, 1));
        assert(rest.take(n) =~= seq![rest[0]] + (rest.subrange(1, 3) + seg.1));
        assert(rest.take(n + c.len() as int) =~= rest.take(n) + tail.take(c.len() as int));
    }
}

} // verus!
