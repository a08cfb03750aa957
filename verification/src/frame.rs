//! The frame format and its streaming decoder.
//!
//! A frame is, little-endian,
//! `[0x55 0xAA][type: u8][len: u16][payload: len bytes][crc32: u32]`.
//! The checksum covers type, length and payload.
use crate::crc32::crc32;
use crate::le;
use crate::le::{copy_range, put_bytes, put_u16, put_u32, read_u16, read_u32};
use vstd::prelude::*;
use vstd::slice::slice_subrange;

verus! {

/// sync (2) + type (1) + len (2).
pub const HEADER_LEN: usize = 5;

/// Bytes of the checksum.
pub const CRC_LEN: usize = 4;

/// What a frame adds to its payload.
pub const OVERHEAD: usize = 9;

/// First sync byte.
pub const SYNC0: u8 = 0x55;

/// Second sync byte.
pub const SYNC1: u8 = 0xAA;

/// The largest payload of a read or write trace: op, address, length, data.
pub const MAX_TRACE_PAYLOAD: usize = 4103;

/// The largest read or write trace frame.
pub const MAX_TRACE_FRAME: usize = 4112;

/// A decoder capacity that holds every frame.
pub const HOST_FRAME_BUF: usize = 65545;

/// What a frame is for. Bit 7 of its code is set in the device-to-host direction.
#[derive(Debug, Clone, Copy, PartialEq, Eq, Structural)]
pub enum FrameType {
    Load,
    Exec,
    Reset,
    Ping,
    Ack,
    Trace,
    Result,
    Pong,
}

/// The code of a frame type on the wire.
pub open spec fn frame_code(ty: FrameType) -> u8 {
    match ty {
        FrameType::Load => 0x01,
        FrameType::Exec => 0x02,
        FrameType::Reset => 0x03,
        FrameType::Ping => 0x04,
        FrameType::Ack => 0x81,
        FrameType::Trace => 0x82,
        FrameType::Result => 0x83,
        FrameType::Pong => 0x84,
    }
}

/// The frame type with the given code.
pub open spec fn frame_type_of(n: u8) -> Option<FrameType> {
    match n {
        0x01 => Some(FrameType::Load),
        0x02 => Some(FrameType::Exec),
        0x03 => Some(FrameType::Reset),
        0x04 => Some(FrameType::Ping),
        0x81 => Some(FrameType::Ack),
        0x82 => Some(FrameType::Trace),
        0x83 => Some(FrameType::Result),
        0x84 => Some(FrameType::Pong),
        _ => None,
    }
}

/// A code names a type exactly when it is the code of that type.
pub proof fn law_frame_codes(n: u8, ty: FrameType)
    ensures
        frame_type_of(n) == Some(ty) <==> n == frame_code(ty),
{
}

impl FrameType {
    /// The type with code `n`, if there is one.
    pub fn from_u8(n: u8) -> (ty: Option<Self>)
        ensures
            ty == frame_type_of(n),
    {
        match n {
            0x01 => Some(Self::Load),
            0x02 => Some(Self::Exec),
            0x03 => Some(Self::Reset),
            0x04 => Some(Self::Ping),
            0x81 => Some(Self::Ack),
            0x82 => Some(Self::Trace),
            0x83 => Some(Self::Result),
            0x84 => Some(Self::Pong),
            _ => None,
        }
    }

    /// The code of this type.
    pub fn to_u8(self) -> (n: u8)
        ensures
            n == frame_code(self),
    {
        match self {
            Self::Load => 0x01,
            Self::Exec => 0x02,
            Self::Reset => 0x03,
            Self::Ping => 0x04,
            Self::Ack => 0x81,
            Self::Trace => 0x82,
            Self::Result => 0x83,
            Self::Pong => 0x84,
        }
    }

    /// Whether the host sends frames of this type.
    pub fn is_host_to_mcu(self) -> (r: bool)
        ensures
            r == (frame_code(self) < 0x80),
    {
        matches!(self, Self::Load | Self::Exec | Self::Reset | Self::Ping)
    }
}

/// A decoded frame with its payload borrowed.
#[derive(Debug, Clone, Copy)]
pub struct Frame<'a> {
    pub ty: FrameType,
    pub payload: &'a [u8],
}

/// A frame as a mathematical value.
pub type FrameView = (FrameType, Seq<u8>);

/// The bytes that the checksum covers. The length is kept modulo 2^16.
pub open spec fn frame_body(ty: FrameType, payload: Seq<u8>) -> Seq<u8> {
    seq![frame_code(ty)] + le::le16((payload.len() % 65536) as u16) + payload
}

/// The bytes of a frame on the wire.
pub open spec fn frame_bytes(ty: FrameType, payload: Seq<u8>) -> Seq<u8> {
    seq![SYNC0, SYNC1] + frame_body(ty, payload) + le::le32(crate::crc32::crc32_spec(frame_body(ty, payload)))
}

/// Encodes a frame at the front of `out` and returns its length.
pub fn encode_into(ty: FrameType, payload: &[u8], out: &mut [u8]) -> (n: usize)
    requires
        payload.len() + OVERHEAD <= old(out).len(),
    ensures
        n == payload.len() + OVERHEAD,
        final(out)@ == le::spliced(old(out)@, 0, frame_bytes(ty, payload@)),
{
    let need: usize = payload.len() + OVERHEAD;
    let ghost body = frame_body(ty, payload@);
    out[0] = SYNC0;
    out[1] = SYNC1;
    out[2] = ty.to_u8();
    let len: u16 = (payload.len() % 65536) as u16;
    put_u16(out, 3, len);
    put_bytes(out, HEADER_LEN, payload);
    let c: usize = HEADER_LEN + payload.len();
    assert(out@.subrange(2, c as int) == body);
    let crc: u32 = crc32(slice_subrange(out, 2, c));
    put_u32(out, c, crc);
    assert(out@ == le::spliced(old(out)@, 0, frame_bytes(ty, payload@)));
    need
}

/// Where a decoder stands between two bytes.
pub enum Scan {
    /// Before the first sync byte.
    Sync0,
    /// After the first sync byte.
    Sync1,
    /// After both sync bytes and these further bytes of the frame.
    Body(Seq<u8>),
}

/// How many bytes follow the sync bytes of a frame whose length field is known.
pub open spec fn body_total(b: Seq<u8>) -> int {
    3 + le::at16(b, 1) + CRC_LEN
}

/// The frame that a complete body holds: its checksum must match.
pub open spec fn body_frame(b: Seq<u8>) -> Option<FrameView> {
    let len = le::at16(b, 1) as int;
    match frame_type_of(b[0]) {
        Some(ty) => if crate::crc32::crc32_spec(b.take(3 + len)) == le::at32(b, 3 + len) {
            Some((ty, b.subrange(3, 3 + len)))
        } else {
            None
        },
        None => None,
    }
}

/// Looking for the start of a frame.
pub open spec fn step_sync0(byte: u8) -> Scan {
    if byte == SYNC0 {
        Scan::Sync1
    } else {
        Scan::Sync0
    }
}

/// One more byte, for a decoder of frames of `n` bytes: where the decoder stands
/// then, and the frame that the byte completes. A byte that shows that no frame
/// of acceptable type and length is under way may itself start one.
pub open spec fn step(n: nat, s: Scan, byte: u8) -> (Scan, Option<FrameView>) {
    match s {
        Scan::Sync0 => (step_sync0(byte), None),
        Scan::Sync1 => if byte == SYNC1 {
            (Scan::Body(Seq::empty()), None)
        } else {
            (step_sync0(byte), None)
        },
        Scan::Body(b) => {
            let b2 = b.push(byte);
            if b2.len() == 1 && frame_type_of(byte) is None {
                (step_sync0(byte), None)
            } else if b2.len() == 3 && 2 + body_total(b2) > n {
                (step_sync0(byte), None)
            } else if b2.len() >= 3 && b2.len() == body_total(b2) {
                (Scan::Sync0, body_frame(b2))
            } else {
                (Scan::Body(b2), None)
            }
        },
    }
}

/// `frames` with one more, if there is one.
pub open spec fn with_frame(frames: Seq<FrameView>, f: Option<FrameView>) -> Seq<FrameView> {
    match f {
        Some(f) => frames.push(f),
        None => frames,
    }
}

/// Where a decoder stands after `bytes`, and the frames it found in them.
pub open spec fn run(n: nat, s: Scan, bytes: Seq<u8>) -> (Scan, Seq<FrameView>)
    decreases bytes.len(),
{
    if bytes.len() == 0 {
        (s, Seq::empty())
    } else {
        let before = run(n, s, bytes.drop_last());
        let after = step(n, before.0, bytes.last());
        (after.0, with_frame(before.1, after.1))
    }
}

/// What a list of owned frames stands for.
pub open spec fn frames_view(frames: Seq<(FrameType, Vec<u8>)>) -> Seq<FrameView> {
    frames.map_values(|f: (FrameType, Vec<u8>)| (f.0, f.1@))
}

#[derive(Debug, Clone, Copy, PartialEq, Eq, Structural)]
enum State {
    Sync0,
    Sync1,
    Type,
    Len,
    Payload,
    Crc,
}

/// A streaming frame decoder that takes bytes in chunks of any size and finds
/// the next frame again after damaged input. `N` is how many bytes a whole frame
/// has at most, its sync bytes and its checksum counted in.
pub struct FrameDecoder<const N: usize> {
    buf: Vec<u8>,
    state: State,
    len: u16,
}

impl<const N: usize> View for FrameDecoder<N> {
    type V = Scan;

    closed spec fn view(&self) -> Scan {
        match self.state {
            State::Sync0 => Scan::Sync0,
            State::Sync1 => Scan::Sync1,
            _ => Scan::Body(self.buf@),
        }
    }
}

impl<const N: usize> FrameDecoder<N> {
    /// The decoder's own bookkeeping agrees with the bytes it holds.
    pub closed spec fn wf(&self) -> bool {
        let b = self.buf@;
        match self.state {
            State::Sync0 => true,
            State::Sync1 => true,
            State::Type => b.len() == 0,
            State::Len => 1 <= b.len() <= 2 && frame_type_of(b[0]) is Some,
            State::Payload => {
                &&& 3 <= b.len() < 3 + self.len
                &&& frame_type_of(b[0]) is Some
                &&& self.len == le::at16(b, 1)
                &&& 2 + body_total(b) <= N
            },
            State::Crc => {
                &&& 3 + self.len <= b.len() < 3 + self.len + CRC_LEN
                &&& frame_type_of(b[0]) is Some
                &&& self.len == le::at16(b, 1)
                &&& 2 + body_total(b) <= N
            },
        }
    }

    /// A decoder that has seen nothing.
    pub fn new() -> (d: Self)
        ensures
            d.wf(),
            d@ == Scan::Sync0,
    {
        FrameDecoder { buf: Vec::new(), state: State::Sync0, len: 0 }
    }

    /// Takes a chunk of the byte stream and returns the frames that it completes,
    /// in order. Frames with a wrong checksum or an unknown type are dropped.
    pub fn feed(&mut self, chunk: &[u8]) -> (frames: Vec<(FrameType, Vec<u8>)>)
        requires
            old(self).wf(),
            N >= 3,
        ensures
            final(self).wf(),
            (final(self)@, frames_view(frames@)) == run(N as nat, old(self)@, chunk@),
    {
        let mut frames: Vec<(FrameType, Vec<u8>)> = Vec::new();
        let mut i: usize = 0;
        assert(frames_view(frames@) == Seq::<FrameView>::empty());
        while i < chunk.len()
            invariant
                i <= chunk.len(),
                N >= 3,
                self.wf(),
                (self@, frames_view(frames@)) == run(N as nat, old(self)@, chunk@.take(i as int)),
            decreases chunk.len() - i,
        {
            let b: u8 = chunk[i];
            let ghost seen = frames@;
            let got = self.feed_byte(b);
            match got {
                Some(f) => {
                    frames.push(f);
                    assert(frames_view(frames@) == frames_view(seen).push((f.0, f.1@)));
                },
                None => {},
            }
            assert(chunk@.take(i + 1).drop_last() == chunk@.take(i as int));
            i += 1;
        }
        assert(chunk@.take(chunk@.len() as int) == chunk@);
        frames
    }

    fn feed_byte(&mut self, b: u8) -> (got: Option<(FrameType, Vec<u8>)>)
        requires
            old(self).wf(),
            N >= 3,
        ensures
            final(self).wf(),
            final(self)@ == step(N as nat, old(self)@, b).0,
            (match got {
                Some(f) => Some((f.0, f.1@)),
                None => None,
            }) == step(N as nat, old(self)@, b).1,
    {
        match self.state {
            State::Sync0 => {
                self.look_for_sync(b);
                None
            },
            State::Sync1 => {
                if b == SYNC1 {
                    self.buf.clear();
                    self.state = State::Type;
                } else {
                    self.look_for_sync(b);
                }
                None
            },
            State::Type => {
                if FrameType::from_u8(b).is_none() {
                    self.look_for_sync(b);
                } else {
                    self.buf.push(b);
                    self.state = State::Len;
                }
                None
            },
            State::Len => {
                self.buf.push(b);
                if self.buf.len() == 3 {
                    self.len = read_u16(&self.buf, 1);
                    let total: usize = HEADER_LEN + self.len as usize + CRC_LEN;
                    if total > N {
                        self.look_for_sync(b);
                    } else if self.len == 0 {
                        self.state = State::Crc;
                    } else {
                        self.state = State::Payload;
                    }
                }
                None
            },
            State::Payload => {
                self.buf.push(b);
                if self.buf.len() == 3 + self.len as usize {
                    self.state = State::Crc;
                }
                None
            },
            State::Crc => {
                self.buf.push(b);
                let body: usize = 3 + self.len as usize;
                if self.buf.len() == body + CRC_LEN {
                    let computed: u32 = crc32(slice_subrange(&self.buf, 0, body));
                    let received: u32 = read_u32(&self.buf, body);
                    let ty = FrameType::from_u8(self.buf[0]);
                    let payload = copy_range(&self.buf, 3, body);
                    assert(self.buf@.take(body as int) == self.buf@.subrange(0, body as int));
                    self.reset_sync();
                    match ty {
                        Some(ty) => if computed == received {
                            Some((ty, payload))
                        } else {
                            None
                        },
                        None => None,
                    }
                } else {
                    None
                }
            },
        }
    }

    fn look_for_sync(&mut self, b: u8)
        ensures
            final(self).wf(),
            final(self)@ == step_sync0(b),
    {
        self.state = if b == SYNC0 {
            State::Sync1
        } else {
            State::Sync0
        };
    }

    fn reset_sync(&mut self)
        ensures
            final(self).wf(),
            final(self)@ == Scan::Sync0,
    {
        self.state = State::Sync0;
        self.buf.clear();
    }
}

impl<const N: usize> Default for FrameDecoder<N> {
    fn default() -> (d: Self)
        ensures
            d.wf(),
            d@ == Scan::Sync0,
    {
        Self::new()
    }
}

/// Splitting the stream into chunks anywhere changes nothing: the frames are
/// those of the whole stream, in order.
pub proof fn law_chunking(n: nat, s: Scan, first: Seq<u8>, second: Seq<u8>)
    ensures
        run(n, s, first + second) == ({
            let a = run(n, s, first);
            let b = run(n, a.0, second);
            (b.0, a.1 + b.1)
        }),
    decreases second.len(),
{
    let a = run(n, s, first);
    let b = run(n, a.0, second);
    if second.len() == 0 {
        assert(first + second == first);
        assert(a.1 + b.1 == a.1);
    } else {
        law_chunking(n, s, first, second.drop_last());
        assert((first + second).drop_last() == first + second.drop_last());
        assert((first + second).last() == second.last());
        let c = run(n, a.0, second.drop_last());
        let d = step(n, c.0, second.last());
        assert(a.1 + with_frame(c.1, d.1) == with_frame(a.1 + c.1, d.1));
    }
}

/// A body under way is taken byte by byte until it is complete.
proof fn lemma_body_prefix(n: nat, s: Scan, w: Seq<u8>, k: int)
    requires
        s is Sync0 || s is Sync1,
        w.len() >= 3,
        frame_type_of(w[0]) is Some,
        w.len() == body_total(w) <= n - 2,
        0 <= k < w.len(),
    ensures
        run(n, s, seq![SYNC0, SYNC1] + w.take(k)) == (
            Scan::Body(w.take(k)),
            Seq::<FrameView>::empty(),
        ),
    decreases k,
{
    let sync = seq![SYNC0, SYNC1];
    if k == 0 {
        assert(sync + w.take(0) == sync);
        assert(w.take(0) == Seq::<u8>::empty());
        assert(sync.drop_last() == seq![SYNC0]);
        assert(seq![SYNC0].drop_last() == Seq::<u8>::empty());
        assert(run(n, s, Seq::empty()) == (s, Seq::<FrameView>::empty()));
        assert(run(n, s, seq![SYNC0]).0 == Scan::Sync1);
    } else {
        lemma_body_prefix(n, s, w, k - 1);
        assert((sync + w.take(k)).drop_last() == sync + w.take(k - 1));
        assert((sync + w.take(k)).last() == w[k - 1]);
        assert(w.take(k - 1).push(w[k - 1]) == w.take(k));
        if k >= 3 {
            assert(le::at16(w.take(k), 1) == le::at16(w, 1));
        }
    }
}

/// A complete body ends the frame under way: the frame is found when its
/// checksum matches, and dropped otherwise.
pub proof fn law_body_complete(n: nat, s: Scan, w: Seq<u8>)
    requires
        s is Sync0 || s is Sync1,
        w.len() >= 3,
        frame_type_of(w[0]) is Some,
        w.len() == body_total(w) <= n - 2,
    ensures
        run(n, s, seq![SYNC0, SYNC1] + w) == (
            Scan::Sync0,
            with_frame(Seq::empty(), body_frame(w)),
        ),
{
    let sync = seq![SYNC0, SYNC1];
    let k = w.len() - 1;
    lemma_body_prefix(n, s, w, k);
    assert((sync + w).drop_last() == sync + w.take(k));
    assert((sync + w).last() == w[k]);
    assert(w.take(k).push(w[k]) == w);
}

/// What the fields of an encoded frame's body read as.
proof fn lemma_frame_body_fields(ty: FrameType, payload: Seq<u8>, tail: Seq<u8>)
    requires
        payload.len() <= 65535,
        tail.len() == CRC_LEN,
    ensures
        ({
            let w = frame_body(ty, payload) + tail;
            &&& w.len() == body_total(w) == payload.len() + 7
            &&& frame_type_of(w[0]) == Some(ty)
            &&& le::at16(w, 1) == payload.len()
            &&& w.take(3 + payload.len() as int) == frame_body(ty, payload)
            &&& w.subrange(3, 3 + payload.len() as int) == payload
            &&& w.subrange(3 + payload.len() as int, 7 + payload.len() as int) == tail
        }),
{
    let w = frame_body(ty, payload) + tail;
    let len = payload.len() as u16;
    assert(payload.len() % 65536 == payload.len());
    assert(w[0] == frame_code(ty));
    assert(w.subrange(1, 3) == le::le16(len));
    le::law_le16_round_trip(w, 1, len);
    assert(w.take(3 + payload.len() as int) == frame_body(ty, payload));
    assert(w.subrange(3, 3 + payload.len() as int) == payload);
    assert(w.subrange(3 + payload.len() as int, 7 + payload.len() as int) == tail);
}

/// A decoder with room for it gives back every frame that was encoded,
/// and then looks for the next one.
pub proof fn law_frame_round_trip(n: nat, s: Scan, ty: FrameType, payload: Seq<u8>)
    requires
        s is Sync0 || s is Sync1,
        payload.len() <= 65535,
        payload.len() + OVERHEAD <= n,
    ensures
        run(n, s, frame_bytes(ty, payload)) == (Scan::Sync0, seq![(ty, payload)]),
{
    let body = frame_body(ty, payload);
    let crc = crate::crc32::crc32_spec(body);
    let w = body + le::le32(crc);
    lemma_frame_body_fields(ty, payload, le::le32(crc));
    assert(frame_bytes(ty, payload) == seq![SYNC0, SYNC1] + w);
    le::law_le32_round_trip(w, 3 + payload.len() as int, crc);
    law_body_complete(n, s, w);
    assert(body_frame(w) == Some((ty, payload)));
    assert(with_frame(Seq::empty(), body_frame(w)) == seq![(ty, payload)]);
}

/// A frame whose checksum bytes are not those of its contents is dropped.
pub proof fn law_bad_checksum_dropped(
    n: nat,
    s: Scan,
    ty: FrameType,
    payload: Seq<u8>,
    tail: Seq<u8>,
)
    requires
        s is Sync0 || s is Sync1,
        payload.len() <= 65535,
        payload.len() + OVERHEAD <= n,
        tail.len() == CRC_LEN,
        tail != le::le32(crate::crc32::crc32_spec(frame_body(ty, payload))),
    ensures
        run(n, s, seq![SYNC0, SYNC1] + frame_body(ty, payload) + tail) == (
            Scan::Sync0,
            Seq::<FrameView>::empty(),
        ),
{
    let w = frame_body(ty, payload) + tail;
    lemma_frame_body_fields(ty, payload, tail);
    assert(seq![SYNC0, SYNC1] + frame_body(ty, payload) + tail == seq![SYNC0, SYNC1] + w);
    law_body_complete(n, s, w);
    le::law_le32_of_at32(w, 3 + payload.len() as int);
}

/// A frame with one payload byte changed on the way is dropped.
pub proof fn law_changed_payload_byte_dropped(
    n: nat,
    s: Scan,
    ty: FrameType,
    payload: Seq<u8>,
    at: int,
    byte: u8,
)
    requires
        s is Sync0 || s is Sync1,
        payload.len() <= 65535,
        payload.len() + OVERHEAD <= n,
        0 <= at < payload.len(),
        payload[at] != byte,
    ensures
        run(n, s, frame_bytes(ty, payload).update(HEADER_LEN + at, byte)) == (
            Scan::Sync0,
            Seq::<FrameView>::empty(),
        ),
{
    let changed = payload.update(at, byte);
    let body = frame_body(ty, payload);
    let crc = crate::crc32::crc32_spec(body);
    assert(frame_body(ty, changed) == body.update(3 + at, byte));
    crate::crc32::law_crc_detects_one_changed_byte(body, 3 + at, byte);
    let crc2 = crate::crc32::crc32_spec(frame_body(ty, changed));
    let tail = le::le32(crc);
    assert(tail.subrange(0, 4) == tail);
    assert(le::le32(crc2).subrange(0, 4) == le::le32(crc2));
    le::law_le32_round_trip(tail, 0, crc);
    le::law_le32_round_trip(le::le32(crc2), 0, crc2);
    law_bad_checksum_dropped(n, s, ty, changed, tail);
    assert(frame_bytes(ty, payload).update(HEADER_LEN + at, byte) == seq![SYNC0, SYNC1]
        + frame_body(ty, changed) + tail);
}

/// Bytes in which the two sync bytes never follow each other start no frame.
pub proof fn law_garbage_starts_nothing(n: nat, garbage: Seq<u8>)
    requires
        forall|i: int|
            0 <= i < garbage.len() - 1 ==> !(#[trigger] garbage[i] == SYNC0 && garbage[i + 1]
                == SYNC1),
    ensures
        run(n, Scan::Sync0, garbage).1 == Seq::<FrameView>::empty(),
        run(n, Scan::Sync0, garbage).0 == if garbage.len() > 0 && garbage.last() == SYNC0 {
            Scan::Sync1
        } else {
            Scan::Sync0
        },
    decreases garbage.len(),
{
    if garbage.len() > 0 {
        let less = garbage.drop_last();
        assert forall|i: int| 0 <= i < less.len() - 1 implies !(#[trigger] less[i] == SYNC0
            && less[i + 1] == SYNC1) by {
            assert(less[i] == garbage[i]);
        }
        law_garbage_starts_nothing(n, less);
        if less.len() > 0 {
            assert(garbage[garbage.len() - 2] == less.last());
        }
    }
}

/// Garbage in front of a frame does not hide it.
pub proof fn law_resync_after_garbage(n: nat, garbage: Seq<u8>, ty: FrameType, payload: Seq<u8>)
    requires
        payload.len() <= 65535,
        payload.len() + OVERHEAD <= n,
        forall|i: int|
            0 <= i < garbage.len() - 1 ==> !(#[trigger] garbage[i] == SYNC0 && garbage[i + 1]
                == SYNC1),
    ensures
        run(n, Scan::Sync0, garbage + frame_bytes(ty, payload)) == (
            Scan::Sync0,
            seq![(ty, payload)],
        ),
{
    law_garbage_starts_nothing(n, garbage);
    law_chunking(n, Scan::Sync0, garbage, frame_bytes(ty, payload));
    law_frame_round_trip(n, run(n, Scan::Sync0, garbage).0, ty, payload);
    assert(Seq::<FrameView>::empty() + seq![(ty, payload)] == seq![(ty, payload)]);
}

/// The bytes of a list of frames, one after the other.
pub open spec fn stream_of(frames: Seq<FrameView>) -> Seq<u8>
    decreases frames.len(),
{
    if frames.len() == 0 {
        Seq::empty()
    } else {
        stream_of(frames.drop_last()) + frame_bytes(frames.last().0, frames.last().1)
    }
}

/// A stream of encoded frames decodes to exactly those frames, in order.
pub proof fn law_stream_round_trip(n: nat, frames: Seq<FrameView>)
    requires
        forall|i: int|
            0 <= i < frames.len() ==> (#[trigger] frames[i]).1.len() <= 65535 && frames[i].1.len()
                + OVERHEAD <= n,
    ensures
        run(n, Scan::Sync0, stream_of(frames)) == (Scan::Sync0, frames),
    decreases frames.len(),
{
    if frames.len() == 0 {
        assert(frames == Seq::<FrameView>::empty());
    } else {
        let less = frames.drop_last();
        let f = frames.last();
        assert forall|i: int| 0 <= i < less.len() implies (#[trigger] less[i]).1.len() <= 65535
            && less[i].1.len() + OVERHEAD <= n by {
            assert(less[i] == frames[i]);
        }
        assert(frames[frames.len() - 1] == f);
        law_stream_round_trip(n, less);
        law_chunking(n, Scan::Sync0, stream_of(less), frame_bytes(f.0, f.1));
        law_frame_round_trip(n, Scan::Sync0, f.0, f.1);
        assert(less + seq![(f.0, f.1)] == frames);
    }
}

/// How long a frame is on the line.
pub open spec fn frame_len(f: FrameView) -> nat {
    f.1.len() + OVERHEAD as nat
}

/// Whether `stream` holds the encoding of each frame at its place, the places being in order and
/// the encodings apart from each other.
pub open spec fn stream_holds(stream: Seq<u8>, frames: Seq<FrameView>, at: Seq<int>) -> bool {
    &&& at.len() == frames.len()
    &&& forall|j: int|
        0 <= j < frames.len() ==> {
            &&& 0 <= #[trigger] at[j]
            &&& at[j] + frame_len(frames[j]) <= stream.len()
            &&& stream.subrange(at[j], at[j] + frame_len(frames[j])) == frame_bytes(
                frames[j].0,
                frames[j].1,
            )
        }
    &&& forall|j: int, k: int|
        0 <= j < k < frames.len() ==> #[trigger] at[j] + frame_len(frames[j]) <= #[trigger] at[k]
}

/// Where the frame starts that a decoder may be in the middle of.
pub open spec fn open_from(s: Scan, stream: Seq<u8>) -> int {
    match s {
        Scan::Body(b) => stream.len() - 2 - b.len(),
        Scan::Sync1 => stream.len() - 1,
        Scan::Sync0 => stream.len() as int,
    }
}

/// What a decoder in the middle of a frame holds are the last bytes it saw.
pub open spec fn scan_follows(n: nat, s: Scan, stream: Seq<u8>) -> bool {
    match s {
        Scan::Body(b) => {
            let lead = seq![SYNC0, SYNC1] + b;
            &&& lead.len() <= stream.len()
            &&& stream.skip(stream.len() - lead.len()) == lead
            &&& b.len() >= 1 ==> frame_type_of(b[0]) is Some
            &&& b.len() >= 3 ==> b.len() < body_total(b)
        },
        Scan::Sync1 => stream.len() > 0 && stream.last() == SYNC0,
        Scan::Sync0 => true,
    }
}

/// Every frame that comes out of a stream was in it, with its checksum intact: each at a place of
/// its own, in the order in which they come out, and before what the decoder still holds.
pub proof fn law_decoded_frames_were_sent(n: nat, stream: Seq<u8>) -> (at: Seq<int>)
    ensures
        stream_holds(stream, run(n, Scan::Sync0, stream).1, at),
        scan_follows(n, run(n, Scan::Sync0, stream).0, stream),
        forall|j: int|
            0 <= j < at.len() ==> #[trigger] at[j] + frame_len(run(n, Scan::Sync0, stream).1[j])
                <= open_from(run(n, Scan::Sync0, stream).0, stream),
    decreases stream.len(),
{
    if stream.len() == 0 {
        Seq::empty()
    } else {
        let less = stream.drop_last();
        let byte = stream.last();
        let was = law_decoded_frames_were_sent(n, less);
        let before = run(n, Scan::Sync0, less);
        let after = step(n, before.0, byte);
        let frames = run(n, Scan::Sync0, stream).1;
        let start = open_from(before.0, less);
        match before.0 {
            Scan::Body(b) => {
                let b2 = b.push(byte);
                let lead = seq![SYNC0, SYNC1] + b2;
                assert(stream.skip(stream.len() - lead.len()) =~= less.skip(
                    less.len() - (lead.len() - 1),
                ).push(byte));
                assert(lead =~= (seq![SYNC0, SYNC1] + b).push(byte));
                if after.1 is Some {
                    let f = after.1->Some_0;
                    lemma_completed_frame(b2);
                    assert(stream.subrange(start, start + frame_len(f)) =~= stream.skip(start));
                }
                if b2.len() > 3 {
                    assert(le::at16(b2, 1) == le::at16(b, 1));
                }
            },
            Scan::Sync1 => {
                if byte == SYNC1 {
                    assert(stream.skip(stream.len() - 2) =~= seq![SYNC0, SYNC1]);
                    assert(seq![SYNC0, SYNC1] + Seq::<u8>::empty() =~= seq![SYNC0, SYNC1]);
                }
            },
            Scan::Sync0 => {},
        }
        let at = if after.1 is Some {
            was.push(start)
        } else {
            was
        };
        assert forall|j: int| 0 <= j < frames.len() implies {
            &&& 0 <= #[trigger] at[j]
            &&& at[j] + frame_len(frames[j]) <= stream.len()
            &&& stream.subrange(at[j], at[j] + frame_len(frames[j])) == frame_bytes(
                frames[j].0,
                frames[j].1,
            )
        } by {
            if j < before.1.len() {
                assert(at[j] == was[j] && frames[j] == before.1[j]);
                assert(stream.subrange(at[j], at[j] + frame_len(frames[j])) =~= less.subrange(
                    at[j],
                    at[j] + frame_len(frames[j]),
                ));
            }
        }
        assert forall|j: int, k: int| 0 <= j < k < frames.len() implies #[trigger] at[j]
            + frame_len(frames[j]) <= #[trigger] at[k] by {
            assert(at[j] == was[j] && frames[j] == before.1[j]);
            if k < before.1.len() {
                assert(at[k] == was[k] && frames[k] == before.1[k]);
            }
        }
        assert forall|j: int| 0 <= j < at.len() implies #[trigger] at[j] + frame_len(frames[j])
            <= open_from(after.0, stream) by {
            if j < before.1.len() {
                assert(at[j] == was[j] && frames[j] == before.1[j]);
            }
        }
        at
    }
}

/// A complete body with a matching checksum is the encoding of its frame.
proof fn lemma_completed_frame(b: Seq<u8>)
    requires
        b.len() >= 3,
        b.len() == body_total(b),
        body_frame(b) is Some,
    ensures
        ({
            let f = body_frame(b)->Some_0;
            seq![SYNC0, SYNC1] + b == frame_bytes(f.0, f.1)
        }),
{
    let f = body_frame(b)->Some_0;
    let len = le::at16(b, 1) as int;
    assert(f.1.len() == len);
    assert(le::le16((f.1.len() % 65536) as u16) =~= b.subrange(1, 3));
    assert(frame_body(f.0, f.1) =~= b.take(3 + len));
    le::law_le32_of_at32(b, 3 + len);
    assert(seq![SYNC0, SYNC1] + b =~= frame_bytes(f.0, f.1));
}

/// A frame of a type that there is not is given up at its type, and one that is longer than a frame
/// may be at its length. The byte at which it is given up may begin the next frame.
pub proof fn law_frames_given_up(n: nat, s: Scan, code: u8, low: u8, high: u8)
    requires
        s is Sync0 || s is Sync1,
    ensures
        frame_type_of(code) is None ==> run(n, s, seq![0x55u8, 0xAA, code]) == (
            if code == 0x55 {
                Scan::Sync1
            } else {
                Scan::Sync0
            },
            Seq::<FrameView>::empty(),
        ),
        frame_type_of(code) is Some && 9 + low + 256 * high > n ==> run(
            n,
            s,
            seq![0x55u8, 0xAA, code, low, high],
        ) == (
            if high == 0x55 {
                Scan::Sync1
            } else {
                Scan::Sync0
            },
            Seq::<FrameView>::empty(),
        ),
        frame_type_of(code) is Some && 9 + low + 256 * high <= n ==> run(
            n,
            s,
            seq![0x55u8, 0xAA, code, low, high],
        ) == (Scan::Body(seq![code, low, high]), Seq::<FrameView>::empty()),
        run(n, Scan::Sync0, seq![0x55u8, 0x55]) == (Scan::Sync1, Seq::<FrameView>::empty()),
{
    let none = Seq::<u8>::empty();
    let two = seq![0x55u8, 0xAA];
    let three = seq![0x55u8, 0xAA, code];
    let four = seq![0x55u8, 0xAA, code, low];
    let five = seq![0x55u8, 0xAA, code, low, high];
    assert(run(n, s, none) == (s, Seq::<FrameView>::empty()));
    assert(seq![0x55u8].drop_last() =~= none);
    assert(run(n, s, seq![0x55u8]) == (Scan::Sync1, Seq::<FrameView>::empty()));
    assert(two.drop_last() =~= seq![0x55u8]);
    assert(run(n, s, two) == (Scan::Body(none), Seq::<FrameView>::empty()));
    assert(three.drop_last() =~= two);
    assert(none.push(code) =~= seq![code]);
    if frame_type_of(code) is Some {
        assert(run(n, s, three) == (Scan::Body(seq![code]), Seq::<FrameView>::empty()));
        assert(four.drop_last() =~= three);
        assert(seq![code].push(low) =~= seq![code, low]);
        assert(run(n, s, four) == (Scan::Body(seq![code, low]), Seq::<FrameView>::empty()));
        assert(five.drop_last() =~= four);
        assert(seq![code, low].push(high) =~= seq![code, low, high]);
    }
    let again = seq![0x55u8, 0x55];
    assert(again.drop_last() =~= seq![0x55u8]);
    assert(run(n, Scan::Sync0, none) == (Scan::Sync0, Seq::<FrameView>::empty()));
    assert(run(n, Scan::Sync0, seq![0x55u8]) == (Scan::Sync1, Seq::<FrameView>::empty()));
}

} // verus!
