//! Little-endian integers on bytes.
use vstd::prelude::*;
use vstd::slice::slice_subrange;

verus! {

/// The two bytes of `x`, low byte first.
pub open spec fn le16(x: u16) -> Seq<u8> {
    seq![(x % 256) as u8, (x / 256) as u8]
}

/// The four bytes of `x`, low byte first.
pub open spec fn le32(x: u32) -> Seq<u8> {
    seq![
        (x % 256) as u8,
        (x / 256 % 256) as u8,
        (x / 65536 % 256) as u8,
        (x / 16777216) as u8,
    ]
}

/// The eight bytes of `x`, low byte first.
pub open spec fn le64(x: u64) -> Seq<u8> {
    le32((x % 4294967296) as u32) + le32((x / 4294967296) as u32)
}

/// The number that two bytes hold from position `at` on.
pub open spec fn at16(s: Seq<u8>, at: int) -> u16 {
    (s[at] + 256 * s[at + 1]) as u16
}

/// The number that four bytes hold from position `at` on.
pub open spec fn at32(s: Seq<u8>, at: int) -> u32 {
    (s[at] + 256 * s[at + 1] + 65536 * s[at + 2] + 16777216 * s[at + 3]) as u32
}

/// The number that eight bytes hold from position `at` on.
pub open spec fn at64(s: Seq<u8>, at: int) -> u64 {
    (at32(s, at) + 4294967296 * at32(s, at + 4)) as u64
}

/// The two-byte number at `at`.
pub fn read_u16(s: &[u8], at: usize) -> (x: u16)
    requires
        at + 2 <= s.len(),
    ensures
        x == at16(s@, at as int),
{
    s[at] as u16 + 256 * (s[at + 1] as u16)
}

/// The four-byte number at `at`.
pub fn read_u32(s: &[u8], at: usize) -> (x: u32)
    requires
        at + 4 <= s.len(),
    ensures
        x == at32(s@, at as int),
{
    s[at] as u32 + 256 * (s[at + 1] as u32) + 65536 * (s[at + 2] as u32) + 16777216 * (s[at
        + 3] as u32)
}

/// The eight-byte number at `at`.
pub fn read_u64(s: &[u8], at: usize) -> (x: u64)
    requires
        at + 8 <= s.len(),
    ensures
        x == at64(s@, at as int),
{
    let low: u32 = read_u32(s, at);
    let high: u32 = read_u32(s, at + 4);
    low as u64 + 4294967296 * (high as u64)
}

/// What `out` holds once `bytes` stand at `at` in it.
pub open spec fn spliced(out: Seq<u8>, at: int, bytes: Seq<u8>) -> Seq<u8> {
    out.take(at) + bytes + out.skip(at + bytes.len())
}

/// Writes `bytes` into `out` from position `at` on.
pub fn put_bytes(out: &mut [u8], at: usize, bytes: &[u8])
    requires
        at + bytes.len() <= old(out).len(),
    ensures
        final(out)@ == spliced(old(out)@, at as int, bytes@),
{
    let mut i: usize = 0;
    let n: usize = bytes.len();
    while i < n
        invariant
            i <= n,
            n == bytes.len(),
            at + n <= old(out).len(),
            out@.len() == old(out)@.len(),
            out@ == spliced(old(out)@, at as int, bytes@.take(i as int)),
        decreases n - i,
    {
        out[at + i] = bytes[i];
        i += 1;
        assert(out@ == spliced(old(out)@, at as int, bytes@.take(i as int)));
    }
    assert(bytes@.take(n as int) == bytes@);
}

/// Writes `x` into `out` as two bytes from position `at` on.
pub fn put_u16(out: &mut [u8], at: usize, x: u16)
    requires
        at + 2 <= old(out).len(),
    ensures
        final(out)@ == spliced(old(out)@, at as int, le16(x)),
{
    out[at] = (x % 256) as u8;
    out[at + 1] = (x / 256) as u8;
    assert(out@ == spliced(old(out)@, at as int, le16(x)));
}

/// Writes `x` into `out` as four bytes from position `at` on.
pub fn put_u32(out: &mut [u8], at: usize, x: u32)
    requires
        at + 4 <= old(out).len(),
    ensures
        final(out)@ == spliced(old(out)@, at as int, le32(x)),
{
    out[at] = (x % 256) as u8;
    out[at + 1] = (x / 256 % 256) as u8;
    out[at + 2] = (x / 65536 % 256) as u8;
    out[at + 3] = (x / 16777216) as u8;
    assert(out@ == spliced(old(out)@, at as int, le32(x)));
}

/// Appends `bytes`.
pub fn push_bytes(out: &mut Vec<u8>, bytes: &[u8])
    ensures
        final(out)@ == old(out)@ + bytes@,
{
    let mut i: usize = 0;
    while i < bytes.len()
        invariant
            i <= bytes.len(),
            out@ == old(out)@ + bytes@.take(i as int),
        decreases bytes.len() - i,
    {
        out.push(bytes[i]);
        i += 1;
        assert(out@ == old(out)@ + bytes@.take(i as int));
    }
    assert(bytes@.take(bytes@.len() as int) == bytes@);
}

/// Appends `x` as four bytes.
pub fn push_u32(out: &mut Vec<u8>, x: u32)
    ensures
        final(out)@ == old(out)@ + le32(x),
{
    out.push((x % 256) as u8);
    out.push((x / 256 % 256) as u8);
    out.push((x / 65536 % 256) as u8);
    out.push((x / 16777216) as u8);
    assert(out@ == old(out)@ + le32(x));
}

/// Appends `x` as eight bytes.
pub fn push_u64(out: &mut Vec<u8>, x: u64)
    ensures
        final(out)@ == old(out)@ + le64(x),
{
    push_u32(out, (x % 4294967296) as u32);
    push_u32(out, (x / 4294967296) as u32);
    assert(out@ == old(out)@ + le64(x));
}

/// A copy of the bytes from `from` up to `to`.
pub fn copy_range(s: &[u8], from: usize, to: usize) -> (out: Vec<u8>)
    requires
        from <= to <= s.len(),
    ensures
        out@ == s@.subrange(from as int, to as int),
{
    let mut out: Vec<u8> = Vec::new();
    push_bytes(&mut out, slice_subrange(s, from, to));
    assert(out@ == s@.subrange(from as int, to as int));
    out
}

/// Reading two bytes gives back the number that was written.
pub proof fn law_le16_round_trip(s: Seq<u8>, at: int, x: u16)
    requires
        0 <= at,
        at + 2 <= s.len(),
        s.subrange(at, at + 2) == le16(x),
    ensures
        at16(s, at) == x,
{
    assert(s[at] == s.subrange(at, at + 2)[0]);
    assert(s[at + 1] == s.subrange(at, at + 2)[1]);
}

/// Reading four bytes gives back the number that was written.
pub proof fn law_le32_round_trip(s: Seq<u8>, at: int, x: u32)
    requires
        0 <= at,
        at + 4 <= s.len(),
        s.subrange(at, at + 4) == le32(x),
    ensures
        at32(s, at) == x,
{
    assert(s[at] == s.subrange(at, at + 4)[0]);
    assert(s[at + 1] == s.subrange(at, at + 4)[1]);
    assert(s[at + 2] == s.subrange(at, at + 4)[2]);
    assert(s[at + 3] == s.subrange(at, at + 4)[3]);
}

/// Reading eight bytes gives back the number that was written.
pub proof fn law_le64_round_trip(s: Seq<u8>, at: int, x: u64)
    requires
        0 <= at,
        at + 8 <= s.len(),
        s.subrange(at, at + 8) == le64(x),
    ensures
        at64(s, at) == x,
{
    let low = (x % 4294967296) as u32;
    let high = (x / 4294967296) as u32;
    assert(s.subrange(at, at + 4) == s.subrange(at, at + 8).take(4));
    assert(le64(x).take(4) == le32(low));
    assert(s.subrange(at + 4, at + 8) == s.subrange(at, at + 8).skip(4));
    assert(le64(x).skip(4) == le32(high));
    law_le32_round_trip(s, at, low);
    law_le32_round_trip(s, at + 4, high);
}

/// Different bytes hold different numbers: four bytes are those of the number they hold.
pub proof fn law_le32_of_at32(s: Seq<u8>, at: int)
    requires
        0 <= at,
        at + 4 <= s.len(),
    ensures
        le32(at32(s, at)) == s.subrange(at, at + 4),
{
    let a = s[at] as int;
    let b = s[at + 1] as int;
    let c = s[at + 2] as int;
    let d = s[at + 3] as int;
    let v = at32(s, at) as int;
    let e = b + 256 * (c + 256 * d);
    assert(v == a + 256 * e);
    assert(v % 256 == a && v / 256 == e);
    assert(e % 256 == b && e / 256 == c + 256 * d);
    assert(v / 65536 == c + 256 * d);
    assert((c + 256 * d) % 256 == c);
    assert(v / 16777216 == d);
    assert(le32(at32(s, at)) =~= s.subrange(at, at + 4));
}

} // verus!
