//! Bit fields of little-endian byte strings.
use vstd::prelude::*;

verus! {

/// Two to the power of `n`.
pub open spec fn pow2(n: nat) -> nat {
    vstd::arithmetic::power2::pow2(n)
}

/// The number that bytes hold, low byte first.
pub open spec fn le_value(b: Seq<u8>) -> nat
    decreases b.len(),
{
    if b.len() == 0 {
        0
    } else {
        le_value(b.drop_last()) + b.last() as nat * pow2((8 * (b.len() - 1)) as nat)
    }
}

/// At most the first sixteen bytes.
pub open spec fn first16(b: Seq<u8>) -> Seq<u8> {
    b.take(if b.len() <= 16 {
        b.len() as int
    } else {
        16
    })
}

/// Bits `hi` down to `lo` of a byte string, of which at most sixteen bytes count.
pub open spec fn bits_value(b: Seq<u8>, hi: nat, lo: nat) -> nat {
    le_value(first16(b)) / pow2(lo) % pow2((hi - lo + 1) as nat)
}

/// The larger of two bit numbers.
pub open spec fn bit_max(a: u8, b: u8) -> u8 {
    if a >= b {
        a
    } else {
        b
    }
}

/// The smaller of two bit numbers.
pub open spec fn bit_min(a: u8, b: u8) -> u8 {
    if a >= b {
        b
    } else {
        a
    }
}

proof fn lemma_le_value_bound(b: Seq<u8>)
    ensures
        le_value(b) < pow2((8 * b.len()) as nat),
    decreases b.len(),
{
    vstd::arithmetic::power2::lemma2_to64();
    if b.len() > 0 {
        let k = (8 * (b.len() - 1)) as nat;
        lemma_le_value_bound(b.drop_last());
        vstd::arithmetic::power2::lemma_pow2_adds(k, 8);
        let p = pow2(k);
        let x = b.last() as nat;
        assert(x * p + p <= 256 * p) by (nonlinear_arith)
            requires
                x <= 255,
        ;
        assert(pow2(8) == 256);
    }
}

/// A one shifted left is a power of two.
proof fn lemma_shl_one(n: u32)
    requires
        n < 128,
    ensures
        (1u128 << n) as nat == pow2(n as nat),
    decreases n,
{
    vstd::arithmetic::power2::lemma2_to64();
    if n == 0 {
        assert(1u128 << 0u32 == 1u128) by (bit_vector);
    } else {
        let m = (n - 1) as u32;
        lemma_shl_one(m);
        vstd::arithmetic::power2::lemma_pow2_unfold(n as nat);
        assert((1u128 << n) == 2 * (1u128 << m)) by (bit_vector)
            requires
                n < 128,
                n == m + 1,
        ;
    }
}

/// Powers of two below 2^128 fit a 128-bit integer.
proof fn lemma_pow2_fits(n: nat)
    requires
        n < 128,
    ensures
        0 < pow2(n) <= 0x8000_0000_0000_0000_0000_0000_0000_0000,
{
    lemma_shl_one(n as u32);
    vstd::arithmetic::power2::lemma_pow2_pos(n);
    let k = n as u32;
    assert(k < 128 ==> (1u128 << k) <= 0x8000_0000_0000_0000_0000_0000_0000_0000u128)
        by (bit_vector);
}

/// The number that at most the first sixteen bytes hold.
pub fn le_u128(bytes: &[u8]) -> (raw: u128)
    ensures
        raw as nat == le_value(first16(bytes@)),
{
    let n: usize = if bytes.len() <= 16 {
        bytes.len()
    } else {
        16
    };
    let mut raw: u128 = 0;
    let mut i: usize = 0;
    while i < n
        invariant
            i <= n <= 16,
            n <= bytes.len(),
            raw as nat == le_value(bytes@.take(i as int)),
        decreases n - i,
    {
        let shift: u32 = 8 * i as u32;
        proof {
            lemma_shl_one(shift);
            let next = bytes@.take(i + 1);
            assert(next.drop_last() =~= bytes@.take(i as int));
            assert(next.last() == bytes@[i as int]);
            lemma_le_value_bound(next);
            if i == 15 {
                lemma_pow2_fits(127);
                vstd::arithmetic::power2::lemma_pow2_unfold(128);
            } else {
                lemma_pow2_fits((8 * (i + 1)) as nat);
            }
        }
        let weight: u128 = 1u128 << shift;
        let b: u128 = bytes[i] as u128;
        assert(b * weight <= le_value(bytes@.take(i + 1))) by {
            assert(b * weight == bytes@[i as int] as nat * pow2((8 * i) as nat));
        }
        raw = raw + b * weight;
        i += 1;
    }
    raw
}

/// Bits `hi` down to `lo` of `raw`.
pub fn bits_of(raw: u128, hi: u8, lo: u8) -> (v: u128)
    requires
        lo <= hi,
        lo < 128,
    ensures
        v as nat == raw as nat / pow2(lo as nat) % pow2((hi - lo + 1) as nat),
{
    let shifted: u128 = raw >> (lo as u32);
    proof {
        vstd::bits::lemma_u128_shr_is_div(raw, lo as u128);
        let l: u8 = lo;
        assert(raw >> (l as u32) == raw >> (l as u128)) by (bit_vector);
    }
    let width: u32 = hi as u32 - lo as u32 + 1;
    if width >= 128 {
        proof {
            lemma_pow2_fits(127);
            vstd::arithmetic::power2::lemma_pow2_unfold(128);
            if width > 128 {
                vstd::arithmetic::power2::lemma_pow2_strictly_increases(128, width as nat);
            }
            lemma_shl_one(127);
            assert(1u128 << 127u32 == 0x8000_0000_0000_0000_0000_0000_0000_0000u128)
                by (bit_vector);
            vstd::arithmetic::div_mod::lemma_small_mod(shifted as nat, pow2(width as nat));
        }
        shifted
    } else {
        proof {
            lemma_shl_one(width);
            lemma_pow2_fits(width as nat);
        }
        shifted % (1u128 << width)
    }
}

/// Whether the bits that a field names can be taken out of a 128-bit number.
pub open spec fn field_in_range(bit_hi: u8, bit_lo: u8) -> bool {
    bit_min(bit_hi, bit_lo) < 128 && bit_max(bit_hi, bit_lo) - bit_min(bit_hi, bit_lo) < 255
}

/// The value of a field, where there are enough bytes for its first bit number.
pub open spec fn extracted(bytes: Seq<u8>, bit_hi: u8, bit_lo: u8) -> Option<u128> {
    if bytes.len() < bit_hi / 8 + 1 {
        None
    } else {
        Some(
            bits_value(
                bytes,
                bit_max(bit_hi, bit_lo) as nat,
                bit_min(bit_hi, bit_lo) as nat,
            ) as u128,
        )
    }
}

/// The value of a field, where there are enough bytes for all its bits.
pub open spec fn field_bits(bytes: Seq<u8>, bit_hi: u8, bit_lo: u8) -> Option<u128> {
    if bytes.len() < bit_max(bit_hi, bit_lo) / 8 + 1 {
        None
    } else {
        Some(
            bits_value(
                bytes,
                bit_max(bit_hi, bit_lo) as nat,
                bit_min(bit_hi, bit_lo) as nat,
            ) as u128,
        )
    }
}

fn ordered_bits(bytes: &[u8], bit_hi: u8, bit_lo: u8) -> (v: u128)
    requires
        field_in_range(bit_hi, bit_lo),
    ensures
        v == bits_value(
            bytes@,
            bit_max(bit_hi, bit_lo) as nat,
            bit_min(bit_hi, bit_lo) as nat,
        ) as u128,
{
    let raw: u128 = le_u128(bytes);
    let v: u128 = if bit_hi >= bit_lo {
        bits_of(raw, bit_hi, bit_lo)
    } else {
        bits_of(raw, bit_lo, bit_hi)
    };
    v
}

/// The value of a field, where there are enough bytes for its first bit number.
pub fn extract_field(bytes: &[u8], bit_hi: u8, bit_lo: u8) -> (v: Option<u128>)
    requires
        bytes.len() >= bit_hi / 8 + 1 ==> field_in_range(bit_hi, bit_lo),
    ensures
        v == extracted(bytes@, bit_hi, bit_lo),
{
    let need: usize = bit_hi as usize / 8 + 1;
    if bytes.len() < need {
        None
    } else {
        Some(ordered_bits(bytes, bit_hi, bit_lo))
    }
}

/// The value of a field, where there are enough bytes for all its bits.
pub fn field_value(bytes: &[u8], bit_hi: u8, bit_lo: u8) -> (v: Option<u128>)
    requires
        bytes.len() >= bit_max(bit_hi, bit_lo) / 8 + 1 ==> field_in_range(bit_hi, bit_lo),
    ensures
        v == field_bits(bytes@, bit_hi, bit_lo),
{
    let hi: u8 = if bit_hi >= bit_lo {
        bit_hi
    } else {
        bit_lo
    };
    let need: usize = hi as usize / 8 + 1;
    if bytes.len() < need {
        None
    } else {
        Some(ordered_bits(bytes, bit_hi, bit_lo))
    }
}

/// A field's value has no more bits than the field.
pub proof fn law_field_value_bound(bytes: Seq<u8>, hi: nat, lo: nat)
    requires
        lo <= hi,
    ensures
        bits_value(bytes, hi, lo) < pow2((hi - lo + 1) as nat),
{
    vstd::arithmetic::power2::lemma_pow2_pos((hi - lo + 1) as nat);
}

proof fn lemma_bit_of_bytes(b: Seq<u8>, m: nat)
    ensures
        m < 8 * b.len() ==> (le_value(b) / pow2(m)) % 2 == (b[m as int / 8] as nat / pow2(m % 8))
            % 2,
        m >= 8 * b.len() ==> le_value(b) / pow2(m) == 0,
    decreases b.len(),
{
    vstd::arithmetic::power2::lemma_pow2_pos(m);
    lemma_le_value_bound(b);
    if m >= 8 * b.len() {
        if m > 8 * b.len() {
            vstd::arithmetic::power2::lemma_pow2_strictly_increases((8 * b.len()) as nat, m);
        }
        vstd::arithmetic::div_mod::lemma_basic_div(le_value(b) as int, pow2(m) as int);
    } else {
        let less = b.drop_last();
        let k = (8 * (b.len() - 1)) as nat;
        let low = le_value(less) as int;
        let x = b.last() as int;
        lemma_le_value_bound(less);
        vstd::arithmetic::power2::lemma_pow2_pos(k);
        let p = pow2(k) as int;
        if m >= k {
            let j = (m - k) as nat;
            let q = pow2(j) as int;
            vstd::arithmetic::power2::lemma_pow2_pos(j);
            vstd::arithmetic::power2::lemma_pow2_adds(k, j);
            vstd::arithmetic::div_mod::lemma_div_denominator(le_value(b) as int, p, q);
            vstd::arithmetic::div_mod::lemma_div_multiples_vanish_fancy(x, low, p);
            assert(p * x + low == low + x * p) by (nonlinear_arith);
            assert(le_value(b) as int / p == x);
            assert(m % 8 == j && m as int / 8 == b.len() - 1);
        } else {
            lemma_bit_of_bytes(less, m);
            let j = (k - m) as nat;
            let r = pow2(m) as int;
            vstd::arithmetic::power2::lemma_pow2_adds(m, j);
            vstd::arithmetic::power2::lemma_pow2_unfold(j);
            let h = pow2((j - 1) as nat) as int;
            assert(x * p == r * (2 * (x * h))) by (nonlinear_arith)
                requires
                    p == r * (2 * h),
            ;
            assert(pow2(m) * pow2(j) == pow2(k));
            assert(p == r * (2 * h));
            let y = 2 * (x * h);
            vstd::arithmetic::div_mod::lemma_hoist_over_denominator(low, y, r as nat);
            assert(y * r == r * y) by (nonlinear_arith);
            assert((low + y * r) / r == low / r + y);
            let z = x * h;
            assert((low / r + 2 * z) % 2 == (low / r) % 2) by {
                vstd::arithmetic::div_mod::lemma_mod_multiples_vanish(z, low / r, 2);
            }
            assert(b[m as int / 8] == less[m as int / 8]);
        }
    }
}

proof fn lemma_bit_of_part(x: nat, lo: nat, w: nat, j: nat)
    requires
        j < w,
    ensures
        (x / pow2(lo) % pow2(w)) / pow2(j) % 2 == x / pow2(lo + j) % 2,
{
    let y = (x / pow2(lo)) as int;
    let a = pow2(j) as int;
    let c = pow2((w - j) as nat) as int;
    vstd::arithmetic::power2::lemma_pow2_pos(lo);
    vstd::arithmetic::power2::lemma_pow2_pos(j);
    vstd::arithmetic::power2::lemma_pow2_pos((w - j) as nat);
    vstd::arithmetic::power2::lemma_pow2_pos(w);
    vstd::arithmetic::power2::lemma_pow2_adds(j, (w - j) as nat);
    vstd::arithmetic::power2::lemma_pow2_adds(lo, j);
    vstd::arithmetic::div_mod::lemma_div_denominator(x as int, pow2(lo) as int, a);
    vstd::arithmetic::div_mod::lemma_breakdown(y, a, c);
    // What is cut off below is `y / a % c`, whose last bit is that of `y / a`.
    let top = (y / a) % c;
    let rest = y % a;
    assert(y % (a * c) == a * top + rest);
    vstd::arithmetic::div_mod::lemma_div_multiples_vanish_fancy(top, rest, a);
    assert((y % (a * c)) / a == top);
    vstd::arithmetic::power2::lemma_pow2_unfold((w - j) as nat);
    let half = pow2((w - j - 1) as nat) as int;
    vstd::arithmetic::power2::lemma_pow2_pos((w - j - 1) as nat);
    vstd::arithmetic::div_mod::lemma_mod_mod(y / a, 2, half);
    assert(2 * half == c);
    assert(top % 2 == (y / a) % 2);
}

/// Bit `j` of the value of the field `hi` down to `lo` is bit `lo + j` of the bytes: bit
/// `(lo + j) % 8` of byte `(lo + j) / 8`. Behind the bytes, of which sixteen count, the bits are
/// zero, and the value has no bits beyond those of the field.
pub proof fn law_field_bits(bytes: Seq<u8>, hi: nat, lo: nat, j: nat)
    requires
        lo <= hi,
        j <= hi - lo,
    ensures
        ({
            let bit = bits_value(bytes, hi, lo) / vstd::arithmetic::power2::pow2(j) % 2;
            let at = (lo + j) as int;
            &&& at < 8 * bytes.len() && at < 128 ==> bit == bytes[at / 8] as nat
                / vstd::arithmetic::power2::pow2((at % 8) as nat) % 2
            &&& at >= 8 * bytes.len() || at >= 128 ==> bit == 0
            &&& bits_value(bytes, hi, lo) < vstd::arithmetic::power2::pow2((hi - lo + 1) as nat)
        }),
{
    let b = first16(bytes);
    law_field_value_bound(bytes, hi, lo);
    lemma_bit_of_part(le_value(b), lo, (hi - lo + 1) as nat, j);
    lemma_bit_of_bytes(b, lo + j);
}

/// The value of a field is the same whichever of its ends is named first. There is one exactly
/// where the bytes reach its last bit, and it is the number that its bits hold.
pub proof fn law_field_is_its_bits(bytes: Seq<u8>, bit_hi: u8, bit_lo: u8)
    requires
        bit_lo <= bit_hi,
        bit_lo < 128,
    ensures
        field_bits(bytes, bit_hi, bit_lo) == field_bits(bytes, bit_lo, bit_hi),
        field_bits(bytes, bit_hi, bit_lo) is Some <==> 8 * bytes.len() > bit_hi,
        field_bits(bytes, bit_hi, bit_lo) matches Some(v) ==> v == bits_value(
            bytes,
            bit_hi as nat,
            bit_lo as nat,
        ),
        extracted(bytes, bit_hi, bit_lo) == field_bits(bytes, bit_hi, bit_lo),
        extracted(bytes, bit_lo, bit_hi) is Some <==> 8 * bytes.len() > bit_lo,
        extracted(bytes, bit_lo, bit_hi) matches Some(v) ==> v == bits_value(
            bytes,
            bit_hi as nat,
            bit_lo as nat,
        ),
{
    let b = first16(bytes);
    let lo = bit_lo as nat;
    lemma_le_value_bound(b);
    lemma_pow2_fits(127);
    vstd::arithmetic::power2::lemma_pow2_unfold(128);
    if 8 * b.len() < 128 {
        vstd::arithmetic::power2::lemma_pow2_strictly_increases((8 * b.len()) as nat, 128);
    }
    vstd::arithmetic::power2::lemma_pow2_pos(lo);
    let w = (bit_hi - bit_lo + 1) as nat;
    vstd::arithmetic::power2::lemma_pow2_pos(w);
    let x = le_value(b) as int;
    vstd::arithmetic::div_mod::lemma_div_is_ordered_by_denominator(x, 1, pow2(lo) as int);
    assert(x / 1 == x);
    vstd::arithmetic::div_mod::lemma_mod_decreases((x / pow2(lo) as int) as nat, pow2(w));
    lemma_shl_one(127);
    assert(1u128 << 127u32 == 0x8000_0000_0000_0000_0000_0000_0000_0000u128) by (bit_vector);
}

/// The field from bit zero to the last bit of up to sixteen bytes is the whole number: the sum of
/// the bytes, each weighed by its place.
pub proof fn law_whole_field(bytes: Seq<u8>)
    requires
        0 < bytes.len() <= 16,
    ensures
        bits_value(bytes, (8 * bytes.len() - 1) as nat, 0) == le_value(bytes),
        le_value(seq![bytes[0]]) == bytes[0],
        le_value(bytes) == le_value(bytes.drop_last()) + bytes.last() as nat
            * vstd::arithmetic::power2::pow2((8 * (bytes.len() - 1)) as nat),
{
    assert(first16(bytes) =~= bytes);
    lemma_le_value_bound(bytes);
    vstd::arithmetic::power2::lemma2_to64();
    assert(le_value(bytes) / pow2(0) == le_value(bytes));
    vstd::arithmetic::div_mod::lemma_small_mod(le_value(bytes), pow2((8 * bytes.len()) as nat));
    let one = seq![bytes[0]];
    assert(one.drop_last() =~= Seq::<u8>::empty());
    assert(le_value(one.drop_last()) == 0);
    assert(one.last() as nat * pow2(0) == one.last()) by (nonlinear_arith)
        requires
            pow2(0) == 1,
    ;
}

/// A field whose first bit number lies within the bytes has a value, also where it is written the
/// other way round and its larger number lies beyond them: the bits beyond them count as zero.
pub proof fn law_extracted_field(bytes: Seq<u8>, bit_hi: u8, bit_lo: u8)
    requires
        bit_lo <= bit_hi,
        bit_lo < 128,
    ensures
        extracted(bytes, bit_hi, bit_lo) == field_bits(bytes, bit_hi, bit_lo),
        extracted(bytes, bit_hi, bit_lo) is Some <==> 8 * bytes.len() > bit_hi,
        extracted(bytes, bit_lo, bit_hi) is Some <==> 8 * bytes.len() > bit_lo,
        extracted(bytes, bit_lo, bit_hi) matches Some(v) ==> v == bits_value(
            bytes,
            bit_hi as nat,
            bit_lo as nat,
        ),
{
    lemma_le_value_bound(first16(bytes));
    let x = le_value(first16(bytes)) as int;
    let p = pow2(bit_lo as nat) as int;
    let q = pow2((bit_hi - bit_lo + 1) as nat) as int;
    vstd::arithmetic::power2::lemma_pow2_pos(bit_lo as nat);
    vstd::arithmetic::power2::lemma_pow2_pos((bit_hi - bit_lo + 1) as nat);
    assert(0 <= x / p % q <= x) by (nonlinear_arith)
        requires
            x >= 0,
            p > 0,
            q > 0,
    ;
    let n = (8 * first16(bytes).len()) as nat;
    if n < 128 {
        vstd::arithmetic::power2::lemma_pow2_strictly_increases(n, 128);
    }
    lemma_pow2_fits(127);
    lemma_shl_one(127);
    assert(pow2(127) == 0x8000_0000_0000_0000_0000_0000_0000_0000) by {
        assert(1u128 << 127u32 == 0x8000_0000_0000_0000_0000_0000_0000_0000u128) by (bit_vector);
    }
    vstd::arithmetic::power2::lemma_pow2_unfold(128);
}

} // verus!
