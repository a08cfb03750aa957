//! CRC-32 (IEEE 802.3): reflected polynomial, all-ones start value, inverted result.
use vstd::prelude::*;

verus! {

/// The reflected IEEE 802.3 generator polynomial.
pub const POLY: u32 = 0xEDB88320;

/// One division step: shift the register right, and subtract the polynomial
/// when a one leaves it.
pub open spec fn crc_bit(crc: u32) -> u32 {
    if crc & 1 == 1 {
        (crc >> 1) ^ POLY
    } else {
        crc >> 1
    }
}

/// `n` division steps.
pub open spec fn crc_bits(crc: u32, n: nat) -> u32
    decreases n,
{
    if n == 0 {
        crc
    } else {
        crc_bit(crc_bits(crc, (n - 1) as nat))
    }
}

/// The register after one more input byte.
pub open spec fn crc_byte(crc: u32, byte: u8) -> u32 {
    crc_bits(crc ^ (byte as u32), 8)
}

/// The register after the bytes of `data`, from the register value `crc`.
pub open spec fn crc_update(crc: u32, data: Seq<u8>) -> u32
    decreases data.len(),
{
    if data.len() == 0 {
        crc
    } else {
        crc_byte(crc_update(crc, data.drop_last()), data.last())
    }
}

/// The checksum of `data`.
pub open spec fn crc32_spec(data: Seq<u8>) -> u32 {
    !crc_update(0xFFFF_FFFF, data)
}

/// The CRC-32 (IEEE) of the given bytes.
pub fn crc32(data: &[u8]) -> (result: u32)
    ensures
        result == crc32_spec(data@),
{
    let mut crc: u32 = 0xFFFF_FFFF;
    let mut i: usize = 0;
    while i < data.len()
        invariant
            i <= data.len(),
            crc == crc_update(0xFFFF_FFFF, data@.take(i as int)),
        decreases data.len() - i,
    {
        let ghost before = crc;
        assert(data@.take(i + 1).drop_last() == data@.take(i as int));
        crc = crc ^ (data[i] as u32);
        let ghost mixed = crc;
        let mut k: usize = 0;
        while k < 8
            invariant
                k <= 8,
                crc == crc_bits(mixed, k as nat),
            decreases 8 - k,
        {
            let mask: u32 = 0u32.wrapping_sub(crc & 1);
            proof {
                let c: u32 = crc;
                assert(c & 1 == 0 || c & 1 == 1) by (bit_vector);
                if c & 1 == 1 {
                    assert(mask == 0xFFFF_FFFF);
                    assert(0xEDB88320u32 & 0xFFFF_FFFFu32 == 0xEDB88320u32) by (bit_vector);
                } else {
                    assert(mask == 0);
                    assert((c >> 1) ^ (0xEDB88320u32 & 0u32) == c >> 1) by (bit_vector);
                }
            }
            crc = (crc >> 1) ^ (POLY & mask);
            k += 1;
        }
        assert(crc == crc_byte(before, data[i as int]));
        i += 1;
    }
    assert(data@.take(data@.len() as int) == data@);
    !crc
}

/// Feeding a message in two parts leaves the register where feeding it whole does.
pub proof fn law_crc_incremental(crc: u32, first: Seq<u8>, second: Seq<u8>)
    ensures
        crc_update(crc, first + second) == crc_update(crc_update(crc, first), second),
    decreases second.len(),
{
    if second.len() == 0 {
        assert(first + second == first);
    } else {
        law_crc_incremental(crc, first, second.drop_last());
        assert((first + second).drop_last() == first + second.drop_last());
        assert((first + second).last() == second.last());
    }
}

proof fn lemma_crc_bits_injective(a: u32, b: u32, n: nat)
    requires
        crc_bits(a, n) == crc_bits(b, n),
    ensures
        a == b,
    decreases n,
{
    if n > 0 {
        let x = crc_bits(a, (n - 1) as nat);
        let y = crc_bits(b, (n - 1) as nat);
        assert((if x & 1 == 1 { (x >> 1) ^ 0xEDB88320u32 } else { x >> 1 }) == (if y & 1 == 1 {
            (y >> 1) ^ 0xEDB88320u32
        } else {
            y >> 1
        }) ==> x == y) by (bit_vector);
        lemma_crc_bits_injective(a, b, (n - 1) as nat);
    }
}

proof fn lemma_crc_update_injective(a: u32, b: u32, data: Seq<u8>)
    requires
        crc_update(a, data) == crc_update(b, data),
    ensures
        a == b,
    decreases data.len(),
{
    if data.len() > 0 {
        let x = crc_update(a, data.drop_last());
        let y = crc_update(b, data.drop_last());
        let m = data.last() as u32;
        lemma_crc_bits_injective(x ^ m, y ^ m, 8);
        assert(x ^ m == y ^ m ==> x == y) by (bit_vector);
        lemma_crc_update_injective(a, b, data.drop_last());
    }
}

/// Changing exactly one byte of a message changes its checksum.
pub proof fn law_crc_detects_one_changed_byte(data: Seq<u8>, at: int, byte: u8)
    requires
        0 <= at < data.len(),
        data[at] != byte,
    ensures
        crc32_spec(data.update(at, byte)) != crc32_spec(data),
{
    let head = data.take(at);
    let tail = data.skip(at + 1);
    let changed = data.update(at, byte);
    assert(data == head.push(data[at]) + tail);
    assert(changed == head.push(byte) + tail);
    law_crc_incremental(0xFFFF_FFFF, head.push(data[at]), tail);
    law_crc_incremental(0xFFFF_FFFF, head.push(byte), tail);
    assert(head.push(data[at]).drop_last() == head);
    assert(head.push(byte).drop_last() == head);
    let r = crc_update(0xFFFF_FFFF, head);
    let p = crc_update(0xFFFF_FFFF, data);
    let q = crc_update(0xFFFF_FFFF, changed);
    assert(!p == !q ==> p == q) by (bit_vector);
    if p == q {
        let x = data[at] as u32;
        let y = byte as u32;
        lemma_crc_update_injective(crc_byte(r, data[at]), crc_byte(r, byte), tail);
        lemma_crc_bits_injective(r ^ x, r ^ y, 8);
        assert(r ^ x == r ^ y ==> x == y) by (bit_vector);
    }
}

} // verus!
