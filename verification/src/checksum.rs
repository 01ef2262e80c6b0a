//! The one-byte wraparound checksum carried by every table.
//!
//! A table is valid when the sum of all of its bytes is a multiple of 256.
//! The checksum byte is the value that brings the sum of the other bytes to
//! such a multiple.

use vstd::prelude::*;

verus! {

/// The sum of all bytes of `s`, as an unbounded integer.
pub open spec fn byte_sum(s: Seq<u8>) -> int
    decreases s.len(),
{
    if s.len() == 0 {
        0
    } else {
        byte_sum(s.drop_last()) + s.last() as int
    }
}

/// The bytes of `s` add up to zero modulo 256.
pub open spec fn sums_to_zero(s: Seq<u8>) -> bool {
    byte_sum(s) % 256 == 0
}

/// The byte that brings a running sum of `sum` to a multiple of 256.
pub open spec fn complement(sum: int) -> u8 {
    ((256 - sum % 256) % 256) as u8
}

/// The checksum of `s`: the byte which, appended to `s`, makes the whole sum
/// to zero modulo 256.
pub open spec fn checksum_of(s: Seq<u8>) -> u8 {
    complement(byte_sum(s))
}

/// `s` with the byte at `at` replaced by the checksum of the other bytes.
pub open spec fn with_checksum(s: Seq<u8>, at: int) -> Seq<u8>
    recommends
        0 <= at < s.len(),
{
    s.update(at, checksum_of(s.update(at, 0u8)))
}

/// Replacing one byte changes the sum by the difference of the two bytes.
pub proof fn lemma_byte_sum_update(s: Seq<u8>, i: int, v: u8)
    requires
        0 <= i < s.len(),
    ensures
        byte_sum(s.update(i, v)) == byte_sum(s) - s[i] as int + v as int,
    decreases s.len(),
{
    if i == s.len() - 1 {
        assert(s.update(i, v).drop_last() =~= s.drop_last());
    } else {
        lemma_byte_sum_update(s.drop_last(), i, v);
        assert(s.update(i, v).drop_last() =~= s.drop_last().update(i, v));
    }
}

/// Storing the checksum makes the table valid: whatever the bytes of `s` and
/// wherever the checksum byte sits, the result sums to zero modulo 256.
pub proof fn lemma_with_checksum_sums_to_zero(s: Seq<u8>, at: int)
    requires
        0 <= at < s.len(),
    ensures
        sums_to_zero(with_checksum(s, at)),
        with_checksum(s, at).len() == s.len(),
{
    let cleared = s.update(at, 0u8);
    let c = checksum_of(cleared);
    lemma_byte_sum_update(cleared, at, c);
    assert(cleared.update(at, c) =~= s.update(at, c));
}

/// The checksum byte of a valid table is determined by the other bytes:
/// storing the checksum again changes nothing.
pub proof fn lemma_with_checksum_fixed_point(s: Seq<u8>, at: int)
    requires
        0 <= at < s.len(),
        sums_to_zero(s),
    ensures
        with_checksum(s, at) == s,
{
    lemma_byte_sum_update(s, at, 0u8);
    assert(s.update(at, s[at]) =~= s);
}

/// Computes the checksum of `data`: the byte whose addition makes the
/// wrapping sum of all bytes zero.
pub fn generate_checksum(data: &[u8]) -> (c: u8)
    ensures
        c == checksum_of(data@),
        (byte_sum(data@) + c as int) % 256 == 0,
{
    let mut sum: u8 = 0;
    let mut i: usize = 0;
    while i < data.len()
        invariant
            i <= data.len(),
            sum as int == byte_sum(data@.subrange(0, i as int)) % 256,
        decreases data.len() - i,
    {
        proof {
            assert(data@.subrange(0, i + 1).drop_last() =~= data@.subrange(0, i as int));
        }
        sum = sum.wrapping_add(data[i]);
        i += 1;
    }
    proof {
        assert(data@.subrange(0, i as int) =~= data@);
    }
    (255 - sum).wrapping_add(1)
}

} // verus!
