//! Byte encodings of the fixed-size values that tables are built from.
//!
//! Multi-byte integers are stored little-endian. The encoding of a value is
//! a function of the value alone, and its length a function of the type
//! alone, so a table's bytes never depend on how a value lies in memory.

use vstd::prelude::*;

verus! {

/// The little-endian encoding of `x` in `n` bytes: least significant byte
/// first. Where `x` does not fit, only its low `n` bytes are encoded.
pub open spec fn le_bytes(x: nat, n: nat) -> Seq<u8>
    decreases n,
{
    if n == 0 {
        Seq::<u8>::empty()
    } else {
        seq![(x % 256) as u8] + le_bytes(x / 256, (n - 1) as nat)
    }
}

/// The number that `s` encodes, read as a little-endian integer.
pub open spec fn le_value(s: Seq<u8>) -> nat
    decreases s.len(),
{
    if s.len() == 0 {
        0
    } else {
        s[0] as nat + 256 * le_value(s.skip(1))
    }
}

/// 256 to the power of `n`: the number of values that `n` bytes can hold.
pub open spec fn byte_range(n: nat) -> nat
    decreases n,
{
    if n == 0 {
        1
    } else {
        256 * byte_range((n - 1) as nat)
    }
}

/// An encoding in `n` bytes has `n` bytes.
pub proof fn lemma_le_bytes_len(x: nat, n: nat)
    ensures
        le_bytes(x, n).len() == n,
    decreases n,
{
    if n > 0 {
        lemma_le_bytes_len(x / 256, (n - 1) as nat);
    }
}

/// Decoding undoes encoding: a number that fits in `n` bytes is read back
/// unchanged from its `n`-byte encoding.
pub proof fn lemma_le_round_trip(x: nat, n: nat)
    requires
        x < byte_range(n),
    ensures
        le_value(le_bytes(x, n)) == x,
    decreases n,
{
    if n > 0 {
        let rest = le_bytes(x / 256, (n - 1) as nat);
        let s = le_bytes(x, n);
        lemma_le_round_trip(x / 256, (n - 1) as nat);
        assert(s.skip(1) =~= rest);
        assert(s[0] == (x % 256) as u8);
    }
}

/// The ranges of the four integer widths that tables use.
pub proof fn lemma_byte_ranges()
    ensures
        byte_range(1) == 0x100,
        byte_range(2) == 0x1_0000,
        byte_range(4) == 0x1_0000_0000,
        byte_range(8) == 0x1_0000_0000_0000_0000,
{
    reveal_with_fuel(byte_range, 9);
}

/// Appends the `n`-byte little-endian encoding of `value` to `out`.
pub fn push_le(out: &mut Vec<u8>, value: u64, n: usize)
    ensures
        final(out)@ == old(out)@ + le_bytes(value as nat, n as nat),
{
    let mut rest: u64 = value;
    let mut i: usize = 0;
    proof {
        assert(old(out)@ + le_bytes(value as nat, 0) =~= old(out)@);
    }
    while i < n
        invariant
            i <= n,
            out@ + le_bytes(rest as nat, (n - i) as nat) == old(out)@ + le_bytes(
                value as nat,
                n as nat,
            ),
        decreases n - i,
    {
        let ghost before = out@;
        let low: u8 = (rest % 256) as u8;
        out.push(low);
        proof {
            let tail = le_bytes((rest / 256) as nat, (n - i - 1) as nat);
            assert(le_bytes(rest as nat, (n - i) as nat) == seq![low] + tail);
            assert(before.push(low) + tail =~= before + (seq![low] + tail));
        }
        rest = rest / 256;
        i += 1;
    }
    proof {
        assert(out@ + le_bytes(rest as nat, 0) =~= out@);
    }
}

/// A value with a fixed-size byte encoding, which can be stored in a table.
///
/// The size is a property of the type, the encoding a property of the value;
/// both are stated here so that what a write puts into a table is known
/// exactly.
pub trait FixedBytes: Sized {
    /// The number of bytes that every value of the type encodes to.
    spec fn encoded_size() -> nat;

    /// The bytes that the value encodes to.
    spec fn encoding(&self) -> Seq<u8>;

    /// Every encoding has the size of its type.
    proof fn lemma_encoding_len(&self)
        ensures
            self.encoding().len() == Self::encoded_size(),
    ;

    /// The size of the type's encoding, in bytes.
    fn size() -> (n: usize)
        ensures
            n == Self::encoded_size(),
    ;

    /// The value's encoding.
    fn to_bytes(&self) -> (out: Vec<u8>)
        ensures
            out@ == self.encoding(),
    ;
}

impl FixedBytes for u8 {
    open spec fn encoded_size() -> nat {
        1
    }

    open spec fn encoding(&self) -> Seq<u8> {
        le_bytes(*self as nat, 1)
    }

    proof fn lemma_encoding_len(&self) {
        lemma_le_bytes_len(*self as nat, 1);
    }

    fn size() -> (n: usize) {
        1
    }

    fn to_bytes(&self) -> (out: Vec<u8>) {
        let mut out: Vec<u8> = Vec::new();
        push_le(&mut out, *self as u64, 1);
        out
    }
}

impl FixedBytes for u16 {
    open spec fn encoded_size() -> nat {
        2
    }

    open spec fn encoding(&self) -> Seq<u8> {
        le_bytes(*self as nat, 2)
    }

    proof fn lemma_encoding_len(&self) {
        lemma_le_bytes_len(*self as nat, 2);
    }

    fn size() -> (n: usize) {
        2
    }

    fn to_bytes(&self) -> (out: Vec<u8>) {
        let mut out: Vec<u8> = Vec::new();
        push_le(&mut out, *self as u64, 2);
        out
    }
}

impl FixedBytes for u32 {
    open spec fn encoded_size() -> nat {
        4
    }

    open spec fn encoding(&self) -> Seq<u8> {
        le_bytes(*self as nat, 4)
    }

    proof fn lemma_encoding_len(&self) {
        lemma_le_bytes_len(*self as nat, 4);
    }

    fn size() -> (n: usize) {
        4
    }

    fn to_bytes(&self) -> (out: Vec<u8>) {
        let mut out: Vec<u8> = Vec::new();
        push_le(&mut out, *self as u64, 4);
        out
    }
}

impl FixedBytes for u64 {
    open spec fn encoded_size() -> nat {
        8
    }

    open spec fn encoding(&self) -> Seq<u8> {
        le_bytes(*self as nat, 8)
    }

    proof fn lemma_encoding_len(&self) {
        lemma_le_bytes_len(*self as nat, 8);
    }

    fn size() -> (n: usize) {
        8
    }

    fn to_bytes(&self) -> (out: Vec<u8>) {
        let mut out: Vec<u8> = Vec::new();
        push_le(&mut out, *self, 8);
        out
    }
}

} // verus!
