//! Varint encoders.
//!
//! A value is split into 7-bit groups, one per lane of a 16-byte register
//! (*stage 1*); the meaningful lanes are counted by finding the highest
//! non-zero lane (an all-zero value still takes one lane); and the
//! continuation bit is set on every meaningful lane but the last.  The
//! encoder is infallible and always emits the minimal encoding.

use vstd::prelude::*;

use crate::model::{
    encoded_len, encoding_byte, group_of, is_encoding16, lemma_encoded_len_le,
    lemma_encoded_len_pos, lemma_group_of_zero, lemma_last_group_pos, lemma_pow2_le, zigzag_spec,
};
use crate::num::{SignedVarIntTarget, VarIntTarget};

verus! {

/// Encodes a single number to a varint.
///
/// Produces a tuple, with the encoded data followed by the number of bytes
/// used to encode the varint.  Bytes after the encoding are zero.
pub fn encode<T: VarIntTarget>(num: T) -> (r: ([u8; 16], u8))
    ensures
        is_encoding16(r.0@, num.as_nat()),
        r.1 as nat == encoded_len(num.as_nat()),
{
    encode_unsafe(num)
}

/// Convenience function for encoding a single signed integer in ZigZag
/// format to a varint.  See also: [`encode`].
pub fn encode_zigzag<T: SignedVarIntTarget>(num: T) -> (r: ([u8; 16], u8))
    ensures
        is_encoding16(r.0@, zigzag_spec(num.as_int())),
        r.1 as nat == encoded_len(zigzag_spec(num.as_int())),
{
    encode_unsafe(T::zigzag(num))
}

/// Encodes a single number to a varint, and writes the resulting data to
/// the slice.  Returns the number of bytes written (maximum 10 bytes).
///
/// The slice must have room for the encoding; bytes after it are left
/// unchanged.  See also: [`encode`].
pub fn encode_to_slice<T: VarIntTarget>(num: T, slice: &mut [u8]) -> (r: u8)
    requires
        old(slice)@.len() >= encoded_len(num.as_nat()),
    ensures
        r as nat == encoded_len(num.as_nat()),
        final(slice)@.len() == old(slice)@.len(),
        forall|i: int| 0 <= i < r ==> final(slice)@[i] == encoding_byte(num.as_nat(), i),
        forall|i: int| r <= i < final(slice)@.len() ==> final(slice)@[i] == old(slice)@[i],
{
    let (data, size) = encode(num);
    proof {
        T::lemma_width();
        T::lemma_as_nat_bound(num);
        lemma_pow2_le(T::spec_bits(), (7 * T::spec_max_varint_bytes()) as nat);
        lemma_encoded_len_le(num.as_nat(), T::spec_max_varint_bytes() as int);
    }
    let mut j: usize = 0;
    while j < size as usize
        invariant
            j <= size as usize,
            size as nat == encoded_len(num.as_nat()),
            is_encoding16(data@, num.as_nat()),
            size <= 16,
            slice@.len() == old(slice)@.len() >= size,
            forall|i: int| 0 <= i < j ==> slice@[i] == encoding_byte(num.as_nat(), i),
            forall|i: int| j <= i < slice@.len() ==> slice@[i] == old(slice)@[i],
        decreases size as usize - j,
    {
        slice[j] = data[j];
        j += 1;
    }
    size
}

/// Encodes a single number to a varint, building the 16-byte register
/// directly.  The checked entry points wrap this window-level routine.
///
/// Produces a tuple, with the encoded data followed by the number of bytes
/// used to encode the varint.
pub fn encode_unsafe<T: VarIntTarget>(num: T) -> (r: ([u8; 16], u8))
    ensures
        is_encoding16(r.0@, num.as_nat()),
        r.1 as nat == encoded_len(num.as_nat()),
{
    let stage1 = num.num_to_vector_stage1();
    // Count the meaningful lanes: one past the highest non-zero lane, and
    // at least one even for an all-zero value.
    let mut bytes: usize = 1;
    let mut i: usize = 1;
    while i < 16
        invariant
            1 <= bytes <= i <= 16,
            forall|j: int| bytes <= j < i ==> stage1@[j] == 0,
            stage1@[bytes - 1] != 0 || bytes == 1,
            forall|j: int| 0 <= j < 16 ==> stage1@[j] as nat == group_of(num.as_nat(), j),
        decreases 16 - i,
    {
        if stage1[i] != 0 {
            bytes = i + 1;
        }
        i += 1;
    }
    proof {
        let v = num.as_nat();
        T::lemma_width();
        T::lemma_as_nat_bound(num);
        lemma_pow2_le(T::spec_bits(), (7 * T::spec_max_varint_bytes()) as nat);
        lemma_encoded_len_le(v, T::spec_max_varint_bytes() as int);
        lemma_encoded_len_pos(v);
        let ll = encoded_len(v) as int;
        lemma_encoded_len_le(v, ll);
        lemma_group_of_zero(v, ll);
        if v > 0 {
            lemma_last_group_pos(v);
            assert(stage1@[ll - 1] != 0);
        } else {
            vstd::arithmetic::power2::lemma2_to64();
            lemma_group_of_zero(v, 0);
        }
        assert(bytes as int == ll);
    }
    let mut out = [0u8; 16];
    let mut j: usize = 0;
    while j < bytes - 1
        invariant
            1 <= bytes <= 16,
            bytes as nat == encoded_len(num.as_nat()),
            j <= bytes - 1,
            forall|k: int| 0 <= k < 16 ==> stage1@[k] as nat == group_of(num.as_nat(), k),
            forall|k: int| 0 <= k < j ==> out@[k] as nat == encoding_byte(num.as_nat(), k),
            forall|k: int| j <= k < 16 ==> out@[k] == 0,
        decreases bytes - 1 - j,
    {
        let s = stage1[j];
        proof {
            assert(s < 128 ==> (s | 0x80) == s + 128) by (bit_vector);
        }
        out[j] = s | 0x80;
        j += 1;
    }
    out[bytes - 1] = stage1[bytes - 1];
    (out, bytes as u8)
}

} // verus!
