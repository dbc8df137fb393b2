//! Varint decoders.
//!
//! The window-level decoders read a fixed 16- or 32-byte window: varint
//! boundaries come from the continuation-bit pattern of the window, and
//! values from gathering the surviving 7-bit lanes.  They never fail;
//! malformed input yields a truncated or desynchronized — but fully
//! specified — result.  The checked entry points ([`decode`],
//! [`decode_len`], [`decode_zigzag`]) accept slices of any length, pad
//! short inputs with zeros, and turn over-long or cut-off varints into
//! [`VarIntDecodeError`] values.

use vstd::prelude::*;
use vstd::arithmetic::power2::pow2;

use crate::model::{
    gather, gather_wrap16, has_cont, lemma_gather_lanes_congruence, lemma_gather_lanes_mod,
    lemma_gather_lanes_zero_tail, lemma_term_index_congruence, lemma_term_index_from_scan,
    term_index, unzigzag_spec, varint_len, varint_len_tail32, wbyte, window_lane, wrap16_lane,
};
use crate::lookup::{
    continuation_mask, double_table_lengths, lemma_pat_term_matches, pat_cont, quad_table_entry,
};
use crate::num::{SignedVarIntTarget, VarIntTarget};
use crate::VarIntDecodeError;

verus! {

/// Length the 16-byte cascade reports for the varint at the start of `s`,
/// capped at the span of the window the width's decoder reads: 8 bytes for
/// widths whose varints fit a 64-bit word, 16 otherwise.
pub open spec fn raw_decode_len<T: VarIntTarget>(s: Seq<u8>) -> int {
    let cap: int = if T::spec_max_varint_bytes() <= 5 {
        8
    } else {
        16
    };
    if term_index(s, 16, 0) + 1 <= cap {
        term_index(s, 16, 0) + 1
    } else {
        cap
    }
}

/// The outcome the checked decoder owes for input `s`: the decoded value
/// and consumed length, or the error, exactly as [`decode`] reports them.
pub open spec fn decode_spec<T: VarIntTarget>(s: Seq<u8>) -> Result<
    (nat, int),
    VarIntDecodeError,
> {
    let len = raw_decode_len::<T>(s);
    let n = T::spec_max_varint_bytes() as int;
    if s.len() == 0 {
        Err(VarIntDecodeError::NotEnoughBytes)
    } else if (s.len() >= n && s[n - 1] > T::spec_max_last_varint_byte() && len == n) || len > n {
        Err(VarIntDecodeError::Overflow)
    } else if len > s.len() {
        Err(VarIntDecodeError::NotEnoughBytes)
    } else {
        Ok((gather(s, 16, 0, len) % pow2(T::spec_bits()), len))
    }
}

/// Scans the `l`-byte window loaded from `bytes` for the first terminating
/// byte at or after `start`; reports `l` when every remaining byte
/// continues.
fn scan_term(bytes: &[u8], start: usize, l: usize) -> (t: usize)
    requires
        l <= bytes@.len(),
        start <= l,
    ensures
        t as int == term_index(bytes@, l as int, start as int),
        start <= t <= l,
{
    let mut i = start;
    while i < l
        invariant
            start <= i <= l,
            l <= bytes@.len(),
            forall|j: int| start <= j < i ==> has_cont(#[trigger] wbyte(bytes@, l as int, j)),
        decreases l - i,
    {
        if bytes[i] < 0x80 {
            proof {
                lemma_term_index_from_scan(bytes@, l as int, start as int, i as int);
            }
            return i;
        }
        i += 1;
    }
    proof {
        lemma_term_index_from_scan(bytes@, l as int, start as int, l as int);
    }
    l
}

/// Decodes a single varint from the start of a 16-byte window.  Returns the
/// decoded number and the number of bytes read.
///
/// The slice must hold at least 16 bytes; the checked [`decode`] pads
/// shorter inputs before calling this routine.  Any data after the varint
/// is ignored.  A truncated value is returned if the varint represents a
/// number too large for the target type, and a varint that overruns the
/// span of the window the width reads is cut off at it; [`decode`] turns
/// both into errors.
pub fn decode_unsafe<T: VarIntTarget>(bytes: &[u8]) -> (r: (T, usize))
    requires
        bytes@.len() >= 16,
    ensures
        r.1 as int == raw_decode_len::<T>(bytes@),
        r.0.as_nat() == gather(bytes@, 16, 0, r.1 as int) % pow2(T::spec_bits()),
{
    let cap: usize = if T::max_varint_bytes() <= 5 {
        8
    } else {
        16
    };
    let t = scan_term(bytes, 0, 16);
    let len = if t + 1 <= cap {
        t + 1
    } else {
        cap
    };
    let mut masked = [0u8; 16];
    let mut i: usize = 0;
    while i < len
        invariant
            i <= len <= 16,
            bytes@.len() >= 16,
            forall|j: int| 0 <= j < i ==> masked@[j] == bytes@[j],
            forall|j: int| i <= j < 16 ==> masked@[j] == 0,
        decreases len - i,
    {
        masked[i] = bytes[i];
        i += 1;
    }
    let num = T::vector_to_num(masked);
    proof {
        let fm = window_lane(masked@, 16, 0);
        let fb = window_lane(bytes@, 16, 0);
        assert forall|j: int| len <= j < 16 implies #[trigger] fm(j) == 0 by {}
        lemma_gather_lanes_zero_tail(fm, 16, len as int);
        assert forall|j: int| 0 <= j < len implies #[trigger] fm(j) == fb(j) by {}
        lemma_gather_lanes_congruence(fm, fb, len as int);
    }
    (num, len)
}

/// Decodes only the length of the varint at the start of a 16-byte window.
///
/// The slice must hold at least 16 bytes, as for [`decode_unsafe`].
pub fn decode_len_unsafe<T: VarIntTarget>(bytes: &[u8]) -> (r: usize)
    requires
        bytes@.len() >= 16,
    ensures
        r as int == raw_decode_len::<T>(bytes@),
{
    let cap: usize = if T::max_varint_bytes() <= 5 {
        8
    } else {
        16
    };
    let t = scan_term(bytes, 0, 16);
    if t + 1 <= cap {
        t + 1
    } else {
        cap
    }
}

/// Decodes a single varint from the input slice.
///
/// Produces a tuple containing the decoded number and the number of bytes
/// read, or an error: `NotEnoughBytes` when the slice is empty or the
/// varint claims more bytes than the slice holds, `Overflow` when the
/// varint does not fit the target type.
pub fn decode<T: VarIntTarget>(bytes: &[u8]) -> (r: Result<(T, usize), VarIntDecodeError>)
    ensures
        r matches Ok(p) ==> decode_spec::<T>(bytes@) == Ok::<(nat, int), VarIntDecodeError>(
            (p.0.as_nat(), p.1 as int),
        ),
        r matches Err(e) ==> decode_spec::<T>(bytes@) == Err::<(nat, int), VarIntDecodeError>(e),
{
    let n_bytes = bytes.len();
    let result: (T, usize);
    if n_bytes >= 16 {
        result = decode_unsafe::<T>(bytes);
    } else if n_bytes > 0 {
        let mut data = [0u8; 16];
        let mut i: usize = 0;
        while i < n_bytes
            invariant
                i <= n_bytes == bytes@.len() < 16,
                forall|j: int| 0 <= j < i ==> data@[j] == bytes@[j],
                forall|j: int| i <= j < 16 ==> data@[j] == 0,
            decreases n_bytes - i,
        {
            data[i] = bytes[i];
            i += 1;
        }
        let padded = decode_unsafe::<T>(data.as_slice());
        proof {
            assert forall|j: int| 0 <= j < 16 implies #[trigger] wbyte(data@, 16, j) == wbyte(
                bytes@,
                16,
                j,
            ) by {}
            lemma_term_index_congruence(data@, bytes@, 16, 0);
            lemma_gather_lanes_congruence(
                window_lane(data@, 16, 0),
                window_lane(bytes@, 16, 0),
                padded.1 as int,
            );
        }
        result = padded;
    } else {
        return Err(VarIntDecodeError::NotEnoughBytes);
    }
    proof {
        T::lemma_width();
    }
    let n = T::max_varint_bytes() as usize;
    if n_bytes >= n && bytes[n - 1] > T::max_last_varint_byte() && result.1 == n || result.1 > n {
        Err(VarIntDecodeError::Overflow)
    } else if result.1 > n_bytes {
        Err(VarIntDecodeError::NotEnoughBytes)
    } else {
        Ok(result)
    }
}

/// Decodes only the length of a single varint from the input slice.
///
/// Reports `NotEnoughBytes` for an empty slice; any other input yields the
/// length the window cascade reports, with no further checks.
pub fn decode_len<T: VarIntTarget>(bytes: &[u8]) -> (r: Result<usize, VarIntDecodeError>)
    ensures
        bytes@.len() == 0 ==> r == Err::<usize, VarIntDecodeError>(
            VarIntDecodeError::NotEnoughBytes,
        ),
        bytes@.len() > 0 ==> (r matches Ok(l) && l as int == raw_decode_len::<T>(bytes@)),
{
    let n_bytes = bytes.len();
    if n_bytes >= 16 {
        Ok(decode_len_unsafe::<T>(bytes))
    } else if n_bytes > 0 {
        let mut data = [0u8; 16];
        let mut i: usize = 0;
        while i < n_bytes
            invariant
                i <= n_bytes == bytes@.len() < 16,
                forall|j: int| 0 <= j < i ==> data@[j] == bytes@[j],
                forall|j: int| i <= j < 16 ==> data@[j] == 0,
            decreases n_bytes - i,
        {
            data[i] = bytes[i];
            i += 1;
        }
        let l = decode_len_unsafe::<T>(data.as_slice());
        proof {
            assert forall|j: int| 0 <= j < 16 implies #[trigger] wbyte(data@, 16, j) == wbyte(
                bytes@,
                16,
                j,
            ) by {}
            lemma_term_index_congruence(data@, bytes@, 16, 0);
        }
        Ok(l)
    } else {
        Err(VarIntDecodeError::NotEnoughBytes)
    }
}

/// `n` capped at `c`.
pub open spec fn cap_at(n: int, c: int) -> int {
    if n <= c {
        n
    } else {
        c
    }
}

/// The element lengths a 2-way batched decode reports: the boundary cascade
/// over a 10-bit pattern when both targets fit 32 bits (the lookup-table
/// path), over the full 16-byte window otherwise.
pub open spec fn two_lens<T: VarIntTarget, U: VarIntTarget>(s: Seq<u8>) -> (int, int) {
    let l: int = if T::spec_max_varint_bytes() <= 5 && U::spec_max_varint_bytes() <= 5 {
        10
    } else {
        16
    };
    let f = varint_len(s, l, 0);
    (f, varint_len(s, l, f))
}

/// Copies `n` lanes of the `l`-byte window, starting at window byte
/// `start`, into a fresh 16-byte register; lanes past the window read as
/// zero.
fn extract_lanes(bytes: &[u8], l: usize, start: usize, n: usize) -> (out: [u8; 16])
    requires
        l <= bytes@.len(),
        n <= 16,
        start <= 48,
    ensures
        forall|j: int| 0 <= j < n ==> out@[j] == wbyte(bytes@, l as int, start + j),
        forall|j: int| n <= j < 16 ==> out@[j] == 0,
{
    let mut out = [0u8; 16];
    let mut j: usize = 0;
    while j < n
        invariant
            j <= n <= 16,
            l <= bytes@.len(),
            start <= 48,
            forall|k: int| 0 <= k < j ==> out@[k] == wbyte(bytes@, l as int, start + k),
            forall|k: int| j <= k < 16 ==> out@[k] == 0,
        decreases n - j,
    {
        if start + j < l {
            out[j] = bytes[start + j];
        }
        j += 1;
    }
    out
}

/// Copies `n` lanes starting at window byte `start` into a fresh register,
/// the indices wrapping at the register width as a byte shuffle wraps them.
fn extract_lanes_wrap16(bytes: &[u8], start: usize, n: usize) -> (out: [u8; 16])
    requires
        bytes@.len() >= 16,
        n <= 16,
        start <= 48,
    ensures
        forall|j: int| 0 <= j < n ==> out@[j] == wbyte(bytes@, 16, (start + j) % 16),
        forall|j: int| n <= j < 16 ==> out@[j] == 0,
{
    let mut out = [0u8; 16];
    let mut j: usize = 0;
    while j < n
        invariant
            j <= n <= 16,
            bytes@.len() >= 16,
            start <= 48,
            forall|k: int| 0 <= k < j ==> out@[k] == wbyte(bytes@, 16, (start + k) % 16),
            forall|k: int| j <= k < 16 ==> out@[k] == 0,
        decreases n - j,
    {
        out[j] = bytes[(start + j) % 16];
        j += 1;
    }
    out
}

/// Extracts `n` lanes of the `l`-byte window at `start` and gathers them
/// into a value of the target width.
fn gather_element<X: VarIntTarget>(bytes: &[u8], l: usize, start: usize, n: usize) -> (x: X)
    requires
        l <= bytes@.len(),
        16 <= l,
        n <= 16,
        start <= 48,
    ensures
        x.as_nat() == gather(bytes@, l as int, start as int, n as int) % pow2(X::spec_bits()),
{
    let arr = extract_lanes(bytes, l, start, n);
    let x = X::vector_to_num(arr);
    proof {
        let fa = window_lane(arr@, 16, 0);
        let fb = window_lane(bytes@, l as int, start as int);
        assert forall|j: int| 0 <= j < n implies #[trigger] fa(j) == fb(j) by {}
        assert forall|j: int| n <= j < 16 implies #[trigger] fa(j) == 0 by {}
        lemma_gather_lanes_zero_tail(fa, 16, n as int);
        lemma_gather_lanes_congruence(fa, fb, n as int);
    }
    x
}

/// Extracts `n` lanes at `start`, wrapping indices at the register width,
/// and gathers them into a value of the target width.
fn gather_element_wrap16<X: VarIntTarget>(bytes: &[u8], start: usize, n: usize) -> (x: X)
    requires
        bytes@.len() >= 16,
        n <= 16,
        start <= 48,
    ensures
        x.as_nat() == gather_wrap16(bytes@, start as int, n as int) % pow2(X::spec_bits()),
{
    let arr = extract_lanes_wrap16(bytes, start, n);
    let x = X::vector_to_num(arr);
    proof {
        let fa = window_lane(arr@, 16, 0);
        let fb = wrap16_lane(bytes@, start as int);
        assert forall|j: int| 0 <= j < n implies #[trigger] fa(j) == fb(j) by {}
        assert forall|j: int| n <= j < 16 implies #[trigger] fa(j) == 0 by {}
        lemma_gather_lanes_zero_tail(fa, 16, n as int);
        lemma_gather_lanes_congruence(fa, fb, n as int);
    }
    x
}

/// Decodes two adjacent varints simultaneously.  The two target types must
/// fit within 16 bytes when varint encoded: `u32` beside `u64` is fine,
/// `u64` beside `u64` is not.
///
/// Returns the two decoded values and the two byte lengths read for them.
/// The slice must hold at least 16 bytes; data after the two varints is
/// ignored, and truncated values are returned if a varint exceeds its
/// target type's limit.  When both targets fit 32 bits the boundaries come
/// from a probe of the 2-varint lookup table instead of the general
/// cascade.
pub fn decode_two_unsafe<T: VarIntTarget, U: VarIntTarget>(bytes: &[u8]) -> (r: (T, U, u8, u8))
    requires
        bytes@.len() >= 16,
        T::spec_max_varint_bytes() + U::spec_max_varint_bytes() <= 16,
    ensures
        r.2 as int == two_lens::<T, U>(bytes@).0,
        r.3 as int == two_lens::<T, U>(bytes@).1,
        r.0.as_nat() == gather(bytes@, 16, 0, cap_at(two_lens::<T, U>(bytes@).0, 16)) % pow2(
            T::spec_bits(),
        ),
        T::spec_max_varint_bytes() <= 5 && U::spec_max_varint_bytes() <= 5 ==> r.1.as_nat()
            == gather(
            bytes@,
            16,
            two_lens::<T, U>(bytes@).0,
            cap_at(two_lens::<T, U>(bytes@).1, 8),
        ) % pow2(U::spec_bits()),
        !(T::spec_max_varint_bytes() <= 5 && U::spec_max_varint_bytes() <= 5) ==> r.1.as_nat()
            == gather_wrap16(bytes@, two_lens::<T, U>(bytes@).0, cap_at(two_lens::<T, U>(bytes@).1, 16))
            % pow2(U::spec_bits()),
{
    if T::max_varint_bytes() <= 5 && U::max_varint_bytes() <= 5 {
        return decode_two_u32_table::<T, U>(bytes);
    }
    let t1 = scan_term(bytes, 0, 16);
    let first_len = t1 + 1;
    let second_len = if first_len > 16 {
        1
    } else {
        scan_term(bytes, first_len, 16) + 1 - first_len
    };
    let n1 = if first_len <= 16 {
        first_len
    } else {
        16
    };
    let n2 = if second_len <= 16 {
        second_len
    } else {
        16
    };
    let first = extract_lanes(bytes, 16, 0, n1);
    let second = extract_lanes_wrap16(bytes, first_len, n2);
    let first_num = T::vector_to_num(first);
    let second_num = U::vector_to_num(second);
    proof {
        let s = bytes@;
        let fa = window_lane(first@, 16, 0);
        let fb = window_lane(s, 16, 0);
        assert forall|j: int| 0 <= j < n1 implies #[trigger] fa(j) == fb(j) by {}
        assert forall|j: int| n1 <= j < 16 implies #[trigger] fa(j) == 0 by {}
        lemma_gather_lanes_zero_tail(fa, 16, n1 as int);
        lemma_gather_lanes_congruence(fa, fb, n1 as int);
        let ga = window_lane(second@, 16, 0);
        let gb = wrap16_lane(s, first_len as int);
        assert forall|j: int| 0 <= j < n2 implies #[trigger] ga(j) == gb(j) by {}
        assert forall|j: int| n2 <= j < 16 implies #[trigger] ga(j) == 0 by {}
        lemma_gather_lanes_zero_tail(ga, 16, n2 as int);
        lemma_gather_lanes_congruence(ga, gb, n2 as int);
    }
    (first_num, second_num, first_len as u8, second_len as u8)
}

/// The lookup-table path of [`decode_two_unsafe`], for two targets of at
/// most 32 bits: boundaries come from one probe over the low ten bits of
/// the window's continuation mask.
fn decode_two_u32_table<T: VarIntTarget, U: VarIntTarget>(bytes: &[u8]) -> (r: (T, U, u8, u8))
    requires
        bytes@.len() >= 16,
        T::spec_max_varint_bytes() <= 5,
        U::spec_max_varint_bytes() <= 5,
    ensures
        r.2 as int == varint_len(bytes@, 10, 0),
        r.3 as int == varint_len(bytes@, 10, varint_len(bytes@, 10, 0)),
        r.0.as_nat() == gather(bytes@, 16, 0, cap_at(varint_len(bytes@, 10, 0), 16)) % pow2(
            T::spec_bits(),
        ),
        r.1.as_nat() == gather(
            bytes@,
            16,
            varint_len(bytes@, 10, 0),
            cap_at(varint_len(bytes@, 10, varint_len(bytes@, 10, 0)), 8),
        ) % pow2(U::spec_bits()),
{
    let bitmask = continuation_mask(bytes);
    let pattern = bitmask & 0x3ff;
    proof {
        assert(forall|i: u16|
            #![trigger (bitmask & 0x3ff) >> i]
            i < 10 ==> ((bitmask & 0x3ff) >> i) & 1 == (bitmask >> i) & 1) by (bit_vector);
        assert(pattern < 1024) by (bit_vector)
            requires
                pattern == bitmask & 0x3ff,
        ;
        assert forall|i: int| 0 <= i < 10 implies pat_cont(pattern, i) == has_cont(
            #[trigger] wbyte(bytes@, 16, i),
        ) by {
            assert((pattern >> (i as u16)) & 1 == (bitmask >> (i as u16)) & 1);
        }
        lemma_pat_term_matches(pattern, bytes@, 10, 0);
    }
    let (first_len8, second_len8) = double_table_lengths(pattern);
    let first_len = first_len8 as usize;
    let second_len = second_len8 as usize;
    proof {
        lemma_pat_term_matches(pattern, bytes@, 10, first_len as int);
    }
    let n1 = if first_len <= 8 {
        first_len
    } else {
        8
    };
    let n2 = if second_len <= 8 {
        second_len
    } else {
        8
    };
    let first = extract_lanes(bytes, 16, 0, n1);
    let second = extract_lanes(bytes, 16, first_len, n2);
    let first_num = T::vector_to_num(first);
    let second_num = U::vector_to_num(second);
    proof {
        let s = bytes@;
        T::lemma_width();
        let fa = window_lane(first@, 16, 0);
        let fb = window_lane(s, 16, 0);
        assert forall|j: int| 0 <= j < n1 implies #[trigger] fa(j) == fb(j) by {}
        assert forall|j: int| n1 <= j < 16 implies #[trigger] fa(j) == 0 by {}
        lemma_gather_lanes_zero_tail(fa, 16, n1 as int);
        lemma_gather_lanes_congruence(fa, fb, n1 as int);
        // a first varint longer than eight bytes only adds lanes past the
        // type's width
        if first_len > 8 {
            lemma_gather_lanes_mod(fb, first_len as int, 8, T::spec_bits());
        }
        let ga = window_lane(second@, 16, 0);
        let gb = window_lane(s, 16, first_len as int);
        assert forall|j: int| 0 <= j < n2 implies #[trigger] ga(j) == gb(j) by {}
        assert forall|j: int| n2 <= j < 16 implies #[trigger] ga(j) == 0 by {}
        lemma_gather_lanes_zero_tail(ga, 16, n2 as int);
        lemma_gather_lanes_congruence(ga, gb, n2 as int);
    }
    (first_num, second_num, first_len8, second_len8)
}

/// Length the 16-byte cascade reports for a varint at window byte `start`.
fn cascade_len16(bytes: &[u8], start: usize) -> (r: usize)
    requires
        bytes@.len() >= 16,
        start <= 48,
    ensures
        r as int == varint_len(bytes@, 16, start as int),
        1 <= r <= 17,
{
    if start > 16 {
        1
    } else {
        scan_term(bytes, start, 16) + 1 - start
    }
}

/// The element lengths a 4-way batched decode reports: the boundary cascade
/// over a 12-bit pattern when all four targets fit 16 bits (the
/// lookup-table path), over the full 16-byte window otherwise.
pub open spec fn four_lens<T: VarIntTarget, U: VarIntTarget, V: VarIntTarget, W: VarIntTarget>(
    s: Seq<u8>,
) -> (int, int, int, int) {
    let l: int = if T::spec_max_varint_bytes() <= 3 && U::spec_max_varint_bytes() <= 3
        && V::spec_max_varint_bytes() <= 3 && W::spec_max_varint_bytes() <= 3 {
        12
    } else {
        16
    };
    let f1 = varint_len(s, l, 0);
    let f2 = varint_len(s, l, f1);
    let f3 = varint_len(s, l, f1 + f2);
    let f4 = varint_len(s, l, f1 + f2 + f3);
    (f1, f2, f3, f4)
}

/// Decodes four adjacent varints simultaneously.  The four target types
/// must fit within 16 bytes when varint encoded.
///
/// Returns the four decoded values, followed by the number of bytes read
/// for each, followed by a flag that is set when the boundary pattern
/// implies an element longer than the lookup table's assumed maximum (the
/// lengths may then be wrong for the caller's purposes).  The slice must
/// hold at least 16 bytes; data after the four varints is ignored, and
/// truncated values are returned if a varint exceeds its target type's
/// limit.  When all four targets fit 16 bits the boundaries come from a
/// probe of the 4-varint lookup table instead of the general cascade, and
/// only that path can raise the flag.
pub fn decode_four_unsafe<T: VarIntTarget, U: VarIntTarget, V: VarIntTarget, W: VarIntTarget>(
    bytes: &[u8],
) -> (r: (T, U, V, W, u8, u8, u8, u8, bool))
    requires
        bytes@.len() >= 16,
        T::spec_max_varint_bytes() + U::spec_max_varint_bytes() + V::spec_max_varint_bytes()
            + W::spec_max_varint_bytes() <= 16,
    ensures
        ({
            let (f1, f2, f3, f4) = four_lens::<T, U, V, W>(bytes@);
            let narrow = T::spec_max_varint_bytes() <= 3 && U::spec_max_varint_bytes() <= 3
                && V::spec_max_varint_bytes() <= 3 && W::spec_max_varint_bytes() <= 3;
            r.4 as int == f1 && r.5 as int == f2 && r.6 as int == f3 && r.7 as int == f4 && r.8
                == (narrow && (f1 > 3 || f2 > 3 || f3 > 3 || f4 > 3)) && (if narrow {
                r.0.as_nat() == gather(bytes@, 16, 0, cap_at(f1, 3)) % pow2(T::spec_bits())
                    && r.1.as_nat() == gather(bytes@, 16, f1, cap_at(f2, 3)) % pow2(U::spec_bits())
                    && r.2.as_nat() == gather(bytes@, 16, f1 + f2, cap_at(f3, 3)) % pow2(
                    V::spec_bits(),
                ) && r.3.as_nat() == gather(bytes@, 16, f1 + f2 + f3, cap_at(f4, 3)) % pow2(
                    W::spec_bits(),
                )
            } else {
                r.0.as_nat() == gather(bytes@, 16, 0, cap_at(f1, 16)) % pow2(T::spec_bits())
                    && r.1.as_nat() == gather_wrap16(bytes@, f1, cap_at(f2, 16)) % pow2(
                    U::spec_bits(),
                ) && r.2.as_nat() == gather_wrap16(bytes@, f1 + f2, cap_at(f3, 16)) % pow2(
                    V::spec_bits(),
                ) && r.3.as_nat() == gather_wrap16(bytes@, f1 + f2 + f3, cap_at(f4, 16)) % pow2(
                    W::spec_bits(),
                )
            })
        }),
{
    if T::max_varint_bytes() <= 3 && U::max_varint_bytes() <= 3 && V::max_varint_bytes() <= 3
        && W::max_varint_bytes() <= 3 {
        return decode_four_u16_table::<T, U, V, W>(bytes);
    }
    let f1 = cascade_len16(bytes, 0);
    let f2 = cascade_len16(bytes, f1);
    let f3 = cascade_len16(bytes, f1 + f2);
    let f4 = cascade_len16(bytes, f1 + f2 + f3);
    let first_num: T = gather_element(bytes, 16, 0, if f1 <= 16 {
        f1
    } else {
        16
    });
    let second_num: U = gather_element_wrap16(bytes, f1, if f2 <= 16 {
        f2
    } else {
        16
    });
    let third_num: V = gather_element_wrap16(bytes, f1 + f2, if f3 <= 16 {
        f3
    } else {
        16
    });
    let fourth_num: W = gather_element_wrap16(bytes, f1 + f2 + f3, if f4 <= 16 {
        f4
    } else {
        16
    });
    (
        first_num,
        second_num,
        third_num,
        fourth_num,
        f1 as u8,
        f2 as u8,
        f3 as u8,
        f4 as u8,
        false,
    )
}

/// The lookup-table path of [`decode_four_unsafe`], for four targets of at
/// most 16 bits: boundaries and the validity flag come from one probe over
/// the low twelve bits of the window's continuation mask.
fn decode_four_u16_table<T: VarIntTarget, U: VarIntTarget, V: VarIntTarget, W: VarIntTarget>(
    bytes: &[u8],
) -> (r: (T, U, V, W, u8, u8, u8, u8, bool))
    requires
        bytes@.len() >= 16,
        T::spec_max_varint_bytes() <= 3,
        U::spec_max_varint_bytes() <= 3,
        V::spec_max_varint_bytes() <= 3,
        W::spec_max_varint_bytes() <= 3,
    ensures
        ({
            let f1 = varint_len(bytes@, 12, 0);
            let f2 = varint_len(bytes@, 12, f1);
            let f3 = varint_len(bytes@, 12, f1 + f2);
            let f4 = varint_len(bytes@, 12, f1 + f2 + f3);
            r.4 as int == f1 && r.5 as int == f2 && r.6 as int == f3 && r.7 as int == f4 && r.8 == (
            f1 > 3 || f2 > 3 || f3 > 3 || f4 > 3) && r.0.as_nat() == gather(
                bytes@,
                16,
                0,
                cap_at(f1, 3),
            ) % pow2(T::spec_bits()) && r.1.as_nat() == gather(bytes@, 16, f1, cap_at(f2, 3))
                % pow2(U::spec_bits()) && r.2.as_nat() == gather(
                bytes@,
                16,
                f1 + f2,
                cap_at(f3, 3),
            ) % pow2(V::spec_bits()) && r.3.as_nat() == gather(
                bytes@,
                16,
                f1 + f2 + f3,
                cap_at(f4, 3),
            ) % pow2(W::spec_bits())
        }),
{
    let bitmask = continuation_mask(bytes);
    let pattern = bitmask & 0xfff;
    proof {
        assert(forall|i: u16|
            #![trigger (bitmask & 0xfff) >> i]
            i < 12 ==> ((bitmask & 0xfff) >> i) & 1 == (bitmask >> i) & 1) by (bit_vector);
        assert(pattern < 4096) by (bit_vector)
            requires
                pattern == bitmask & 0xfff,
        ;
        assert forall|i: int| 0 <= i < 12 implies pat_cont(pattern, i) == has_cont(
            #[trigger] wbyte(bytes@, 16, i),
        ) by {
            assert((pattern >> (i as u16)) & 1 == (bitmask >> (i as u16)) & 1);
        }
        lemma_pat_term_matches(pattern, bytes@, 12, 0);
    }
    let (l1, l2, l3, l4, invalid) = quad_table_entry(pattern);
    let f1 = l1 as usize;
    let f2 = l2 as usize;
    let f3 = l3 as usize;
    let f4 = l4 as usize;
    proof {
        lemma_pat_term_matches(pattern, bytes@, 12, f1 as int);
        lemma_pat_term_matches(pattern, bytes@, 12, f1 as int + f2 as int);
        lemma_pat_term_matches(pattern, bytes@, 12, f1 as int + f2 as int + f3 as int);
    }
    let first_num: T = gather_element(bytes, 16, 0, if f1 <= 3 {
        f1
    } else {
        3
    });
    let second_num: U = gather_element(bytes, 16, f1, if f2 <= 3 {
        f2
    } else {
        3
    });
    let third_num: V = gather_element(bytes, 16, f1 + f2, if f3 <= 3 {
        f3
    } else {
        3
    });
    let fourth_num: W = gather_element(bytes, 16, f1 + f2 + f3, if f4 <= 3 {
        f4
    } else {
        3
    });
    (first_num, second_num, third_num, fourth_num, l1, l2, l3, l4, invalid)
}

/// Cursor of the 8-way `u8` decoder after `k` elements: every element is
/// taken to occupy one byte, or two when its first byte continues; nothing
/// checks that a varint really ended there, which is this decoder's
/// documented relaxation.
pub open spec fn eight_cursor(s: Seq<u8>, k: int) -> int
    decreases k,
{
    if k <= 0 {
        0
    } else {
        let p = eight_cursor(s, k - 1);
        p + (if has_cont(wbyte(s, 16, p)) {
            2int
        } else {
            1int
        })
    }
}

/// Value the 8-way `u8` decoder reports for element `k`: the low seven
/// bits of its first byte, plus the low bit of its second byte when the
/// first continues.
pub open spec fn eight_value(s: Seq<u8>, k: int) -> u8 {
    let p = eight_cursor(s, k);
    if has_cont(wbyte(s, 16, p)) {
        (wbyte(s, 16, p) % 128 + (wbyte(s, 16, p + 1) % 2) * 128) as u8
    } else {
        wbyte(s, 16, p) % 128
    }
}

/// The 8-way cursor advances by one or two bytes per element.
pub proof fn lemma_eight_cursor_bound(s: Seq<u8>, k: int)
    requires
        0 <= k,
    ensures
        k <= eight_cursor(s, k) <= 2 * k,
    decreases k,
{
    if k > 0 {
        lemma_eight_cursor_bound(s, k - 1);
    }
}

/// Decodes eight adjacent varints into `u8`s simultaneously.  **Does not
/// perform overflow checking and may produce incorrect output.**
///
/// Returns a tuple containing an array of decoded values, and the total
/// number of bytes read.  The slice must hold at least 16 bytes.
///
/// This function does not perform overflow checking: each element is taken
/// to occupy one byte, or two when its first byte has the continuation bit
/// set.  If a varint in the input exceeds two bytes in encoded length, it
/// is interpreted as multiple varints, and the reported length of data
/// read will be shorter than expected — the decoder desynchronizes rather
/// than failing.  This relaxation is deliberate; callers are expected to
/// pre-validate elsewhere.
pub fn decode_eight_u8_unsafe(bytes: &[u8]) -> (r: ([u8; 8], u8))
    requires
        bytes@.len() >= 16,
    ensures
        r.1 as int == eight_cursor(bytes@, 8),
        forall|k: int| 0 <= k < 8 ==> r.0@[k] == eight_value(bytes@, k),
{
    let mut out = [0u8; 8];
    let mut p: usize = 0;
    let mut k: usize = 0;
    while k < 8
        invariant
            k <= 8,
            bytes@.len() >= 16,
            p as int == eight_cursor(bytes@, k as int),
            forall|j: int| 0 <= j < k ==> out@[j] == eight_value(bytes@, j),
        decreases 8 - k,
    {
        proof {
            lemma_eight_cursor_bound(bytes@, k as int);
        }
        let b = bytes[p];
        if b >= 0x80 {
            let b2 = bytes[p + 1];
            let v = (b & 0x7f) | ((b2 & 0x01) << 7);
            proof {
                assert(v == b % 128 + (b2 % 2) * 128) by (bit_vector)
                    requires
                        v == (b & 0x7f) | ((b2 & 0x01) << 7),
                ;
            }
            out[k] = v;
            p += 2;
        } else {
            out[k] = b;
            p += 1;
        }
        k += 1;
    }
    proof {
        lemma_eight_cursor_bound(bytes@, 8);
    }
    (out, p as u8)
}

/// Decodes two adjacent varints simultaneously from a 32-byte window,
/// which allows for decoding a pair of `u64` values.  For smaller widths
/// the 16-byte [`decode_two_unsafe`] will usually be faster.
///
/// Returns the two decoded values and the two byte lengths read for them.
/// The slice must hold at least 32 bytes; data after the two varints is
/// ignored, and truncated values are returned if a varint exceeds its
/// target type's limit.
pub fn decode_two_wide_unsafe<T: VarIntTarget, U: VarIntTarget>(bytes: &[u8]) -> (r: (
    T,
    U,
    u8,
    u8,
))
    requires
        bytes@.len() >= 32,
    ensures
        r.2 as int == varint_len(bytes@, 32, 0),
        r.3 as int == varint_len_tail32(bytes@, varint_len(bytes@, 32, 0)),
        r.0.as_nat() == gather(bytes@, 32, 0, cap_at(varint_len(bytes@, 32, 0), 16)) % pow2(
            T::spec_bits(),
        ),
        r.1.as_nat() == gather(
            bytes@,
            32,
            varint_len(bytes@, 32, 0),
            cap_at(varint_len_tail32(bytes@, varint_len(bytes@, 32, 0)), 16),
        ) % pow2(U::spec_bits()),
{
    let t = scan_term(bytes, 0, 32);
    let first_len = t + 1;
    let second_len: usize;
    if first_len > 32 {
        second_len = 33;
    } else {
        let t2 = scan_term(bytes, first_len, 32);
        second_len = if t2 < 32 {
            t2 + 1 - first_len
        } else {
            33
        };
    }
    let first_num: T = gather_element(bytes, 32, 0, if first_len <= 16 {
        first_len
    } else {
        16
    });
    let second_num: U = gather_element(bytes, 32, first_len, if second_len <= 16 {
        second_len
    } else {
        16
    });
    (first_num, second_num, first_len as u8, second_len as u8)
}

/// Convenience function for decoding a single varint in ZigZag format from
/// the input slice.  See also: [`decode`].
pub fn decode_zigzag<T: SignedVarIntTarget>(bytes: &[u8]) -> (r: Result<
    (T, usize),
    VarIntDecodeError,
>)
    ensures
        r matches Ok(p) ==> decode_spec::<T::Unsigned>(bytes@) matches Ok(q) && p.0.as_int()
            == unzigzag_spec(q.0) && p.1 as int == q.1,
        r matches Err(e) ==> decode_spec::<T::Unsigned>(bytes@) == Err::<
            (nat, int),
            VarIntDecodeError,
        >(e),
{
    match decode::<T::Unsigned>(bytes) {
        Ok(p) => Ok((T::unzigzag(p.0), p.1)),
        Err(e) => Err(e),
    }
}

} // verus!
