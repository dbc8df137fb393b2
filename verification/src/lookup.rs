//! Lookup tables for the batched decoders.
//!
//! A batched decode of narrow values replaces the general boundary cascade
//! with a single probe of a precomputed table indexed by the
//! continuation-bit pattern of the window: 10 pattern bits for two varints
//! of at most 32 bits each, 12 bits for four varints of at most 16 bits
//! each.  An entry holds the per-element byte lengths, and — for the 4-way
//! table — a validity flag, set when the pattern implies an element longer
//! than the table's assumed maximum of three bytes.  Every index in a
//! table's domain maps to a defined entry.
//!
//! [`build_double_length_table`] and [`build_quad_length_table`] build the
//! tables exhaustively; [`double_table_lengths`] and [`quad_table_entry`]
//! compute the entry for one pattern, and the decoders probe through them.

use vstd::prelude::*;

use crate::model::{has_cont, term_index, varint_len, wbyte};

verus! {

/// Continuation bit `i` of a movemask pattern.
pub open spec fn pat_cont(m: u16, i: int) -> bool {
    (m >> (i as u16)) & 1 == 1
}

/// First clear bit of the pattern at or after `start`, within its low `l`
/// bits; `l` when every remaining bit is set.
pub open spec fn pat_term_index(m: u16, l: int, start: int) -> int
    decreases l - start,
{
    if start >= l {
        l
    } else if !pat_cont(m, start) {
        start
    } else {
        pat_term_index(m, l, start + 1)
    }
}

/// Length the cascade over the low `l` pattern bits reports for a varint
/// at bit `start`; mirrors [`varint_len`] with bits for bytes.
pub open spec fn pat_varint_len(m: u16, l: int, start: int) -> int {
    if start > l {
        1
    } else {
        pat_term_index(m, l, start) + 1 - start
    }
}

/// A pattern whose low `l` bits are the continuation bits of the window
/// reports the same boundaries as the window itself.
pub proof fn lemma_pat_term_matches(m: u16, s: Seq<u8>, l: int, start: int)
    requires
        0 <= start,
        l <= 16,
        forall|i: int| 0 <= i < l ==> pat_cont(m, i) == has_cont(#[trigger] wbyte(s, 16, i)),
    ensures
        pat_term_index(m, l, start) == term_index(s, l, start),
        pat_varint_len(m, l, start) == varint_len(s, l, start),
    decreases l - start,
{
    if start < l {
        assert(wbyte(s, l, start) == wbyte(s, 16, start));
        lemma_pat_term_matches(m, s, l, start + 1);
    }
}

/// Extracts the continuation bit of every byte of the 16-byte window into
/// one 16-bit mask: bit `i` is set when byte `i` continues.
pub fn continuation_mask(bytes: &[u8]) -> (m: u16)
    requires
        bytes@.len() >= 16,
    ensures
        forall|i: int| 0 <= i < 16 ==> pat_cont(m, i) == has_cont(#[trigger] wbyte(bytes@, 16, i)),
{
    let mut m: u16 = 0;
    let mut i: usize = 0;
    proof {
        assert(forall|j: u16| ((0u16 >> j) & 1) != 1) by (bit_vector);
    }
    while i < 16
        invariant
            i <= 16,
            bytes@.len() >= 16,
            forall|j: int|
                0 <= j < i ==> pat_cont(m, j) == has_cont(#[trigger] wbyte(bytes@, 16, j)),
            forall|j: int| i <= j < 16 ==> !pat_cont(m, j),
        decreases 16 - i,
    {
        let ghost m0 = m;
        if bytes[i] >= 0x80 {
            m = m | (1u16 << (i as u16));
            proof {
                assert(forall|j: u16|
                    #![trigger (m0 | (1u16 << (i as u16))) >> j]
                    j < 16 && i < 16 ==> ((m0 | (1u16 << (i as u16))) >> j) & 1 == (if j == i {
                        1u16
                    } else {
                        (m0 >> j) & 1
                    })) by (bit_vector);
                assert forall|j: int| 0 <= j < 16 implies pat_cont(m, j) == (j == i as int
                    || pat_cont(m0, j)) by {
                    assert(((m0 | (1u16 << (i as u16))) >> (j as u16)) & 1 == (if (j as u16)
                        == (i as u16) {
                        1u16
                    } else {
                        (m0 >> (j as u16)) & 1
                    }));
                }
            }
        }
        i += 1;
    }
    m
}

/// Scans the low `l` bits of the pattern for the first clear bit at or
/// after `start`.
fn pat_scan(m: u16, start: usize, l: usize) -> (t: usize)
    requires
        start <= l,
        l <= 16,
    ensures
        t as int == pat_term_index(m, l as int, start as int),
        start <= t <= l,
{
    let mut i = start;
    while i < l
        invariant
            start <= i <= l <= 16,
            forall|j: int| start <= j < i ==> pat_cont(m, j),
        decreases l - i,
    {
        let bit = (m >> (i as u16)) & 1;
        proof {
            assert(forall|k: u16| ((m >> k) & 1) == 0 || ((m >> k) & 1) == 1) by (bit_vector);
        }
        if bit == 0 {
            proof {
                lemma_pat_scan_stop(m, l as int, start as int, i as int);
            }
            return i;
        }
        i += 1;
    }
    proof {
        lemma_pat_scan_stop(m, l as int, start as int, l as int);
    }
    l
}

/// A scan that saw set bits from `start` up to `t`, and a clear bit at `t`
/// if `t` is inside the range, has found `pat_term_index`.
proof fn lemma_pat_scan_stop(m: u16, l: int, start: int, t: int)
    requires
        0 <= start <= t <= l,
        forall|j: int| start <= j < t ==> pat_cont(m, j),
        t < l ==> !pat_cont(m, t),
    ensures
        pat_term_index(m, l, start) == t,
    decreases t - start,
{
    if start < t {
        lemma_pat_scan_stop(m, l, start + 1, t);
    }
}

/// The entry of the 2-varint table for a 10-bit continuation pattern: the
/// two element lengths the boundary cascade reports over the pattern bits.
pub fn double_table_lengths(pattern: u16) -> (r: (u8, u8))
    requires
        pattern < 1024,
    ensures
        r.0 as int == pat_varint_len(pattern, 10, 0),
        r.1 as int == pat_varint_len(pattern, 10, r.0 as int),
        1 <= r.0 <= 11,
        1 <= r.1 <= 11,
{
    let first = pat_scan(pattern, 0, 10) + 1;
    let second = if first > 10 {
        1
    } else {
        pat_scan(pattern, first, 10) + 1 - first
    };
    (first as u8, second as u8)
}

/// Builds the complete 2-varint length table: one defined entry for every
/// 10-bit continuation pattern.
pub fn build_double_length_table() -> (t: Vec<(u8, u8)>)
    ensures
        t@.len() == 1024,
        forall|p: int|
            0 <= p < 1024 ==> (#[trigger] t@[p]).0 as int == pat_varint_len(p as u16, 10, 0)
                && t@[p].1 as int == pat_varint_len(p as u16, 10, t@[p].0 as int),
{
    let mut t: Vec<(u8, u8)> = Vec::new();
    let mut p: usize = 0;
    while p < 1024
        invariant
            p <= 1024,
            t@.len() == p,
            forall|q: int|
                0 <= q < p ==> (#[trigger] t@[q]).0 as int == pat_varint_len(q as u16, 10, 0)
                    && t@[q].1 as int == pat_varint_len(q as u16, 10, t@[q].0 as int),
        decreases 1024 - p,
    {
        let e = double_table_lengths(p as u16);
        t.push(e);
        p += 1;
    }
    t
}

/// The entry of the 4-varint table for a 12-bit continuation pattern: the
/// four element lengths of the cascade, and the validity flag, set exactly
/// when some element is longer than the three bytes the table assumes.
pub fn quad_table_entry(pattern: u16) -> (r: (u8, u8, u8, u8, bool))
    requires
        pattern < 4096,
    ensures
        r.0 as int == pat_varint_len(pattern, 12, 0),
        r.1 as int == pat_varint_len(pattern, 12, r.0 as int),
        r.2 as int == pat_varint_len(pattern, 12, r.0 as int + r.1 as int),
        r.3 as int == pat_varint_len(pattern, 12, r.0 as int + r.1 as int + r.2 as int),
        r.4 == (r.0 > 3 || r.1 > 3 || r.2 > 3 || r.3 > 3),
        1 <= r.0 <= 13 && 1 <= r.1 <= 13 && 1 <= r.2 <= 13 && 1 <= r.3 <= 13,
{
    let first = pat_scan(pattern, 0, 12) + 1;
    let second = if first > 12 {
        1
    } else {
        pat_scan(pattern, first, 12) + 1 - first
    };
    let start3 = first + second;
    let third = if start3 > 12 {
        1
    } else {
        pat_scan(pattern, start3, 12) + 1 - start3
    };
    let start4 = start3 + third;
    let fourth = if start4 > 12 {
        1
    } else {
        pat_scan(pattern, start4, 12) + 1 - start4
    };
    let invalid = first > 3 || second > 3 || third > 3 || fourth > 3;
    (first as u8, second as u8, third as u8, fourth as u8, invalid)
}

/// Builds the complete 4-varint length table: one defined entry for every
/// 12-bit continuation pattern.
pub fn build_quad_length_table() -> (t: Vec<(u8, u8, u8, u8, bool)>)
    ensures
        t@.len() == 4096,
        forall|p: int|
            0 <= p < 4096 ==> {
                let e = #[trigger] t@[p];
                e.0 as int == pat_varint_len(p as u16, 12, 0) && e.1 as int == pat_varint_len(
                    p as u16,
                    12,
                    e.0 as int,
                ) && e.2 as int == pat_varint_len(p as u16, 12, e.0 as int + e.1 as int)
                    && e.3 as int == pat_varint_len(
                    p as u16,
                    12,
                    e.0 as int + e.1 as int + e.2 as int,
                ) && e.4 == (e.0 > 3 || e.1 > 3 || e.2 > 3 || e.3 > 3)
            },
{
    let mut t: Vec<(u8, u8, u8, u8, bool)> = Vec::new();
    let mut p: usize = 0;
    while p < 4096
        invariant
            p <= 4096,
            t@.len() == p,
            forall|q: int|
                0 <= q < p ==> {
                    let e = #[trigger] t@[q];
                    e.0 as int == pat_varint_len(q as u16, 12, 0) && e.1 as int == pat_varint_len(
                        q as u16,
                        12,
                        e.0 as int,
                    ) && e.2 as int == pat_varint_len(q as u16, 12, e.0 as int + e.1 as int)
                        && e.3 as int == pat_varint_len(
                        q as u16,
                        12,
                        e.0 as int + e.1 as int + e.2 as int,
                    ) && e.4 == (e.0 > 3 || e.1 > 3 || e.2 > 3 || e.3 > 3)
                },
        decreases 4096 - p,
    {
        let e = quad_table_entry(p as u16);
        t.push(e);
        p += 1;
    }
    t
}

} // verus!
