//! Lane routines shared by the decoders and encoders, and the capability
//! dispatch between the two per-lane packing strategies.
//!
//! The 7-bit packing step can be done two ways: the per-width shift/mask
//! sequences (the [`crate::num::VarIntTarget`] methods), or the uniform
//! lane-walking gather and scatter routines in this module, which stand in
//! for the one-step bit-gather/scatter instructions of the original
//! formulation.  The dispatch functions take the externally supplied
//! capability flag as an argument and carry contracts that do not mention
//! it: either strategy returns the same result on every input, so the flag
//! affects latency only.  Callers that have no flag use the shift/mask
//! default.

use vstd::prelude::*;
use vstd::arithmetic::div_mod::{lemma_mod_mod, lemma_small_mod};
use vstd::arithmetic::mul::lemma_mul_inequality;
use vstd::arithmetic::power2::{lemma2_to64, lemma2_to64_rest, lemma_pow2_adds, lemma_pow2_pos, pow2};

use crate::model::{
    gather, gather_lanes, gather_word, group_of, lemma_gather_lanes_bound, lemma_gather_lanes_mod,
    lemma_gather_lanes_succ, lemma_group_of_zero, lemma_pow2_le, window_lane, word_byte, word_lane,
};
use crate::num::VarIntTarget;

verus! {

/// Gathers the 7-bit groups of the first `n` lanes of a 16-byte register
/// into one scalar, walking the lanes in order.
pub fn gather_lanes_value(res: &[u8; 16], n: usize) -> (r: u64)
    requires
        n <= 9,
    ensures
        r as nat == gather(res@, 16, 0, n as int),
{
    let f = Ghost(window_lane(res@, 16, 0));
    let mut acc: u64 = 0;
    let mut weight: u64 = 1;
    let mut i: usize = 0;
    proof {
        lemma2_to64();
    }
    while i < n
        invariant
            i <= n <= 9,
            f@ == window_lane(res@, 16, 0),
            acc as nat == gather_lanes(f@, i as int),
            i < 9 ==> weight as nat == pow2((7 * i) as nat),
        decreases n - i,
    {
        let b = res[i];
        let g = (b & 0x7f) as u64;
        proof {
            lemma2_to64();
            lemma2_to64_rest();
            lemma_pow2_le((7 * i) as nat, 56);
            assert(g == b % 128 && g <= 127) by (bit_vector)
                requires
                    g == (b & 0x7f) as u64,
            ;
            lemma_gather_lanes_bound(f@, i as int);
            lemma_mul_inequality(g as int, 127, weight as int);
            lemma_gather_lanes_succ(f@, i as int + 1);
            assert(f@(i as int) == b);
            lemma_pow2_adds((7 * i) as nat, 7);
            assert(g * weight == (g as nat) * pow2((7 * i) as nat)) by (nonlinear_arith)
                requires
                    weight as nat == pow2((7 * i) as nat),
            ;
        }
        acc = acc + g * weight;
        if i < 8 {
            proof {
                assert(weight * 128 == pow2((7 * (i + 1)) as nat)) by (nonlinear_arith)
                    requires
                        weight as nat == pow2((7 * i) as nat),
                        pow2((7 * (i + 1)) as nat) == pow2((7 * i) as nat) * pow2(7),
                        pow2(7) == 128,
                ;
            }
            weight = weight * 128;
        } else {
            // the ninth lane's weight would overflow; the loop is ending
            weight = 0;
        }
        i = i + 1;
    }
    acc
}

/// Gathers the 7-bit groups held in the eight byte lanes of a 64-bit word,
/// walking the lanes in order.
pub fn gather_word_value(x: u64) -> (r: u64)
    ensures
        r as nat == gather_word(x, 8),
{
    let f = Ghost(word_lane(x));
    let mut acc: u64 = 0;
    let mut weight: u64 = 1;
    let mut i: usize = 0;
    proof {
        lemma2_to64();
    }
    while i < 8
        invariant
            i <= 8,
            f@ == word_lane(x),
            acc as nat == gather_lanes(f@, i as int),
            i < 8 ==> weight as nat == pow2((7 * i) as nat),
        decreases 8 - i,
    {
        let b = ((x >> (8 * i as u64)) & 0xff) as u8;
        let g = (b & 0x7f) as u64;
        proof {
            lemma2_to64();
            lemma2_to64_rest();
            lemma_pow2_le((7 * i) as nat, 49);
            assert(b == (x as nat / pow2((8 * i) as nat)) % 256) by {
                vstd::bits::lemma_u64_shr_is_div(x, (8 * i) as u64);
                assert(((x >> (8 * i as u64)) & 0xff) == (x >> (8 * i as u64)) % 256) by (
                bit_vector);
            }
            assert(g == b % 128 && g <= 127) by (bit_vector)
                requires
                    g == (b & 0x7f) as u64,
            ;
            assert(f@(i as int) == word_byte(x, i as int));
            assert(word_byte(x, i as int) == b);
            lemma_gather_lanes_bound(f@, i as int);
            lemma_mul_inequality(g as int, 127, weight as int);
            lemma_gather_lanes_succ(f@, i as int + 1);
            lemma_pow2_adds((7 * i) as nat, 7);
            assert(g * weight == (g as nat) * pow2((7 * i) as nat)) by (nonlinear_arith)
                requires
                    weight as nat == pow2((7 * i) as nat),
            ;
        }
        acc = acc + g * weight;
        if i < 7 {
            proof {
                assert(weight * 128 == pow2((7 * (i + 1)) as nat)) by (nonlinear_arith)
                    requires
                        weight as nat == pow2((7 * i) as nat),
                        pow2((7 * (i + 1)) as nat) == pow2((7 * i) as nat) * pow2(7),
                        pow2(7) == 128,
                ;
            }
            weight = weight * 128;
        } else {
            // the eighth lane's weight is the last one needed
            weight = 0;
        }
        i = i + 1;
    }
    acc
}

/// Scatters a value into 7-bit groups, one per lane of a 16-byte register,
/// walking the lanes in order.  Works for every width, since every
/// supported value fits a 64-bit word.
pub fn scatter_lanes_value(x: u64) -> (r: [u8; 16])
    ensures
        forall|i: int| 0 <= i < 16 ==> r@[i] as nat == group_of(x as nat, i),
{
    let mut r = [0u8; 16];
    let mut i: usize = 0;
    proof {
        lemma2_to64();
        lemma2_to64_rest();
        lemma_pow2_le(64, 70);
        lemma_group_of_zero(x as nat, 10);
    }
    while i < 10
        invariant
            i <= 10,
            forall|j: int| 0 <= j < i ==> r@[j] as nat == group_of(x as nat, j),
            forall|j: int| i <= j < 16 ==> r@[j] == 0,
        decreases 10 - i,
    {
        let g = ((x >> (7 * i as u64)) & 0x7f) as u8;
        proof {
            lemma2_to64();
            lemma2_to64_rest();
            assert(g == (x as nat / pow2((7 * i) as nat)) % 128) by {
                vstd::bits::lemma_u64_shr_is_div(x, (7 * i) as u64);
                assert(((x >> (7 * i as u64)) & 0x7f) == (x >> (7 * i as u64)) % 128) by (
                bit_vector);
            }
        }
        r[i] = g;
        i = i + 1;
    }
    proof {
        assert(forall|j: int| 10 <= j < 16 ==> #[trigger] group_of(x as nat, j) == 0);
    }
    r
}

/// The per-lane unpacking step for a 16-byte register, dispatched on the
/// capability flag.  The contract does not mention the flag: both
/// strategies produce the same value on every input, so the flag affects
/// latency only.
pub fn vector_to_num_dispatch<T: VarIntTarget>(res: [u8; 16], fast_gather: bool) -> (r: T)
    ensures
        r.as_nat() == gather(res@, 16, 0, 16) % pow2(T::spec_bits()),
{
    if fast_gather {
        let f = Ghost(window_lane(res@, 16, 0));
        if T::max_varint_bytes() <= 5 {
            let g = gather_lanes_value(&res, 5);
            proof {
                T::lemma_width();
                lemma_gather_lanes_mod(f@, 16, 5, T::spec_bits());
            }
            T::cast_u64(g)
        } else {
            let g = gather_lanes_value(&res, 9);
            let b9 = res[9];
            let r = g | (((b9 & 0x01) as u64) << 63);
            proof {
                T::lemma_width();
                lemma2_to64();
                lemma2_to64_rest();
                lemma_gather_lanes_bound(f@, 9);
                lemma_pow2_le(63, 63);
                lemma_gather_lanes_succ(f@, 10);
                assert(f@(9) == b9);
                // the tenth lane keeps only its low bit modulo 2^64
                assert(r == (g + (b9 % 128) * 0x8000000000000000) % 0x10000000000000000) by (
                bit_vector)
                    requires
                        r == g | (((b9 & 0x01) as u64) << 63),
                        g < 0x8000000000000000,
                ;
                assert((g + (b9 % 128) as nat * pow2(63)) == gather_lanes(f@, 10));
                // reduce the full 16-lane gather to the first ten lanes
                lemma_gather_lanes_mod(f@, 16, 10, 64);
                assert(gather_lanes(f@, 16) % pow2(64) == gather_lanes(f@, 10) % pow2(64));
                // and fold the outer truncation into the type's width
                lemma_pow2_adds(T::spec_bits(), (64 - T::spec_bits()) as nat);
                lemma_pow2_pos(T::spec_bits());
                lemma_pow2_pos((64 - T::spec_bits()) as nat);
                lemma_mod_mod(
                    gather_lanes(f@, 16) as int,
                    pow2(T::spec_bits()) as int,
                    pow2((64 - T::spec_bits()) as nat) as int,
                );
            }
            T::cast_u64(r)
        }
    } else {
        T::vector_to_num(res)
    }
}

/// The per-lane unpacking step for a varint held in a 64-bit word,
/// dispatched on the capability flag; as with
/// [`vector_to_num_dispatch`], the contract does not mention the flag.
pub fn scalar_to_num_dispatch<T: VarIntTarget>(x: u64, fast_gather: bool) -> (r: T)
    requires
        T::spec_max_varint_bytes() <= 5,
    ensures
        r.as_nat() == gather_word(x, 8) % pow2(T::spec_bits()),
{
    if fast_gather {
        let g = gather_word_value(x);
        proof {
            T::lemma_width();
            lemma2_to64();
            lemma2_to64_rest();
            lemma_gather_lanes_bound(word_lane(x), 8);
            lemma_pow2_adds(T::spec_bits(), (64 - T::spec_bits()) as nat);
            lemma_pow2_pos(T::spec_bits());
            lemma_pow2_pos((64 - T::spec_bits()) as nat);
            lemma_small_mod(gather_word(x, 8), pow2(64));
            lemma_mod_mod(
                gather_word(x, 8) as int,
                pow2(T::spec_bits()) as int,
                pow2((64 - T::spec_bits()) as nat) as int,
            );
        }
        T::cast_u64(g)
    } else {
        T::scalar_to_num(x)
    }
}

} // verus!
