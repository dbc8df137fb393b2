//! Mathematical model of the LEB128 wire format.
//!
//! Every contract in the crate is stated over the spec functions in this
//! module.  A decoder's input is modelled as an `l`-byte *window* read from a
//! slice ([`wbyte`]); varint boundaries are the positions of bytes with a
//! clear high bit ([`term_index`], [`varint_len`]); values are base-128 sums
//! of 7-bit lanes ([`gather`]); and an encoder's output is pinned down byte
//! by byte ([`encoding_byte`], [`is_encoding16`]).

use vstd::prelude::*;
use vstd::arithmetic::div_mod::{
    lemma_basic_div, lemma_breakdown, lemma_div_denominator, lemma_fundamental_div_mod,
    lemma_mod_multiples_vanish, lemma_small_mod,
};
use vstd::arithmetic::mul::{lemma_mul_inequality, lemma_mul_is_commutative};
use vstd::arithmetic::power2::{
    lemma2_to64, lemma2_to64_rest, lemma_pow2_adds, lemma_pow2_pos, lemma_pow2_strictly_increases,
    pow2,
};

verus! {

/// Byte `i` of the `l`-byte window loaded from `s`.  Bytes past the end of
/// the slice read as zero (the checked API pads short inputs with zeros).
pub open spec fn wbyte(s: Seq<u8>, l: int, i: int) -> u8 {
    if 0 <= i < l && i < s.len() {
        s[i]
    } else {
        0
    }
}

/// A byte continues the varint when its high (continuation) bit is set.
pub open spec fn has_cont(b: u8) -> bool {
    b >= 0x80
}

/// Index of the first terminating byte (clear high bit) of the window at or
/// after `start`; `l` when every remaining window byte continues.
pub open spec fn term_index(s: Seq<u8>, l: int, start: int) -> int
    decreases l - start,
{
    if start >= l {
        l
    } else if !has_cont(wbyte(s, l, start)) {
        start
    } else {
        term_index(s, l, start + 1)
    }
}

/// Length the continuation-mask cascade reports for the varint at `start`:
/// one past its terminator, or `l + 1 - start` when no terminator lies in the
/// window (the mask bits past the window read as terminators).
pub open spec fn varint_len(s: Seq<u8>, l: int, start: int) -> int {
    if start > l {
        1
    } else {
        term_index(s, l, start) + 1 - start
    }
}

/// Length the 32-byte cascade reports for a varint after the first: past a
/// 32-byte window the mask supplies no further bits at all, so a missing
/// terminator always reads as length 33.
pub open spec fn varint_len_tail32(s: Seq<u8>, start: int) -> int {
    if 0 <= start <= 32 && term_index(s, 32, start) < 32 {
        term_index(s, 32, start) + 1 - start
    } else {
        33
    }
}

/// A scan that saw continuation bytes from `start` up to `t`, and a
/// terminator at `t` if `t` is inside the window, has found `term_index`.
pub proof fn lemma_term_index_from_scan(s: Seq<u8>, l: int, start: int, t: int)
    requires
        0 <= start <= t <= l,
        forall|j: int| start <= j < t ==> has_cont(#[trigger] wbyte(s, l, j)),
        t < l ==> !has_cont(wbyte(s, l, t)),
    ensures
        term_index(s, l, start) == t,
    decreases t - start,
{
    if start < t {
        lemma_term_index_from_scan(s, l, start + 1, t);
    }
}

/// Two sequences whose windows agree byte for byte have the same terminator.
pub proof fn lemma_term_index_congruence(s1: Seq<u8>, s2: Seq<u8>, l: int, start: int)
    requires
        0 <= start,
        forall|i: int| start <= i < l ==> #[trigger] wbyte(s1, l, i) == wbyte(s2, l, i),
    ensures
        term_index(s1, l, start) == term_index(s2, l, start),
    decreases l - start,
{
    if start < l {
        lemma_term_index_congruence(s1, s2, l, start + 1);
    }
}

/// Base-128 value of `n` 7-bit lanes supplied by `f`: lane `i` contributes
/// its low seven bits weighted by `128^i`.
pub open spec fn gather_lanes(f: spec_fn(int) -> u8, n: int) -> nat
    decreases n,
{
    if n <= 0 {
        0
    } else {
        gather_lanes(f, n - 1) + (f(n - 1) % 128) as nat * pow2((7 * (n - 1)) as nat)
    }
}

/// The lanes of the `l`-byte window of `s`, starting at window byte `start`.
pub open spec fn window_lane(s: Seq<u8>, l: int, start: int) -> spec_fn(int) -> u8 {
    |i: int| wbyte(s, l, start + i)
}

/// The lanes of the 16-byte window of `s` starting at `start`, indexed
/// modulo 16 (a byte shuffle wraps indices at the register width).
pub open spec fn wrap16_lane(s: Seq<u8>, start: int) -> spec_fn(int) -> u8 {
    |i: int| wbyte(s, 16, (start + i) % 16)
}

/// Base-128 value of `n` lanes read straight from the window.
pub open spec fn gather(s: Seq<u8>, l: int, start: int, n: int) -> nat {
    gather_lanes(window_lane(s, l, start), n)
}

/// Base-128 value of `n` lanes read from the 16-byte window with wrapping.
pub open spec fn gather_wrap16(s: Seq<u8>, start: int, n: int) -> nat {
    gather_lanes(wrap16_lane(s, start), n)
}

/// The `i`-th 7-bit group of the value `v`.
pub open spec fn group_of(v: nat, i: int) -> nat {
    (v / pow2((7 * i) as nat)) % 128
}

/// Number of bytes of the minimal varint encoding of `v`.
pub open spec fn encoded_len(v: nat) -> nat
    decreases v,
{
    if v < 128 {
        1
    } else {
        (1 + encoded_len(v / 128)) as nat
    }
}

/// Byte `i` of the encoder's 16-byte output for value `v`: the `i`-th 7-bit
/// group, with the continuation bit set on every byte but the last, and
/// zeros after the encoding.
pub open spec fn encoding_byte(v: nat, i: int) -> u8 {
    if i < encoded_len(v) - 1 {
        (group_of(v, i) + 128) as u8
    } else if i == encoded_len(v) - 1 {
        group_of(v, i) as u8
    } else {
        0
    }
}

/// The 16-byte buffer the encoder owes for value `v`.
pub open spec fn is_encoding16(s: Seq<u8>, v: nat) -> bool {
    s.len() == 16 && forall|i: int| 0 <= i < 16 ==> s[i] == encoding_byte(v, i)
}

/// ZigZag image of a signed value: non-negative numbers map to the evens,
/// negative numbers to the odds.
pub open spec fn zigzag_spec(n: int) -> nat {
    if n >= 0 {
        (2 * n) as nat
    } else {
        (-2 * n - 1) as nat
    }
}

/// Inverse of [`zigzag_spec`].
pub open spec fn unzigzag_spec(u: nat) -> int {
    if u % 2 == 0 {
        (u / 2) as int
    } else {
        -((u / 2) as int) - 1
    }
}

/// Byte `i` of a little-endian 64-bit word.
pub open spec fn word_byte(x: u64, i: int) -> u8 {
    (((x as nat) / pow2((8 * i) as nat)) % 256) as u8
}

/// The eight byte lanes of a little-endian 64-bit word.
pub open spec fn word_lane(x: u64) -> spec_fn(int) -> u8 {
    |i: int| word_byte(x, i)
}

/// Base-128 value of the 7-bit groups in the low `n` bytes of a word.
pub open spec fn gather_word(x: u64, n: int) -> nat {
    gather_lanes(word_lane(x), n)
}

/// A gather of `n` lanes stays below `128^n`.
pub proof fn lemma_gather_lanes_bound(f: spec_fn(int) -> u8, n: int)
    requires
        0 <= n,
    ensures
        gather_lanes(f, n) < pow2((7 * n) as nat),
    decreases n,
{
    lemma_pow2_pos((7 * n) as nat);
    if n > 0 {
        lemma_gather_lanes_bound(f, n - 1);
        lemma_pow2_pos((7 * (n - 1)) as nat);
        lemma_mul_inequality((f(n - 1) % 128) as int, 127, pow2((7 * (n - 1)) as nat) as int);
        lemma_pow2_adds((7 * (n - 1)) as nat, 7);
        lemma2_to64();
        assert(pow2((7 * (n - 1)) as nat) + 127 * pow2((7 * (n - 1)) as nat) == 128 * pow2(
            (7 * (n - 1)) as nat,
        ));
    }
}

/// Lanes at or past index `m` do not change a gather modulo `2^w` once
/// `7 * m >= w`: their weights are multiples of `2^w`.
pub proof fn lemma_gather_lanes_mod(f: spec_fn(int) -> u8, n: int, m: int, w: nat)
    requires
        0 <= m <= n,
        w <= 7 * m,
    ensures
        gather_lanes(f, n) % pow2(w) == gather_lanes(f, m) % pow2(w),
    decreases n,
{
    lemma_pow2_pos(w);
    if n > m {
        lemma_gather_lanes_mod(f, n - 1, m, w);
        let p = pow2(w);
        let t = (f(n - 1) % 128) as nat * pow2((7 * (n - 1)) as nat);
        lemma_pow2_adds(w, (7 * (n - 1) - w) as nat);
        assert(pow2((7 * (n - 1)) as nat) == p * pow2((7 * (n - 1) - w) as nat));
        let q = (f(n - 1) % 128) as nat * pow2((7 * (n - 1) - w) as nat);
        assert(t == p * q) by (nonlinear_arith)
            requires
                t == (f(n - 1) % 128) as nat * (p * pow2((7 * (n - 1) - w) as nat)),
                q == (f(n - 1) % 128) as nat * pow2((7 * (n - 1) - w) as nat),
        ;
        lemma_mod_multiples_vanish(q as int, gather_lanes(f, n - 1) as int, p as int);
        assert(gather_lanes(f, n) == gather_lanes(f, n - 1) + p * q);
        assert((p * q + gather_lanes(f, n - 1)) as int % (p as int) == gather_lanes(f, n - 1) as int
            % (p as int));
    }
}

/// One unfolding step of [`gather_lanes`], for walking a gather open by hand.
pub proof fn lemma_gather_lanes_succ(f: spec_fn(int) -> u8, n: int)
    requires
        1 <= n,
    ensures
        gather_lanes(f, n) == gather_lanes(f, n - 1) + (f(n - 1) % 128) as nat * pow2(
            (7 * (n - 1)) as nat,
        ),
{
}

/// Closed form of the first ten steps of [`gather_lanes`], with the lane
/// weights written out as literals.
pub proof fn lemma_gather_lanes_upto10(f: spec_fn(int) -> u8)
    ensures
        gather_lanes(f, 0) == 0,
        gather_lanes(f, 1) == (f(0) % 128) as nat,
        gather_lanes(f, 2) == gather_lanes(f, 1) + (f(1) % 128) as nat * 0x80,
        gather_lanes(f, 3) == gather_lanes(f, 2) + (f(2) % 128) as nat * 0x4000,
        gather_lanes(f, 4) == gather_lanes(f, 3) + (f(3) % 128) as nat * 0x200000,
        gather_lanes(f, 5) == gather_lanes(f, 4) + (f(4) % 128) as nat * 0x10000000,
        gather_lanes(f, 6) == gather_lanes(f, 5) + (f(5) % 128) as nat * 0x800000000,
        gather_lanes(f, 7) == gather_lanes(f, 6) + (f(6) % 128) as nat * 0x40000000000,
        gather_lanes(f, 8) == gather_lanes(f, 7) + (f(7) % 128) as nat * 0x2000000000000,
        gather_lanes(f, 9) == gather_lanes(f, 8) + (f(8) % 128) as nat * 0x100000000000000,
        gather_lanes(f, 10) == gather_lanes(f, 9) + (f(9) % 128) as nat * 0x8000000000000000,
{
    lemma2_to64();
    lemma2_to64_rest();
    assert(gather_lanes(f, 0) == 0);
    assert(gather_lanes(f, 1) == gather_lanes(f, 0) + (f(0) % 128) as nat * pow2(
        (7 * 0) as nat,
    ));
    assert((f(0) % 128) as nat * pow2((7 * 0) as nat) == (f(0) % 128) as nat) by (nonlinear_arith)
        requires
            pow2((7 * 0) as nat) == 1,
    ;
    assert((f(1) % 128) as nat * pow2(7) == (f(1) % 128) as nat * 0x80) by (nonlinear_arith)
        requires
            pow2(7) == 0x80,
    ;
    assert((f(2) % 128) as nat * pow2(14) == (f(2) % 128) as nat * 0x4000) by (nonlinear_arith)
        requires
            pow2(14) == 0x4000,
    ;
    assert((f(3) % 128) as nat * pow2(21) == (f(3) % 128) as nat * 0x200000) by (nonlinear_arith)
        requires
            pow2(21) == 0x200000,
    ;
    assert((f(4) % 128) as nat * pow2(28) == (f(4) % 128) as nat * 0x10000000) by (nonlinear_arith)
        requires
            pow2(28) == 0x10000000,
    ;
    assert((f(5) % 128) as nat * pow2(35) == (f(5) % 128) as nat * 0x800000000) by (
    nonlinear_arith)
        requires
            pow2(35) == 0x800000000,
    ;
    assert((f(6) % 128) as nat * pow2(42) == (f(6) % 128) as nat * 0x40000000000) by (
    nonlinear_arith)
        requires
            pow2(42) == 0x40000000000,
    ;
    assert((f(7) % 128) as nat * pow2(49) == (f(7) % 128) as nat * 0x2000000000000) by (
    nonlinear_arith)
        requires
            pow2(49) == 0x2000000000000,
    ;
    assert((f(8) % 128) as nat * pow2(56) == (f(8) % 128) as nat * 0x100000000000000) by (
    nonlinear_arith)
        requires
            pow2(56) == 0x100000000000000,
    ;
    assert((f(9) % 128) as nat * pow2(63) == (f(9) % 128) as nat * 0x8000000000000000) by (
    nonlinear_arith)
        requires
            pow2(63) == 0x8000000000000000,
    ;
}

/// Two lane suppliers that agree below `n` gather to the same value.
pub proof fn lemma_gather_lanes_congruence(f: spec_fn(int) -> u8, g: spec_fn(int) -> u8, n: int)
    requires
        forall|i: int| 0 <= i < n ==> #[trigger] f(i) == g(i),
    ensures
        gather_lanes(f, n) == gather_lanes(g, n),
    decreases n,
{
    if n > 0 {
        lemma_gather_lanes_congruence(f, g, n - 1);
    }
}

/// `pow2` is monotone.
pub proof fn lemma_pow2_le(e1: nat, e2: nat)
    requires
        e1 <= e2,
    ensures
        pow2(e1) <= pow2(e2),
{
    if e1 < e2 {
        lemma_pow2_strictly_increases(e1, e2);
    }
}

/// Values below `2^(7m)` have no 7-bit groups at or past index `m`.
pub proof fn lemma_group_of_zero(v: nat, m: int)
    requires
        0 <= m,
        v < pow2((7 * m) as nat),
    ensures
        forall|i: int| i >= m ==> #[trigger] group_of(v, i) == 0,
{
    assert forall|i: int| i >= m implies #[trigger] group_of(v, i) == 0 by {
        lemma_pow2_le((7 * m) as nat, (7 * i) as nat);
        lemma_basic_div(v as int, pow2((7 * i) as nat) as int);
    }
}

/// Words below `2^(8m)` have no byte lanes at or past index `m`.
pub proof fn lemma_word_byte_zero(x: u64, m: int)
    requires
        0 <= m,
        (x as nat) < pow2((8 * m) as nat),
    ensures
        forall|i: int| i >= m ==> #[trigger] word_byte(x, i) == 0,
{
    assert forall|i: int| i >= m implies #[trigger] word_byte(x, i) == 0 by {
        lemma_pow2_le((8 * m) as nat, (8 * i) as nat);
        lemma_basic_div(x as int, pow2((8 * i) as nat) as int);
    }
}

/// Gathering lanes that carry the 7-bit groups of `v` rebuilds `v` modulo
/// the gathered width.
pub proof fn lemma_gather_groups_mod(f: spec_fn(int) -> u8, v: nat, n: int)
    requires
        0 <= n,
        forall|i: int| 0 <= i < n ==> (#[trigger] f(i)) % 128 == group_of(v, i),
    ensures
        gather_lanes(f, n) == v % pow2((7 * n) as nat),
    decreases n,
{
    if n == 0 {
        lemma_pow2_pos(0);
        assert(pow2(0) == 1) by {
            lemma2_to64();
        }
    } else {
        lemma_gather_groups_mod(f, v, n - 1);
        let p = pow2((7 * (n - 1)) as nat);
        lemma_pow2_pos((7 * (n - 1)) as nat);
        lemma_pow2_adds((7 * (n - 1)) as nat, 7);
        lemma2_to64();
        assert(pow2((7 * n) as nat) == p * 128);
        lemma_breakdown(v as int, p as int, 128);
        assert(v as int % (p as int * 128) == p * ((v as int / p as int) % 128) + v as int
            % p as int);
        assert((f(n - 1) % 128) as nat == (v / p) % 128);
        assert(gather_lanes(f, n) == v % (p * 128) as nat) by {
            lemma_mul_is_commutative(p as int, ((v as int / p as int) % 128));
        }
    }
}

/// Gathering the 7-bit groups of a value below the gathered width rebuilds
/// it exactly.
pub proof fn lemma_gather_groups(f: spec_fn(int) -> u8, v: nat, n: int)
    requires
        0 <= n,
        v < pow2((7 * n) as nat),
        forall|i: int| 0 <= i < n ==> (#[trigger] f(i)) % 128 == group_of(v, i),
    ensures
        gather_lanes(f, n) == v,
{
    lemma_gather_groups_mod(f, v, n);
    lemma_small_mod(v, pow2((7 * n) as nat));
}

/// Every encoding takes at least one byte.
pub proof fn lemma_encoded_len_pos(v: nat)
    ensures
        1 <= encoded_len(v),
    decreases v,
{
    if v >= 128 {
        lemma_encoded_len_pos(v / 128);
    }
}

/// The minimal encoding length of `v` is at most `n` exactly when `v` fits
/// in `n` 7-bit groups.
pub proof fn lemma_encoded_len_le(v: nat, n: int)
    requires
        1 <= n,
    ensures
        encoded_len(v) <= n <==> v < pow2((7 * n) as nat),
    decreases n,
{
    lemma2_to64();
    if n == 1 {
        lemma_encoded_len_pos(v / 128);
        assert(pow2(7) == 128);
    } else {
        lemma_encoded_len_le(v / 128, n - 1);
        let p = pow2((7 * (n - 1)) as nat);
        lemma_pow2_pos((7 * (n - 1)) as nat);
        lemma_pow2_adds((7 * (n - 1)) as nat, 7);
        assert(pow2((7 * n) as nat) == p * 128);
        lemma_fundamental_div_mod(v as int, 128);
        assert(v / 128 < p <==> v < p * 128) by (nonlinear_arith)
            requires
                p >= 1,
                v as int == 128 * (v as int / 128) + (v as int % 128),
                0 <= v as int % 128 < 128,
        ;
        if v >= 128 {
            lemma_encoded_len_pos(v / 128);
        } else {
            lemma_pow2_le(7, (7 * n) as nat);
        }
    }
}

/// The final 7-bit group of the minimal encoding of a positive value is
/// itself positive.
pub proof fn lemma_last_group_pos(v: nat)
    requires
        v > 0,
    ensures
        group_of(v, encoded_len(v) - 1) != 0,
    decreases v,
{
    lemma2_to64();
    if v < 128 {
        lemma_small_mod(v, 128);
        assert(pow2(0) == 1);
        assert(group_of(v, 0) == (v / 1) % 128);
        assert(encoded_len(v) == 1);
    } else {
        lemma_last_group_pos(v / 128);
        lemma_encoded_len_pos(v / 128);
        let k = encoded_len(v / 128) - 1;
        lemma_pow2_adds(7, (7 * k) as nat);
        assert(pow2((7 * (k + 1)) as nat) == 128 * pow2((7 * k) as nat));
        lemma_pow2_pos((7 * k) as nat);
        lemma_div_denominator(v as int, 128, pow2((7 * k) as nat) as int);
        assert(v / pow2((7 * (k + 1)) as nat) == (v / 128) / pow2((7 * k) as nat));
        assert(group_of(v, k + 1) == group_of(v / 128, k));
        assert(encoded_len(v) == 1 + encoded_len(v / 128));
    }
}

/// Lanes that read zero from index `m` on contribute nothing.
pub proof fn lemma_gather_lanes_zero_tail(f: spec_fn(int) -> u8, n: int, m: int)
    requires
        0 <= m <= n,
        forall|i: int| m <= i < n ==> #[trigger] f(i) == 0,
    ensures
        gather_lanes(f, n) == gather_lanes(f, m),
    decreases n,
{
    if n > m {
        lemma_gather_lanes_zero_tail(f, n - 1, m);
    }
}

} // verus!
