//! The laws the codec obeys, stated over the models of the encoders and
//! decoders and proved once for every width.

use vstd::prelude::*;
use vstd::arithmetic::div_mod::lemma_small_mod;
use vstd::arithmetic::power2::{
    lemma2_to64, lemma_pow2_adds, lemma_pow2_pos, lemma_pow2_strictly_increases, pow2,
};

use crate::decode::{cap_at, decode_spec, raw_decode_len, two_lens};
use crate::model::{
    encoded_len, encoding_byte, gather, group_of, has_cont, is_encoding16, lemma_encoded_len_le,
    lemma_encoded_len_pos, lemma_gather_groups, lemma_gather_lanes_congruence, lemma_pow2_le,
    lemma_term_index_from_scan, unzigzag_spec, wbyte, window_lane, zigzag_spec,
};
use crate::num::VarIntTarget;
use crate::VarIntDecodeError;

verus! {

/// The window of `s` holds the minimal encoding of `v` starting at window
/// byte `start`.
pub open spec fn encodes_at(s: Seq<u8>, start: int, v: nat) -> bool {
    forall|i: int|
        0 <= i < encoded_len(v) ==> #[trigger] wbyte(s, 16, start + i) == encoding_byte(v, i)
}

/// ZigZag is a bijection: decoding an encoded signed value gives it back,
/// and encoding a decoded unsigned value gives that back.
pub proof fn lemma_zigzag_round_trip(n: int, u: nat)
    ensures
        unzigzag_spec(zigzag_spec(n)) == n,
        zigzag_spec(unzigzag_spec(u)) == u,
{
}

/// Boundary lengths: at every 7-bit group boundary the minimal encoding
/// grows by exactly one byte — `2^(7m) - 1` takes `m` bytes and `2^(7m)`
/// takes `m + 1`.
pub proof fn lemma_boundary_lengths(m: int)
    requires
        1 <= m,
    ensures
        encoded_len((pow2((7 * m) as nat) - 1) as nat) == m,
        encoded_len(pow2((7 * m) as nat)) == m + 1,
{
    let below = (pow2((7 * m) as nat) - 1) as nat;
    let at = pow2((7 * m) as nat);
    lemma_pow2_pos((7 * m) as nat);
    lemma_encoded_len_le(below, m);
    lemma_encoded_len_le(at, m + 1);
    lemma_pow2_strictly_increases((7 * m) as nat, (7 * (m + 1)) as nat);
    if m > 1 {
        lemma_encoded_len_le(below, m - 1);
        lemma_pow2_strictly_increases((7 * (m - 1)) as nat, (7 * m) as nat);
    } else {
        lemma_encoded_len_pos(below);
    }
    lemma_encoded_len_le(at, m);
}

/// A window that holds the minimal encoding of a value decodes to that
/// value with that length: the two halves of the round trip agree, before
/// the checked decoder's range tests.
pub proof fn lemma_single_decodes_encoding<T: VarIntTarget>(s: Seq<u8>, v: T)
    requires
        encodes_at(s, 0, v.as_nat()),
    ensures
        raw_decode_len::<T>(s) == encoded_len(v.as_nat()),
        gather(s, 16, 0, encoded_len(v.as_nat()) as int) % pow2(T::spec_bits()) == v.as_nat(),
{
    let n = v.as_nat();
    let ll = encoded_len(n) as int;
    T::lemma_width();
    T::lemma_as_nat_bound(v);
    lemma_pow2_le(T::spec_bits(), (7 * T::spec_max_varint_bytes()) as nat);
    lemma_encoded_len_le(n, T::spec_max_varint_bytes() as int);
    lemma_encoded_len_pos(n);
    lemma_encoded_len_le(n, ll);
    // the continuation bits place the terminator at the encoding's last byte
    assert forall|j: int| 0 <= j < ll - 1 implies has_cont(#[trigger] wbyte(s, 16, j)) by {
        assert(wbyte(s, 16, 0 + j) == encoding_byte(n, j));
    }
    assert(wbyte(s, 16, 0 + (ll - 1)) == encoding_byte(n, ll - 1));
    assert(!has_cont(wbyte(s, 16, ll - 1)));
    lemma_term_index_from_scan(s, 16, 0, ll - 1);
    // the gathered lanes rebuild the value
    let f = window_lane(s, 16, 0);
    assert forall|i: int| 0 <= i < ll implies (#[trigger] f(i)) % 128 == group_of(n, i) by {
        assert(wbyte(s, 16, 0 + i) == encoding_byte(n, i));
    }
    lemma_gather_groups(f, n, ll);
    lemma_small_mod(n, pow2(T::spec_bits()));
}

/// Round trip: the buffer the encoder owes for a value decodes, through
/// the checked decoder, to exactly that value and the minimal encoding
/// length.
pub proof fn lemma_round_trip<T: VarIntTarget>(s: Seq<u8>, v: T)
    requires
        is_encoding16(s, v.as_nat()),
    ensures
        decode_spec::<T>(s) == Ok::<(nat, int), VarIntDecodeError>(
            (v.as_nat(), encoded_len(v.as_nat()) as int),
        ),
{
    let n = v.as_nat();
    let ll = encoded_len(n) as int;
    let nb = T::spec_max_varint_bytes() as int;
    T::lemma_width();
    T::lemma_as_nat_bound(v);
    lemma_pow2_le(T::spec_bits(), (7 * T::spec_max_varint_bytes()) as nat);
    lemma_encoded_len_le(n, nb);
    lemma_encoded_len_pos(n);
    assert forall|i: int| 0 <= i < ll implies #[trigger] wbyte(s, 16, 0 + i) == encoding_byte(
        n,
        i,
    ) by {
        assert(s[i] == encoding_byte(n, i));
    }
    lemma_single_decodes_encoding(s, v);
    if ll == nb {
        // the final byte of a maximum-length encoding stays within the
        // admissible bound because the value fits the type
        assert(wbyte(s, 16, 0 + (nb - 1)) == encoding_byte(n, nb - 1));
        let p = pow2((7 * (nb - 1)) as nat);
        let q = pow2((T::spec_bits() - 7 * (nb - 1)) as nat);
        lemma_pow2_adds((7 * (nb - 1)) as nat, (T::spec_bits() - 7 * (nb - 1)) as nat);
        lemma_pow2_pos((7 * (nb - 1)) as nat);
        lemma_pow2_pos((T::spec_bits() - 7 * (nb - 1)) as nat);
        assert(n < p * q);
        vstd::arithmetic::div_mod::lemma_multiply_divide_lt(n as int, p as int, q as int);
        lemma_pow2_le((T::spec_bits() - 7 * (nb - 1)) as nat, 7);
        lemma2_to64();
        lemma_small_mod((n / p) as nat, 128);
        assert(group_of(n, nb - 1) < q);
        assert(s[nb - 1] == encoding_byte(n, nb - 1));
    }
}

/// Batch/scalar equivalence: on two adjacent minimal encodings the 2-way
/// batched decoder reports exactly what two runs of the single-value
/// decoder report — each value with its minimal length, the second found
/// at the cursor the first left behind.
pub proof fn lemma_two_matches_single<T: VarIntTarget, U: VarIntTarget>(s: Seq<u8>, a: T, b: U)
    requires
        s.len() >= 16,
        T::spec_max_varint_bytes() + U::spec_max_varint_bytes() <= 16,
        encodes_at(s, 0, a.as_nat()),
        encodes_at(s, encoded_len(a.as_nat()) as int, b.as_nat()),
        encoded_len(a.as_nat()) <= T::spec_max_varint_bytes(),
        encoded_len(b.as_nat()) <= U::spec_max_varint_bytes(),
    ensures
        two_lens::<T, U>(s).0 == encoded_len(a.as_nat()),
        two_lens::<T, U>(s).1 == encoded_len(b.as_nat()),
        gather(s, 16, 0, cap_at(two_lens::<T, U>(s).0, 16)) % pow2(T::spec_bits()) == a.as_nat(),
        T::spec_max_varint_bytes() <= 5 && U::spec_max_varint_bytes() <= 5 ==> gather(
            s,
            16,
            two_lens::<T, U>(s).0,
            cap_at(two_lens::<T, U>(s).1, 8),
        ) % pow2(U::spec_bits()) == b.as_nat(),
        crate::model::gather_wrap16(s, two_lens::<T, U>(s).0, cap_at(two_lens::<T, U>(s).1, 16))
            % pow2(U::spec_bits()) == b.as_nat(),
        raw_decode_len::<T>(s) == encoded_len(a.as_nat()),
        raw_decode_len::<U>(s.subrange(encoded_len(a.as_nat()) as int, s.len() as int))
            == encoded_len(b.as_nat()),
        gather(
            s.subrange(encoded_len(a.as_nat()) as int, s.len() as int),
            16,
            0,
            encoded_len(b.as_nat()) as int,
        ) % pow2(U::spec_bits()) == b.as_nat(),
{
    let va = a.as_nat();
    let vb = b.as_nat();
    let la = encoded_len(va) as int;
    let lb = encoded_len(vb) as int;
    T::lemma_width();
    U::lemma_width();
    T::lemma_as_nat_bound(a);
    U::lemma_as_nat_bound(b);
    lemma_encoded_len_pos(va);
    lemma_encoded_len_pos(vb);
    lemma_single_decodes_encoding(s, a);
    let l: int = if T::spec_max_varint_bytes() <= 5 && U::spec_max_varint_bytes() <= 5 {
        10
    } else {
        16
    };
    // boundaries: the cascade finds each encoding's terminator, over either
    // window length, because both encodings lie inside the shorter one
    assert forall|j: int| 0 <= j < la - 1 implies has_cont(#[trigger] wbyte(s, l, j)) by {
        assert(wbyte(s, 16, 0 + j) == encoding_byte(va, j));
    }
    assert(wbyte(s, 16, 0 + (la - 1)) == encoding_byte(va, la - 1));
    lemma_term_index_from_scan(s, l, 0, la - 1);
    assert forall|j: int| la <= j < la + lb - 1 implies has_cont(#[trigger] wbyte(s, l, j)) by {
        assert(wbyte(s, 16, la + (j - la)) == encoding_byte(vb, j - la));
    }
    assert(wbyte(s, 16, la + (lb - 1)) == encoding_byte(vb, lb - 1));
    lemma_term_index_from_scan(s, l, la, la + lb - 1);
    assert(two_lens::<T, U>(s).0 == la);
    assert(two_lens::<T, U>(s).1 == lb);
    // second value, straight lanes
    let g = window_lane(s, 16, la);
    assert forall|i: int| 0 <= i < lb implies (#[trigger] g(i)) % 128 == group_of(vb, i) by {
        assert(wbyte(s, 16, la + i) == encoding_byte(vb, i));
    }
    lemma_encoded_len_le(vb, lb);
    lemma_gather_groups(g, vb, lb);
    lemma_small_mod(vb, pow2(U::spec_bits()));
    // second value, wrapped lanes: no index wraps because both encodings
    // fit the window
    let gw = crate::model::wrap16_lane(s, la);
    assert forall|i: int| 0 <= i < cap_at(lb, 16) implies (#[trigger] gw(i)) == g(i) by {
        assert((la + i) % 16 == la + i);
    }
    lemma_gather_lanes_congruence(gw, g, cap_at(lb, 16));
    // the single decoder at the advanced cursor sees the second encoding
    let tail = s.subrange(la, s.len() as int);
    assert forall|i: int| 0 <= i < lb implies #[trigger] wbyte(tail, 16, 0 + i) == encoding_byte(
        vb,
        i,
    ) by {
        assert(tail[i] == s[la + i]);
        assert(wbyte(s, 16, la + i) == encoding_byte(vb, i));
    }
    lemma_single_decodes_encoding(tail, b);
}

} // verus!
