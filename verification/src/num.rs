//! Per-width numeric descriptors.
//!
//! [`VarIntTarget`] gives each unsigned width its wire constants (maximum
//! varint length, largest admissible final byte) and the two lane
//! transforms: scattering a value into 7-bit groups, one per byte lane
//! (*stage 1*), and gathering lanes back into a scalar, truncating to the
//! width.  [`SignedVarIntTarget`] pairs each signed width with its unsigned
//! companion through the ZigZag mapping.  Widths are resolved at compile
//! time through the trait; nothing dispatches at run time.

use vstd::prelude::*;
use vstd::arithmetic::power2::{lemma2_to64, lemma2_to64_rest, pow2};
use vstd::arithmetic::div_mod::lemma_small_mod;

use crate::model::{
    gather, gather_word, group_of, lemma_gather_lanes_mod, lemma_gather_lanes_upto10,
    lemma_group_of_zero, lemma_pow2_le, lemma_word_byte_zero, unzigzag_spec, window_lane,
    word_byte, word_lane, zigzag_spec,
};

verus! {

/// An unsigned scalar value that can be encoded to and decoded from a varint.
pub trait VarIntTarget: Sized + Copy {
    /// Bit width of the type.
    spec fn spec_bits() -> nat;

    /// Maximum number of bytes a varint for this type occupies
    /// (`MAX_VARINT_BYTES`).
    spec fn spec_max_varint_bytes() -> nat;

    /// Largest value of the final byte of a maximum-length varint that keeps
    /// the decoded value within range (`MAX_LAST_VARINT_BYTE`).
    spec fn spec_max_last_varint_byte() -> u8;

    /// The value as a natural number.
    spec fn as_nat(self) -> nat;

    /// The arithmetic relations every width descriptor obeys.
    proof fn lemma_width()
        ensures
            2 <= Self::spec_max_varint_bytes() <= 10,
            7 * (Self::spec_max_varint_bytes() - 1) < Self::spec_bits(),
            Self::spec_bits() <= 7 * Self::spec_max_varint_bytes(),
            Self::spec_max_last_varint_byte() as nat + 1 == pow2(
                (Self::spec_bits() - 7 * (Self::spec_max_varint_bytes() - 1)) as nat,
            ),
            Self::spec_max_varint_bytes() <= 5 ==> Self::spec_bits() <= 32,
            Self::spec_max_varint_bytes() > 5 ==> Self::spec_bits() <= 64,
    ;

    /// Every value lies below `2^bits`.
    proof fn lemma_as_nat_bound(self)
        ensures
            self.as_nat() < pow2(Self::spec_bits()),
    ;

    /// `MAX_VARINT_BYTES` as a run-time constant.
    fn max_varint_bytes() -> (r: u8)
        ensures
            r as nat == Self::spec_max_varint_bytes(),
    ;

    /// `MAX_LAST_VARINT_BYTE` as a run-time constant.
    fn max_last_varint_byte() -> (r: u8)
        ensures
            r == Self::spec_max_last_varint_byte(),
    ;

    /// Gathers the 7-bit lanes of a 16-byte register into a scalar,
    /// truncating to the type's width.
    fn vector_to_num(res: [u8; 16]) -> (r: Self)
        ensures
            r.as_nat() == gather(res@, 16, 0, 16) % pow2(Self::spec_bits()),
    ;

    /// Gathers the 7-bit groups held in the byte lanes of a 64-bit word;
    /// only for widths whose varints fit in such a word.
    fn scalar_to_num(x: u64) -> (r: Self)
        requires
            Self::spec_max_varint_bytes() <= 5,
        ensures
            r.as_nat() == gather_word(x, 8) % pow2(Self::spec_bits()),
    ;

    /// Cast from `u32`, truncating to the type's width.
    fn cast_u32(num: u32) -> (r: Self)
        ensures
            r.as_nat() == (num as nat) % pow2(Self::spec_bits()),
    ;

    /// Cast from `u64`, truncating to the type's width.
    fn cast_u64(num: u64) -> (r: Self)
        ensures
            r.as_nat() == (num as nat) % pow2(Self::spec_bits()),
    ;

    /// Splits this number into 7-bit groups, one per byte lane of a 64-bit
    /// word; only for widths whose varints fit in such a word.
    fn num_to_scalar_stage1(self) -> (r: u64)
        requires
            Self::spec_max_varint_bytes() <= 5,
        ensures
            forall|i: int| 0 <= i < 8 ==> word_byte(r, i) as nat == group_of(self.as_nat(), i),
    ;

    /// Splits this number into 7-bit groups, one per lane of a 16-byte
    /// register.
    fn num_to_vector_stage1(self) -> (r: [u8; 16])
        ensures
            forall|i: int| 0 <= i < 16 ==> r@[i] as nat == group_of(self.as_nat(), i),
    ;
}

/// A signed scalar value that can be encoded to and decoded from a varint in
/// ZigZag format.
pub trait SignedVarIntTarget: Sized + Copy {
    /// The unsigned companion type that carries the wire encoding.
    type Unsigned: VarIntTarget;

    /// The value as an integer.
    spec fn as_int(self) -> int;

    /// ZigZag-encodes this value.
    fn zigzag(from: Self) -> (r: Self::Unsigned)
        ensures
            r.as_nat() == zigzag_spec(from.as_int()),
    ;

    /// ZigZag-decodes the unsigned companion value.
    fn unzigzag(from: Self::Unsigned) -> (r: Self)
        ensures
            r.as_int() == unzigzag_spec(from.as_nat()),
    ;
}

impl VarIntTarget for u8 {
    open spec fn spec_bits() -> nat {
        8
    }

    open spec fn spec_max_varint_bytes() -> nat {
        2
    }

    open spec fn spec_max_last_varint_byte() -> u8 {
        0x01
    }

    open spec fn as_nat(self) -> nat {
        self as nat
    }

    proof fn lemma_width() {
        lemma2_to64();
    }

    proof fn lemma_as_nat_bound(self) {
        lemma2_to64();
    }

    fn max_varint_bytes() -> u8 {
        2
    }

    fn max_last_varint_byte() -> u8 {
        0x01
    }

    fn vector_to_num(res: [u8; 16]) -> (r: Self) {
        let b0 = res[0];
        let b1 = res[1];
        let r = (b0 & 0x7f) | ((b1 & 0x01) << 7);
        proof {
            lemma2_to64();
            let f = window_lane(res@, 16, 0);
            lemma_gather_lanes_mod(f, 16, 2, 8);
            lemma_gather_lanes_upto10(f);
            assert(f(0) == b0 && f(1) == b1);
            assert(r == ((b0 % 128) + (b1 % 128) * 0x80) % 256) by (bit_vector)
                requires
                    r == (b0 & 0x7f) | ((b1 & 0x01) << 7),
            ;
        }
        r
    }

    fn scalar_to_num(x: u64) -> (r: Self) {
        let r = #[verifier::truncate] (((x & 0x7f) | ((x & 0x100) >> 1)) as u8);
        proof {
            lemma2_to64();
            let f = word_lane(x);
            lemma_gather_lanes_mod(f, 8, 2, 8);
            lemma_gather_lanes_upto10(f);
            assert(f(0) == word_byte(x, 0) && f(1) == word_byte(x, 1));
            assert(word_byte(x, 0) == (x as nat / 1) % 256);
            assert(word_byte(x, 1) == (x as nat / 256) % 256);
            assert(r == (((x % 256) % 128) + (((x / 256) % 256) % 128) * 0x80) % 256) by (
            bit_vector)
                requires
                    r == ((x & 0x7f) | ((x & 0x100) >> 1)) as u8,
            ;
        }
        r
    }

    fn cast_u32(num: u32) -> (r: Self) {
        let r = num as u8;
        proof {
            lemma2_to64();
            assert(r == num % 256) by (bit_vector)
                requires
                    r == num as u8,
            ;
        }
        r
    }

    fn cast_u64(num: u64) -> (r: Self) {
        let r = num as u8;
        proof {
            lemma2_to64();
            assert(r == num % 256) by (bit_vector)
                requires
                    r == num as u8,
            ;
        }
        r
    }

    fn num_to_scalar_stage1(self) -> (r: u64) {
        let x = self as u64;
        let r = (x & 0x7f) | ((x & 0x80) << 1);
        proof {
            lemma2_to64();
            let v = self as nat;
            assert(x < 256 && r < 65536 && r % 256 == x % 128 && (r / 256) % 256 == x / 128) by (
            bit_vector)
                requires
                    x == self as u64,
                    r == (x & 0x7f) | ((x & 0x80) << 1),
            ;
            assert(word_byte(r, 0) == (r as nat / 1) % 256);
            assert(word_byte(r, 1) == (r as nat / 256) % 256);
            lemma_word_byte_zero(r, 2);
            lemma_group_of_zero(v, 2);
            assert(group_of(v, 0) == (v / 1) % 128);
            assert(group_of(v, 1) == (v / pow2(7)) % 128);
            lemma_small_mod(v / 128, 128);
        }
        r
    }

    fn num_to_vector_stage1(self) -> (r: [u8; 16]) {
        let r = [self & 0x7f, self >> 7, 0u8, 0u8, 0u8, 0u8, 0u8, 0u8, 0u8, 0u8, 0u8, 0u8, 0u8,
            0u8, 0u8, 0u8];
        proof {
            lemma2_to64();
            let v = self as nat;
            assert((self & 0x7f) == self % 128 && (self >> 7) == self / 128) by (bit_vector);
            lemma_group_of_zero(v, 2);
            assert(group_of(v, 0) == (v / 1) % 128);
            assert(group_of(v, 1) == (v / pow2(7)) % 128);
            lemma_small_mod(v / 128, 128);
        }
        r
    }
}

impl VarIntTarget for u16 {
    open spec fn spec_bits() -> nat {
        16
    }

    open spec fn spec_max_varint_bytes() -> nat {
        3
    }

    open spec fn spec_max_last_varint_byte() -> u8 {
        0x03
    }

    open spec fn as_nat(self) -> nat {
        self as nat
    }

    proof fn lemma_width() {
        lemma2_to64();
    }

    proof fn lemma_as_nat_bound(self) {
        lemma2_to64();
    }

    fn max_varint_bytes() -> u8 {
        3
    }

    fn max_last_varint_byte() -> u8 {
        0x03
    }

    fn vector_to_num(res: [u8; 16]) -> (r: Self) {
        let b0 = res[0];
        let b1 = res[1];
        let b2 = res[2];
        let r = (b0 & 0x7f) as u16 | (((b1 & 0x7f) as u16) << 7) | (((b2 & 0x03) as u16) << 14);
        proof {
            lemma2_to64();
            let f = window_lane(res@, 16, 0);
            lemma_gather_lanes_mod(f, 16, 3, 16);
            lemma_gather_lanes_upto10(f);
            assert(f(0) == b0 && f(1) == b1 && f(2) == b2);
            assert(r == ((b0 % 128) + (b1 % 128) * 0x80 + (b2 % 128) * 0x4000) % 0x10000) by (
            bit_vector)
                requires
                    r == (b0 & 0x7f) as u16 | (((b1 & 0x7f) as u16) << 7) | (((b2
                        & 0x03) as u16) << 14),
            ;
        }
        r
    }

    fn scalar_to_num(x: u64) -> (r: Self) {
        let r = #[verifier::truncate] (((x & 0x7f) | ((x & 0x30000) >> 2) | ((x & 0x7f00)
            >> 1)) as u16);
        proof {
            lemma2_to64();
            let f = word_lane(x);
            lemma_gather_lanes_mod(f, 8, 3, 16);
            lemma_gather_lanes_upto10(f);
            assert(f(0) == word_byte(x, 0) && f(1) == word_byte(x, 1) && f(2) == word_byte(x, 2));
            assert(word_byte(x, 0) == (x as nat / 1) % 256);
            assert(word_byte(x, 1) == (x as nat / 0x100) % 256);
            assert(word_byte(x, 2) == (x as nat / 0x10000) % 256);
            assert(r == (((x % 256) % 128) + (((x / 0x100) % 256) % 128) * 0x80 + (((x / 0x10000)
                % 256) % 128) * 0x4000) % 0x10000) by (bit_vector)
                requires
                    r == ((x & 0x7f) | ((x & 0x30000) >> 2) | ((x & 0x7f00) >> 1)) as u16,
            ;
        }
        r
    }

    fn cast_u32(num: u32) -> (r: Self) {
        let r = num as u16;
        proof {
            lemma2_to64();
            assert(r == num % 0x10000) by (bit_vector)
                requires
                    r == num as u16,
            ;
        }
        r
    }

    fn cast_u64(num: u64) -> (r: Self) {
        let r = num as u16;
        proof {
            lemma2_to64();
            assert(r == num % 0x10000) by (bit_vector)
                requires
                    r == num as u16,
            ;
        }
        r
    }

    fn num_to_scalar_stage1(self) -> (r: u64) {
        let x = self as u64;
        let r = (x & 0x7f) | ((x & 0x3f80) << 1) | ((x & 0xc000) << 2);
        proof {
            lemma2_to64();
            let v = self as nat;
            assert(x < 0x10000 && r < 0x1000000 && r % 256 == x % 128 && (r / 0x100) % 256 == (x
                / 0x80) % 128 && (r / 0x10000) % 256 == (x / 0x4000) % 128) by (bit_vector)
                requires
                    x == self as u64,
                    self <= 0xffffu16,
                    r == (x & 0x7f) | ((x & 0x3f80) << 1) | ((x & 0xc000) << 2),
            ;
            assert(word_byte(r, 0) == (r as nat / 1) % 256);
            assert(word_byte(r, 1) == (r as nat / 0x100) % 256);
            assert(word_byte(r, 2) == (r as nat / 0x10000) % 256);
            lemma_word_byte_zero(r, 3);
            lemma_group_of_zero(v, 3);
            assert(group_of(v, 0) == (v / 1) % 128);
            assert(group_of(v, 1) == (v / pow2(7)) % 128);
            assert(group_of(v, 2) == (v / pow2(14)) % 128);
        }
        r
    }

    fn num_to_vector_stage1(self) -> (r: [u8; 16]) {
        let r = [(self & 0x7f) as u8, ((self >> 7) & 0x7f) as u8, (self >> 14) as u8, 0u8, 0u8,
            0u8, 0u8, 0u8, 0u8, 0u8, 0u8, 0u8, 0u8, 0u8, 0u8, 0u8];
        proof {
            lemma2_to64();
            let v = self as nat;
            assert((self & 0x7f) as u8 == self % 128 && ((self >> 7) & 0x7f) as u8 == (self / 0x80)
                % 128 && (self >> 14) as u8 == (self / 0x4000) % 128) by (bit_vector);
            lemma_group_of_zero(v, 3);
            assert(group_of(v, 0) == (v / 1) % 128);
            assert(group_of(v, 1) == (v / pow2(7)) % 128);
            assert(group_of(v, 2) == (v / pow2(14)) % 128);
        }
        r
    }
}

impl VarIntTarget for u32 {
    open spec fn spec_bits() -> nat {
        32
    }

    open spec fn spec_max_varint_bytes() -> nat {
        5
    }

    open spec fn spec_max_last_varint_byte() -> u8 {
        0x0f
    }

    open spec fn as_nat(self) -> nat {
        self as nat
    }

    proof fn lemma_width() {
        lemma2_to64();
    }

    proof fn lemma_as_nat_bound(self) {
        lemma2_to64();
    }

    fn max_varint_bytes() -> u8 {
        5
    }

    fn max_last_varint_byte() -> u8 {
        0x0f
    }

    fn vector_to_num(res: [u8; 16]) -> (r: Self) {
        let b0 = res[0];
        let b1 = res[1];
        let b2 = res[2];
        let b3 = res[3];
        let b4 = res[4];
        let r = (b0 & 0x7f) as u32 | (((b1 & 0x7f) as u32) << 7) | (((b2 & 0x7f) as u32) << 14) | (
        ((b3 & 0x7f) as u32) << 21) | (((b4 & 0x0f) as u32) << 28);
        proof {
            lemma2_to64();
            let f = window_lane(res@, 16, 0);
            lemma_gather_lanes_mod(f, 16, 5, 32);
            lemma_gather_lanes_upto10(f);
            assert(f(0) == b0 && f(1) == b1 && f(2) == b2 && f(3) == b3 && f(4) == b4);
            assert(r == ((b0 % 128) + (b1 % 128) * 0x80 + (b2 % 128) * 0x4000 + (b3 % 128)
                * 0x200000 + (b4 % 128) * 0x10000000) % 0x100000000) by (bit_vector)
                requires
                    r == (b0 & 0x7f) as u32 | (((b1 & 0x7f) as u32) << 7) | (((b2
                        & 0x7f) as u32) << 14) | (((b3 & 0x7f) as u32) << 21) | (((b4
                        & 0x0f) as u32) << 28),
            ;
        }
        r
    }

    fn scalar_to_num(x: u64) -> (r: Self) {
        let r = #[verifier::truncate] (((x & 0x7f) | ((x & 0xf00000000) >> 4) | ((x & 0x7f000000)
            >> 3) | ((x & 0x7f0000) >> 2) | ((x & 0x7f00) >> 1)) as u32);
        proof {
            lemma2_to64();
            let f = word_lane(x);
            lemma_gather_lanes_mod(f, 8, 5, 32);
            lemma_gather_lanes_upto10(f);
            assert(f(0) == word_byte(x, 0) && f(1) == word_byte(x, 1) && f(2) == word_byte(x, 2)
                && f(3) == word_byte(x, 3) && f(4) == word_byte(x, 4));
            assert(word_byte(x, 0) == (x as nat / 1) % 256);
            assert(word_byte(x, 1) == (x as nat / 0x100) % 256);
            assert(word_byte(x, 2) == (x as nat / 0x10000) % 256);
            assert(word_byte(x, 3) == (x as nat / 0x1000000) % 256);
            assert(word_byte(x, 4) == (x as nat / 0x100000000) % 256);
            assert(r == (((x % 256) % 128) + (((x / 0x100) % 256) % 128) * 0x80 + (((x / 0x10000)
                % 256) % 128) * 0x4000 + (((x / 0x1000000) % 256) % 128) * 0x200000 + (((x
                / 0x100000000) % 256) % 128) * 0x10000000) % 0x100000000) by (bit_vector)
                requires
                    r == ((x & 0x7f) | ((x & 0xf00000000) >> 4) | ((x & 0x7f000000) >> 3) | ((x
                        & 0x7f0000) >> 2) | ((x & 0x7f00) >> 1)) as u32,
            ;
        }
        r
    }

    fn cast_u32(num: u32) -> (r: Self) {
        proof {
            lemma2_to64();
            vstd::arithmetic::div_mod::lemma_small_mod(num as nat, pow2(32));
        }
        num
    }

    fn cast_u64(num: u64) -> (r: Self) {
        let r = num as u32;
        proof {
            lemma2_to64();
            assert(r == num % 0x100000000) by (bit_vector)
                requires
                    r == num as u32,
            ;
        }
        r
    }

    fn num_to_scalar_stage1(self) -> (r: u64) {
        let x = self as u64;
        let r = (x & 0x7f) | ((x & 0x3f80) << 1) | ((x & 0x1fc000) << 2) | ((x & 0xfe00000) << 3)
            | ((x & 0xf0000000) << 4);
        proof {
            lemma2_to64();
            let v = self as nat;
            assert(x < 0x100000000 && r < 0x10000000000 && r % 256 == x % 128 && (r / 0x100) % 256
                == (x / 0x80) % 128 && (r / 0x10000) % 256 == (x / 0x4000) % 128 && (r / 0x1000000)
                % 256 == (x / 0x200000) % 128 && (r / 0x100000000) % 256 == (x / 0x10000000)
                % 128) by (bit_vector)
                requires
                    x == self as u64,
                    self <= 0xffffffffu32,
                    r == (x & 0x7f) | ((x & 0x3f80) << 1) | ((x & 0x1fc000) << 2) | ((x
                        & 0xfe00000) << 3) | ((x & 0xf0000000) << 4),
            ;
            assert(word_byte(r, 0) == (r as nat / 1) % 256);
            assert(word_byte(r, 1) == (r as nat / 0x100) % 256);
            assert(word_byte(r, 2) == (r as nat / 0x10000) % 256);
            assert(word_byte(r, 3) == (r as nat / 0x1000000) % 256);
            assert(word_byte(r, 4) == (r as nat / 0x100000000) % 256);
            lemma2_to64_rest();
            lemma_word_byte_zero(r, 5);
            lemma_group_of_zero(v, 5);
            assert(group_of(v, 0) == (v / 1) % 128);
            assert(group_of(v, 1) == (v / pow2(7)) % 128);
            assert(group_of(v, 2) == (v / pow2(14)) % 128);
            assert(group_of(v, 3) == (v / pow2(21)) % 128);
            assert(group_of(v, 4) == (v / pow2(28)) % 128);
        }
        r
    }

    fn num_to_vector_stage1(self) -> (r: [u8; 16]) {
        let r = [(self & 0x7f) as u8, ((self >> 7) & 0x7f) as u8, ((self >> 14) & 0x7f) as u8, ((
        self >> 21) & 0x7f) as u8, (self >> 28) as u8, 0u8, 0u8, 0u8, 0u8, 0u8, 0u8, 0u8, 0u8, 0u8,
            0u8, 0u8];
        proof {
            lemma2_to64();
            let v = self as nat;
            assert((self & 0x7f) as u8 == self % 128 && ((self >> 7) & 0x7f) as u8 == (self / 0x80)
                % 128 && ((self >> 14) & 0x7f) as u8 == (self / 0x4000) % 128 && ((self >> 21)
                & 0x7f) as u8 == (self / 0x200000) % 128 && (self >> 28) as u8 == (self
                / 0x10000000) % 128) by (bit_vector);
            lemma2_to64_rest();
            lemma_group_of_zero(v, 5);
            assert(group_of(v, 0) == (v / 1) % 128);
            assert(group_of(v, 1) == (v / pow2(7)) % 128);
            assert(group_of(v, 2) == (v / pow2(14)) % 128);
            assert(group_of(v, 3) == (v / pow2(21)) % 128);
            assert(group_of(v, 4) == (v / pow2(28)) % 128);
        }
        r
    }
}

impl VarIntTarget for u64 {
    open spec fn spec_bits() -> nat {
        64
    }

    open spec fn spec_max_varint_bytes() -> nat {
        10
    }

    open spec fn spec_max_last_varint_byte() -> u8 {
        0x01
    }

    open spec fn as_nat(self) -> nat {
        self as nat
    }

    proof fn lemma_width() {
        lemma2_to64();
        lemma2_to64_rest();
    }

    proof fn lemma_as_nat_bound(self) {
        lemma2_to64();
        lemma2_to64_rest();
    }

    fn max_varint_bytes() -> u8 {
        10
    }

    fn max_last_varint_byte() -> u8 {
        0x01
    }

    fn vector_to_num(res: [u8; 16]) -> (r: Self) {
        let b0 = res[0];
        let b1 = res[1];
        let b2 = res[2];
        let b3 = res[3];
        let b4 = res[4];
        let b5 = res[5];
        let b6 = res[6];
        let b7 = res[7];
        let b8 = res[8];
        let b9 = res[9];
        let r = (b0 & 0x7f) as u64 | (((b1 & 0x7f) as u64) << 7) | (((b2 & 0x7f) as u64) << 14) | (
        ((b3 & 0x7f) as u64) << 21) | (((b4 & 0x7f) as u64) << 28) | (((b5 & 0x7f) as u64) << 35)
            | (((b6 & 0x7f) as u64) << 42) | (((b7 & 0x7f) as u64) << 49) | (((b8
            & 0x7f) as u64) << 56) | (((b9 & 0x01) as u64) << 63);
        proof {
            lemma2_to64();
            lemma2_to64_rest();
            let f = window_lane(res@, 16, 0);
            lemma_gather_lanes_mod(f, 16, 10, 64);
            lemma_gather_lanes_upto10(f);
            assert(f(0) == b0 && f(1) == b1 && f(2) == b2 && f(3) == b3 && f(4) == b4 && f(5) == b5
                && f(6) == b6 && f(7) == b7 && f(8) == b8 && f(9) == b9);
            assert(r == ((b0 % 128) + (b1 % 128) * 0x80 + (b2 % 128) * 0x4000 + (b3 % 128)
                * 0x200000 + (b4 % 128) * 0x10000000 + (b5 % 128) * 0x800000000 + (b6 % 128)
                * 0x40000000000 + (b7 % 128) * 0x2000000000000 + (b8 % 128) * 0x100000000000000 + (
            b9 % 128) * 0x8000000000000000) % 0x10000000000000000) by (bit_vector)
                requires
                    r == (b0 & 0x7f) as u64 | (((b1 & 0x7f) as u64) << 7) | (((b2
                        & 0x7f) as u64) << 14) | (((b3 & 0x7f) as u64) << 21) | (((b4
                        & 0x7f) as u64) << 28) | (((b5 & 0x7f) as u64) << 35) | (((b6
                        & 0x7f) as u64) << 42) | (((b7 & 0x7f) as u64) << 49) | (((b8
                        & 0x7f) as u64) << 56) | (((b9 & 0x01) as u64) << 63),
            ;
        }
        r
    }

    fn scalar_to_num(x: u64) -> (r: Self) {
        vstd::pervasive::unreached()
    }

    fn cast_u32(num: u32) -> (r: Self) {
        let r = num as u64;
        proof {
            lemma2_to64();
            lemma2_to64_rest();
            vstd::arithmetic::div_mod::lemma_small_mod(num as nat, pow2(64));
        }
        r
    }

    fn cast_u64(num: u64) -> (r: Self) {
        proof {
            lemma2_to64();
            lemma2_to64_rest();
            vstd::arithmetic::div_mod::lemma_small_mod(num as nat, pow2(64));
        }
        num
    }

    fn num_to_scalar_stage1(self) -> (r: u64) {
        vstd::pervasive::unreached()
    }

    #[verifier::rlimit(80)]
    fn num_to_vector_stage1(self) -> (r: [u8; 16]) {
        let x = self;
        let r = [(x & 0x7f) as u8, ((x >> 7) & 0x7f) as u8, ((x >> 14) & 0x7f) as u8, ((x >> 21)
            & 0x7f) as u8, ((x >> 28) & 0x7f) as u8, ((x >> 35) & 0x7f) as u8, ((x >> 42)
            & 0x7f) as u8, ((x >> 49) & 0x7f) as u8, ((x >> 56) & 0x7f) as u8, (x >> 63) as u8,
            0u8, 0u8, 0u8, 0u8, 0u8, 0u8];
        proof {
            lemma2_to64();
            lemma2_to64_rest();
            let v = self as nat;
            assert((x & 0x7f) as u8 == x % 128 && ((x >> 7) & 0x7f) as u8 == (x / 0x80) % 128 && ((
            x >> 14) & 0x7f) as u8 == (x / 0x4000) % 128 && ((x >> 21) & 0x7f) as u8 == (x
                / 0x200000) % 128 && ((x >> 28) & 0x7f) as u8 == (x / 0x10000000) % 128 && ((x
                >> 35) & 0x7f) as u8 == (x / 0x800000000) % 128 && ((x >> 42) & 0x7f) as u8 == (x
                / 0x40000000000) % 128 && ((x >> 49) & 0x7f) as u8 == (x / 0x2000000000000) % 128
                && ((x >> 56) & 0x7f) as u8 == (x / 0x100000000000000) % 128 && (x >> 63) as u8 == (
            x / 0x8000000000000000) % 128) by (bit_vector);
            lemma_pow2_le(64, 70);
            lemma_group_of_zero(v, 10);
            assert(group_of(v, 0) == (v / 1) % 128);
            assert(group_of(v, 1) == (v / pow2(7)) % 128);
            assert(group_of(v, 2) == (v / pow2(14)) % 128);
            assert(group_of(v, 3) == (v / pow2(21)) % 128);
            assert(group_of(v, 4) == (v / pow2(28)) % 128);
            assert(group_of(v, 5) == (v / pow2(35)) % 128);
            assert(group_of(v, 6) == (v / pow2(42)) % 128);
            assert(group_of(v, 7) == (v / pow2(49)) % 128);
            assert(group_of(v, 8) == (v / pow2(56)) % 128);
            assert(group_of(v, 9) == (v / pow2(63)) % 128);
        }
        r
    }
}

impl SignedVarIntTarget for i8 {
    type Unsigned = u8;

    open spec fn as_int(self) -> int {
        self as int
    }

    fn zigzag(from: Self) -> (r: u8) {
        let wide = from as i16;
        if wide >= 0 {
            (wide * 2) as u8
        } else {
            ((-wide) * 2 - 1) as u8
        }
    }

    fn unzigzag(from: u8) -> (r: i8) {
        let half = (from >> 1) as i16;
        proof {
            assert(half == from / 2 && (from & 1) == from % 2 && half <= 0x7f) by (bit_vector)
                requires
                    half == (from >> 1) as i16,
            ;
        }
        if from & 1 == 0 {
            half as i8
        } else {
            (-half - 1) as i8
        }
    }
}

impl SignedVarIntTarget for i16 {
    type Unsigned = u16;

    open spec fn as_int(self) -> int {
        self as int
    }

    fn zigzag(from: Self) -> (r: u16) {
        let wide = from as i32;
        if wide >= 0 {
            (wide * 2) as u16
        } else {
            ((-wide) * 2 - 1) as u16
        }
    }

    fn unzigzag(from: u16) -> (r: i16) {
        let half = (from >> 1) as i32;
        proof {
            assert(half == from / 2 && (from & 1) == from % 2 && half <= 0x7fff) by (bit_vector)
                requires
                    half == (from >> 1) as i32,
            ;
        }
        if from & 1 == 0 {
            half as i16
        } else {
            (-half - 1) as i16
        }
    }
}

impl SignedVarIntTarget for i32 {
    type Unsigned = u32;

    open spec fn as_int(self) -> int {
        self as int
    }

    fn zigzag(from: Self) -> (r: u32) {
        let wide = from as i64;
        if wide >= 0 {
            (wide * 2) as u32
        } else {
            ((-wide) * 2 - 1) as u32
        }
    }

    fn unzigzag(from: u32) -> (r: i32) {
        let half = (from >> 1) as i64;
        proof {
            assert(half == from / 2 && (from & 1) == from % 2 && half <= 0x7fffffff) by (
            bit_vector)
                requires
                    half == (from >> 1) as i64,
            ;
        }
        if from & 1 == 0 {
            half as i32
        } else {
            (-half - 1) as i32
        }
    }
}

impl SignedVarIntTarget for i64 {
    type Unsigned = u64;

    open spec fn as_int(self) -> int {
        self as int
    }

    fn zigzag(from: Self) -> (r: u64) {
        let wide = from as i128;
        if wide >= 0 {
            (wide * 2) as u64
        } else {
            ((-wide) * 2 - 1) as u64
        }
    }

    fn unzigzag(from: u64) -> (r: i64) {
        let half = (from >> 1) as i128;
        proof {
            assert(half == from / 2 && (from & 1) == from % 2 && half <= 0x7fffffffffffffff) by (
            bit_vector)
                requires
                    half == (from >> 1) as i128,
            ;
        }
        if from & 1 == 0 {
            half as i64
        } else {
            (-half - 1) as i64
        }
    }
}

} // verus!
