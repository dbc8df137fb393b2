//! Capability-dispatch equivalence: the lane-walking gather/scatter
//! routines and the per-width shift/mask sequences produce identical
//! results — exhaustively for the narrow widths, at boundary and sampled
//! values for the wide ones.

use varint_lanes::lanes::{scalar_to_num_dispatch, scatter_lanes_value, vector_to_num_dispatch};
use varint_lanes::VarIntTarget;

fn check_both_paths<T>(register: [u8; 16])
where
    T: VarIntTarget + PartialEq + std::fmt::Debug,
{
    let fast: T = vector_to_num_dispatch(register, true);
    let portable: T = vector_to_num_dispatch(register, false);
    assert_eq!(fast, portable);
    assert_eq!(fast, T::vector_to_num(register));
}

fn sample_registers() -> Vec<[u8; 16]> {
    let mut rs = Vec::new();
    rs.push([0u8; 16]);
    rs.push([0xFFu8; 16]);
    rs.push([0x7Fu8; 16]);
    rs.push([
        0x01, 0x02, 0x04, 0x08, 0x10, 0x20, 0x40, 0x80, 0xAA, 0x55, 0x33, 0xCC, 0x0F, 0xF0, 0x99,
        0x66,
    ]);
    let mut x: u32 = 0x12345678;
    for _ in 0..64 {
        let mut r = [0u8; 16];
        for lane in r.iter_mut() {
            // a small linear-congruential walk over the lane values
            x = x.wrapping_mul(1664525).wrapping_add(1013904223);
            *lane = (x >> 24) as u8;
        }
        rs.push(r);
    }
    rs
}

#[test]
fn gather_paths_agree_on_registers() {
    for r in sample_registers() {
        check_both_paths::<u8>(r);
        check_both_paths::<u16>(r);
        check_both_paths::<u32>(r);
        check_both_paths::<u64>(r);
    }
}

#[test]
fn gather_paths_agree_exhaustively_u8() {
    // every two-lane pattern that can matter for a u8
    for b0 in 0..=255u8 {
        for b1 in 0..=255u8 {
            let mut r = [0u8; 16];
            r[0] = b0;
            r[1] = b1;
            check_both_paths::<u8>(r);
        }
    }
}

#[test]
fn gather_paths_agree_exhaustively_u16() {
    // every u16 value, scattered to lanes and gathered back both ways
    for v in 0..=u16::MAX {
        let r = v.num_to_vector_stage1();
        let fast: u16 = vector_to_num_dispatch(r, true);
        let portable: u16 = vector_to_num_dispatch(r, false);
        assert_eq!(fast, portable);
        assert_eq!(fast, v);
    }
}

#[test]
fn scalar_paths_agree_on_words() {
    let words = [
        0u64,
        1,
        0x7f,
        0x80,
        0x017f,
        u64::MAX,
        0x8080808080808080,
        0x7f7f7f7f7f7f7f7f,
        0x0123456789abcdef,
        0xfedcba9876543210,
    ];
    for &w in &words {
        let fast: u8 = scalar_to_num_dispatch(w, true);
        let portable: u8 = scalar_to_num_dispatch(w, false);
        assert_eq!(fast, portable);
        let fast16: u16 = scalar_to_num_dispatch(w, true);
        assert_eq!(fast16, scalar_to_num_dispatch(w, false));
        let fast32: u32 = scalar_to_num_dispatch(w, true);
        assert_eq!(fast32, scalar_to_num_dispatch(w, false));
    }
}

#[test]
fn scatter_agrees_with_per_width_stage1_exhaustively_u16() {
    for v in 0..=u16::MAX {
        assert_eq!(scatter_lanes_value(v as u64), v.num_to_vector_stage1());
    }
}

#[test]
fn scatter_agrees_with_per_width_stage1_sampled() {
    let values = [
        0u64,
        1,
        127,
        128,
        300,
        u32::MAX as u64,
        1 << 35,
        (1 << 42) - 1,
        1 << 56,
        (1 << 63) - 1,
        1 << 63,
        u64::MAX,
    ];
    for &v in &values {
        assert_eq!(scatter_lanes_value(v), v.num_to_vector_stage1());
        if v <= u32::MAX as u64 {
            assert_eq!(scatter_lanes_value(v), (v as u32).num_to_vector_stage1());
        }
        if v <= u8::MAX as u64 {
            assert_eq!(scatter_lanes_value(v), (v as u8).num_to_vector_stage1());
        }
    }
}
