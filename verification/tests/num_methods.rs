//! The per-width numeric descriptor methods: wire constants, stage-1
//! scatter, and the gathers that undo it.

use varint_lanes::VarIntTarget;

#[test]
fn width_constants() {
    assert_eq!(u8::max_varint_bytes(), 2);
    assert_eq!(u16::max_varint_bytes(), 3);
    assert_eq!(u32::max_varint_bytes(), 5);
    assert_eq!(u64::max_varint_bytes(), 10);

    assert_eq!(u8::max_last_varint_byte(), 0x01);
    assert_eq!(u16::max_last_varint_byte(), 0x03);
    assert_eq!(u32::max_last_varint_byte(), 0x0F);
    assert_eq!(u64::max_last_varint_byte(), 0x01);
}

#[test]
fn scalar_stage1_packs_seven_bit_groups() {
    // 300 = 0b10_0101100: groups 0x2C and 0x02, one per byte lane
    assert_eq!(300u16.num_to_scalar_stage1(), 0x022C);
    assert_eq!(200u8.num_to_scalar_stage1(), 0x0148);
    // 2^28 lives entirely in the fifth group
    assert_eq!((1u32 << 28).num_to_scalar_stage1(), 0x1_0000_0000);
}

#[test]
fn scalar_to_num_undoes_stage1() {
    assert_eq!(u16::scalar_to_num(0x022C), 300);
    assert_eq!(u8::scalar_to_num(0x0148), 200);
    assert_eq!(u32::scalar_to_num(0x1_0000_0000), 1 << 28);
    // continuation bits in the lanes are ignored
    assert_eq!(u16::scalar_to_num(0x022C | 0x8080), 300);
}

#[test]
fn vector_stage1_round_trips_through_gather() {
    for &v in &[0u64, 1, 127, 128, 300, 1 << 35, u64::MAX] {
        let lanes = v.num_to_vector_stage1();
        assert_eq!(u64::vector_to_num(lanes), v);
    }
    for &v in &[0u16, 1, 127, 128, 300, u16::MAX] {
        let lanes = v.num_to_vector_stage1();
        assert_eq!(u16::vector_to_num(lanes), v);
    }
}

#[test]
fn vector_to_num_truncates_to_width() {
    // lanes that spell a value far beyond u8 keep only its low bits
    let lanes = [0x7F, 0x7F, 0x7F, 0, 0, 0, 0, 0, 0, 0, 0, 0, 0, 0, 0, 0];
    assert_eq!(u8::vector_to_num(lanes), 0xFF);
    assert_eq!(u16::vector_to_num(lanes), 0xFFFF);
    assert_eq!(u32::vector_to_num(lanes), 0x1F_FFFF);
}

#[test]
fn casts_truncate_to_width() {
    assert_eq!(u8::cast_u32(0x1FF), 0xFF);
    assert_eq!(u16::cast_u64(0x1_0001), 0x0001);
    assert_eq!(u32::cast_u64(0x1_0000_0001), 0x0000_0001);
    assert_eq!(u64::cast_u32(7), 7u64);
}
