//! Error reporting: overflow and not-enough-bytes detection of the checked
//! decoders.

use varint_lanes::{decode, decode_zigzag, encode, VarIntDecodeError};

#[test]
fn overflow_u8() {
    let encoded = encode(u8::MAX as u16 + 1);
    decode::<u8>(&encoded.0).expect_err("should overflow");
}

#[test]
fn overflow_u16() {
    let encoded = encode(u16::MAX as u32 + 1);
    decode::<u16>(&encoded.0).expect_err("should overflow");
}

#[test]
fn overflow_u32() {
    let encoded = encode(u32::MAX as u64 + 1);
    decode::<u32>(&encoded.0).expect_err("should overflow");
}

#[test]
fn overflow_u64() {
    decode::<u8>(&[0xFF, 0xFF, 0xFF, 0xFF, 0xFF, 0xFF, 0xFF, 0xFF, 0xFF, 0x02])
        .expect_err("should overflow");
}

#[test]
fn overflow_is_reported_as_overflow() {
    // ten continuation-heavy bytes overflow every width
    let bytes = [0xFF, 0xFF, 0xFF, 0xFF, 0xFF, 0xFF, 0xFF, 0xFF, 0xFF, 0x02];
    assert_eq!(decode::<u8>(&bytes), Err(VarIntDecodeError::Overflow));
    assert_eq!(decode::<u16>(&bytes), Err(VarIntDecodeError::Overflow));
    assert_eq!(decode::<u32>(&bytes), Err(VarIntDecodeError::Overflow));
    assert_eq!(decode::<u64>(&bytes), Err(VarIntDecodeError::Overflow));
}

#[test]
fn empty_slice_not_enough_bytes() {
    assert_eq!(decode::<u8>(&[]), Err(VarIntDecodeError::NotEnoughBytes));
    assert_eq!(decode::<u16>(&[]), Err(VarIntDecodeError::NotEnoughBytes));
    assert_eq!(decode::<u32>(&[]), Err(VarIntDecodeError::NotEnoughBytes));
    assert_eq!(decode::<u64>(&[]), Err(VarIntDecodeError::NotEnoughBytes));
    assert_eq!(
        decode_zigzag::<i32>(&[]),
        Err(VarIntDecodeError::NotEnoughBytes)
    );
}

#[test]
fn truncated_varint_not_enough_bytes() {
    // the continuation bit claims a second byte that the slice lacks
    assert_eq!(
        decode::<u32>(&[0x80]),
        Err(VarIntDecodeError::NotEnoughBytes)
    );
    assert_eq!(
        decode::<u64>(&[0xFF, 0xFF]),
        Err(VarIntDecodeError::NotEnoughBytes)
    );
}
