//! ZigZag encoding and decoding of signed values.

use varint_lanes::{decode_zigzag, encode_zigzag, SignedVarIntTarget};

#[test]
fn zigzag_spec_examples() {
    let encoded = encode_zigzag::<i32>(-20);
    assert_eq!(
        encoded,
        ([39, 0, 0, 0, 0, 0, 0, 0, 0, 0, 0, 0, 0, 0, 0, 0], 1)
    );

    let decoded = decode_zigzag::<i32>(&[39, 0, 0, 0, 0, 0, 0, 0, 0, 0, 0, 0, 0, 0, 0, 0]).unwrap();
    assert_eq!(decoded, (-20, 1));
}

fn check_zigzag<T>(value: T)
where
    T: SignedVarIntTarget + PartialEq + std::fmt::Debug + Copy,
{
    let (buf, len) = encode_zigzag(value);
    let decoded: (T, usize) = decode_zigzag(&buf).unwrap();
    assert_eq!(decoded.0, value);
    assert_eq!(decoded.1, len as usize);
}

#[test]
fn zigzag_roundtrip_extremes() {
    check_zigzag(0i8);
    check_zigzag(-1i8);
    check_zigzag(i8::MIN);
    check_zigzag(i8::MAX);
    check_zigzag(i16::MIN);
    check_zigzag(i16::MAX);
    check_zigzag(-1i32);
    check_zigzag(i32::MIN);
    check_zigzag(i32::MAX);
    check_zigzag(-1i64);
    check_zigzag(i64::MIN);
    check_zigzag(i64::MAX);
}

#[test]
fn zigzag_small_magnitudes_encode_short() {
    // small-magnitude negatives stay one byte long
    for v in -64i32..64i32 {
        let (_, len) = encode_zigzag(v);
        assert_eq!(len, 1, "value {}", v);
    }
}
