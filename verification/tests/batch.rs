//! Batched decoders against the scalar encoder: every combination of
//! boundary values decoded 2, 4, or 8 at a time must match what was
//! encoded.

use varint_lanes::{
    decode_eight_u8_unsafe, decode_four_unsafe, decode_two_unsafe, decode_two_wide_unsafe,
    encode_to_slice, VarIntTarget,
};

fn nums_u8() -> [u8; 5] {
    [
        2u8.pow(0) - 1,
        2u8.pow(0),
        2u8.pow(7) - 1,
        2u8.pow(7),
        u8::MAX,
    ]
}

fn nums_u16() -> [u16; 8] {
    [
        2u16.pow(0) - 1,
        2u16.pow(0),
        2u16.pow(7) - 1,
        2u16.pow(7),
        300,
        2u16.pow(14) - 1,
        2u16.pow(14),
        u16::MAX,
    ]
}

fn nums_u32() -> [u32; 12] {
    [
        2u32.pow(0) - 1,
        2u32.pow(0),
        2u32.pow(7) - 1,
        2u32.pow(7),
        300,
        2u32.pow(14) - 1,
        2u32.pow(14),
        2u32.pow(21) - 1,
        2u32.pow(21),
        2u32.pow(28) - 1,
        2u32.pow(28),
        u32::MAX,
    ]
}

fn nums_u64() -> [u64; 22] {
    [
        2u64.pow(0) - 1,
        2u64.pow(0),
        2u64.pow(7) - 1,
        2u64.pow(7),
        300,
        2u64.pow(14) - 1,
        2u64.pow(14),
        2u64.pow(21) - 1,
        2u64.pow(21),
        2u64.pow(28) - 1,
        2u64.pow(28),
        2u64.pow(35) - 1,
        2u64.pow(35),
        2u64.pow(42) - 1,
        2u64.pow(42),
        2u64.pow(49) - 1,
        2u64.pow(49),
        2u64.pow(56) - 1,
        2u64.pow(56),
        2u64.pow(63) - 1,
        2u64.pow(63),
        u64::MAX,
    ]
}

fn check_decode_2x<T, U>(a: &[T], b: &[U])
where
    T: VarIntTarget + PartialEq + std::fmt::Debug,
    U: VarIntTarget + PartialEq + std::fmt::Debug,
{
    for i in a {
        for j in b {
            let mut enc = [0u8; 16];

            let first_len = encode_to_slice(*i, &mut enc);
            let second_len = encode_to_slice(*j, &mut enc[first_len as usize..]);

            let decoded = decode_two_unsafe::<T, U>(&enc);
            assert_eq!(decoded.0, *i);
            assert_eq!(decoded.1, *j);
            assert_eq!(decoded.2, first_len);
            assert_eq!(decoded.3, second_len);
        }
    }
}

fn check_decode_wide_2x<T, U>(a: &[T], b: &[U])
where
    T: VarIntTarget + PartialEq + std::fmt::Debug,
    U: VarIntTarget + PartialEq + std::fmt::Debug,
{
    for i in a {
        for j in b {
            let mut enc = [0u8; 32];

            let first_len = encode_to_slice(*i, &mut enc);
            let second_len = encode_to_slice(*j, &mut enc[first_len as usize..]);

            let decoded = decode_two_wide_unsafe::<T, U>(&enc);
            assert_eq!(decoded.0, *i);
            assert_eq!(decoded.1, *j);
            assert_eq!(decoded.2, first_len);
            assert_eq!(decoded.3, second_len);
        }
    }
}

fn check_decode_4x<T, U, V, W>(a: &[T], b: &[U], c: &[V], d: &[W])
where
    T: VarIntTarget + PartialEq + std::fmt::Debug,
    U: VarIntTarget + PartialEq + std::fmt::Debug,
    V: VarIntTarget + PartialEq + std::fmt::Debug,
    W: VarIntTarget + PartialEq + std::fmt::Debug,
{
    for i in a {
        for j in b {
            for k in c {
                for l in d {
                    let mut enc = [0u8; 16];

                    let first_len = encode_to_slice(*i, &mut enc);
                    let second_len = encode_to_slice(*j, &mut enc[first_len as usize..]);
                    let third_len =
                        encode_to_slice(*k, &mut enc[(first_len + second_len) as usize..]);
                    let fourth_len = encode_to_slice(
                        *l,
                        &mut enc[(first_len + second_len + third_len) as usize..],
                    );

                    let decoded = decode_four_unsafe::<T, U, V, W>(&enc);

                    assert_eq!(decoded.0, *i);
                    assert_eq!(decoded.1, *j);
                    assert_eq!(decoded.2, *k);
                    assert_eq!(decoded.3, *l);
                    assert_eq!(decoded.4, first_len);
                    assert_eq!(decoded.5, second_len);
                    assert_eq!(decoded.6, third_len);
                    assert_eq!(decoded.7, fourth_len);
                    assert!(!decoded.8);
                }
            }
        }
    }
}

#[test]
fn test_decode_2x_u8_x() {
    check_decode_2x::<u8, u8>(&nums_u8()[..], &nums_u8()[..]);
    check_decode_2x::<u8, u16>(&nums_u8()[..], &nums_u16()[..]);
    check_decode_2x::<u8, u32>(&nums_u8()[..], &nums_u32()[..]);
    check_decode_2x::<u8, u64>(&nums_u8()[..], &nums_u64()[..]);
}

#[test]
fn test_decode_2x_wide_u8_x() {
    check_decode_wide_2x::<u8, u8>(&nums_u8()[..], &nums_u8()[..]);
    check_decode_wide_2x::<u8, u16>(&nums_u8()[..], &nums_u16()[..]);
    check_decode_wide_2x::<u8, u32>(&nums_u8()[..], &nums_u32()[..]);
    check_decode_wide_2x::<u8, u64>(&nums_u8()[..], &nums_u64()[..]);
}

#[test]
fn test_decode_2x_u16_x() {
    check_decode_2x::<u16, u8>(&nums_u16()[..], &nums_u8()[..]);
    check_decode_2x::<u16, u16>(&nums_u16()[..], &nums_u16()[..]);
    check_decode_2x::<u16, u32>(&nums_u16()[..], &nums_u32()[..]);
    check_decode_2x::<u16, u64>(&nums_u16()[..], &nums_u64()[..]);
}

#[test]
fn test_decode_2x_wide_u16_x() {
    check_decode_wide_2x::<u16, u8>(&nums_u16()[..], &nums_u8()[..]);
    check_decode_wide_2x::<u16, u16>(&nums_u16()[..], &nums_u16()[..]);
    check_decode_wide_2x::<u16, u32>(&nums_u16()[..], &nums_u32()[..]);
    check_decode_wide_2x::<u16, u64>(&nums_u16()[..], &nums_u64()[..]);
}

#[test]
fn test_decode_2x_u32_x() {
    check_decode_2x::<u32, u8>(&nums_u32()[..], &nums_u8()[..]);
    check_decode_2x::<u32, u16>(&nums_u32()[..], &nums_u16()[..]);
    check_decode_2x::<u32, u32>(&nums_u32()[..], &nums_u32()[..]);
    check_decode_2x::<u32, u64>(&nums_u32()[..], &nums_u64()[..]);
}

#[test]
fn test_decode_2x_wide_u32_x() {
    check_decode_wide_2x::<u32, u8>(&nums_u32()[..], &nums_u8()[..]);
    check_decode_wide_2x::<u32, u16>(&nums_u32()[..], &nums_u16()[..]);
    check_decode_wide_2x::<u32, u32>(&nums_u32()[..], &nums_u32()[..]);
    check_decode_wide_2x::<u32, u64>(&nums_u32()[..], &nums_u64()[..]);
}

#[test]
fn test_decode_2x_u64_x() {
    check_decode_2x::<u64, u8>(&nums_u64()[..], &nums_u8()[..]);
    check_decode_2x::<u64, u16>(&nums_u64()[..], &nums_u16()[..]);
    check_decode_2x::<u64, u32>(&nums_u64()[..], &nums_u32()[..]);
}

#[test]
fn test_decode_2x_wide_u64_x() {
    check_decode_wide_2x::<u64, u8>(&nums_u64()[..], &nums_u8()[..]);
    check_decode_wide_2x::<u64, u16>(&nums_u64()[..], &nums_u16()[..]);
    check_decode_wide_2x::<u64, u32>(&nums_u64()[..], &nums_u32()[..]);
    check_decode_wide_2x::<u64, u64>(&nums_u64()[..], &nums_u64()[..]);
}

#[test]
fn test_decode_4x_u8_u8_x_x() {
    check_decode_4x::<u8, u8, u8, u8>(&nums_u8()[..], &nums_u8()[..], &nums_u8()[..], &nums_u8()[..]);
    check_decode_4x::<u8, u8, u8, u16>(&nums_u8()[..], &nums_u8()[..], &nums_u8()[..], &nums_u16()[..]);
    check_decode_4x::<u8, u8, u8, u32>(&nums_u8()[..], &nums_u8()[..], &nums_u8()[..], &nums_u32()[..]);
    check_decode_4x::<u8, u8, u8, u64>(&nums_u8()[..], &nums_u8()[..], &nums_u8()[..], &nums_u64()[..]);

    check_decode_4x::<u8, u8, u16, u8>(&nums_u8()[..], &nums_u8()[..], &nums_u16()[..], &nums_u8()[..]);
    check_decode_4x::<u8, u8, u16, u16>(&nums_u8()[..], &nums_u8()[..], &nums_u16()[..], &nums_u16()[..]);
    check_decode_4x::<u8, u8, u16, u32>(&nums_u8()[..], &nums_u8()[..], &nums_u16()[..], &nums_u32()[..]);
}

#[test]
fn test_decode_4x_u8_u16_x_x() {
    check_decode_4x::<u8, u16, u8, u8>(&nums_u8()[..], &nums_u16()[..], &nums_u8()[..], &nums_u8()[..]);
    check_decode_4x::<u8, u16, u8, u16>(&nums_u8()[..], &nums_u16()[..], &nums_u8()[..], &nums_u16()[..]);
    check_decode_4x::<u8, u16, u8, u32>(&nums_u8()[..], &nums_u16()[..], &nums_u8()[..], &nums_u32()[..]);

    check_decode_4x::<u8, u16, u16, u8>(&nums_u8()[..], &nums_u16()[..], &nums_u16()[..], &nums_u8()[..]);
    check_decode_4x::<u8, u16, u16, u16>(&nums_u8()[..], &nums_u16()[..], &nums_u16()[..], &nums_u16()[..]);
    check_decode_4x::<u8, u16, u16, u32>(&nums_u8()[..], &nums_u16()[..], &nums_u16()[..], &nums_u32()[..]);
}

#[test]
fn test_decode_4x_u8_u32_x_x() {
    check_decode_4x::<u8, u32, u8, u8>(&nums_u8()[..], &nums_u32()[..], &nums_u8()[..], &nums_u8()[..]);
    check_decode_4x::<u8, u32, u8, u16>(&nums_u8()[..], &nums_u32()[..], &nums_u8()[..], &nums_u16()[..]);
    check_decode_4x::<u8, u32, u8, u32>(&nums_u8()[..], &nums_u32()[..], &nums_u8()[..], &nums_u32()[..]);

    check_decode_4x::<u8, u32, u16, u8>(&nums_u8()[..], &nums_u32()[..], &nums_u16()[..], &nums_u8()[..]);
    check_decode_4x::<u8, u32, u16, u16>(&nums_u8()[..], &nums_u32()[..], &nums_u16()[..], &nums_u16()[..]);
    check_decode_4x::<u8, u32, u16, u32>(&nums_u8()[..], &nums_u32()[..], &nums_u16()[..], &nums_u32()[..]);
}

#[test]
fn test_decode_4x_u8_u64_x_x() {
    check_decode_4x::<u8, u64, u8, u8>(&nums_u8()[..], &nums_u64()[..], &nums_u8()[..], &nums_u8()[..]);
}

#[test]
fn test_decode_4x_u16_u8_x_x() {
    check_decode_4x::<u16, u8, u8, u8>(&nums_u16()[..], &nums_u8()[..], &nums_u8()[..], &nums_u8()[..]);
    check_decode_4x::<u16, u8, u8, u16>(&nums_u16()[..], &nums_u8()[..], &nums_u8()[..], &nums_u16()[..]);
    check_decode_4x::<u16, u8, u8, u32>(&nums_u16()[..], &nums_u8()[..], &nums_u8()[..], &nums_u32()[..]);

    check_decode_4x::<u16, u8, u16, u8>(&nums_u16()[..], &nums_u8()[..], &nums_u16()[..], &nums_u8()[..]);
    check_decode_4x::<u16, u8, u16, u16>(&nums_u16()[..], &nums_u8()[..], &nums_u16()[..], &nums_u16()[..]);
    check_decode_4x::<u16, u8, u16, u32>(&nums_u16()[..], &nums_u8()[..], &nums_u16()[..], &nums_u32()[..]);
}

#[test]
fn test_decode_4x_u16_u16_x_x() {
    check_decode_4x::<u16, u16, u8, u8>(&nums_u16()[..], &nums_u16()[..], &nums_u8()[..], &nums_u8()[..]);
    check_decode_4x::<u16, u16, u8, u16>(&nums_u16()[..], &nums_u16()[..], &nums_u8()[..], &nums_u16()[..]);
    check_decode_4x::<u16, u16, u8, u32>(&nums_u16()[..], &nums_u16()[..], &nums_u8()[..], &nums_u32()[..]);

    check_decode_4x::<u16, u16, u16, u8>(&nums_u16()[..], &nums_u16()[..], &nums_u16()[..], &nums_u8()[..]);
    check_decode_4x::<u16, u16, u16, u16>(&nums_u16()[..], &nums_u16()[..], &nums_u16()[..], &nums_u16()[..]);
    check_decode_4x::<u16, u16, u16, u32>(&nums_u16()[..], &nums_u16()[..], &nums_u16()[..], &nums_u32()[..]);
}

#[test]
fn test_decode_4x_u16_u32_x_x() {
    check_decode_4x::<u16, u32, u8, u8>(&nums_u16()[..], &nums_u32()[..], &nums_u8()[..], &nums_u8()[..]);
    check_decode_4x::<u16, u32, u8, u16>(&nums_u16()[..], &nums_u32()[..], &nums_u8()[..], &nums_u16()[..]);
    check_decode_4x::<u16, u32, u8, u32>(&nums_u16()[..], &nums_u32()[..], &nums_u8()[..], &nums_u32()[..]);

    check_decode_4x::<u16, u32, u16, u8>(&nums_u16()[..], &nums_u32()[..], &nums_u16()[..], &nums_u8()[..]);
    check_decode_4x::<u16, u32, u16, u16>(&nums_u16()[..], &nums_u32()[..], &nums_u16()[..], &nums_u16()[..]);
    check_decode_4x::<u16, u32, u16, u32>(&nums_u16()[..], &nums_u32()[..], &nums_u16()[..], &nums_u32()[..]);
}

#[test]
fn test_decode_4x_u32_u8_x_x() {
    check_decode_4x::<u32, u8, u8, u8>(&nums_u32()[..], &nums_u8()[..], &nums_u8()[..], &nums_u8()[..]);
    check_decode_4x::<u32, u8, u8, u16>(&nums_u32()[..], &nums_u8()[..], &nums_u8()[..], &nums_u16()[..]);
    check_decode_4x::<u32, u8, u8, u32>(&nums_u32()[..], &nums_u8()[..], &nums_u8()[..], &nums_u32()[..]);

    check_decode_4x::<u32, u8, u16, u8>(&nums_u32()[..], &nums_u8()[..], &nums_u16()[..], &nums_u8()[..]);
    check_decode_4x::<u32, u8, u16, u16>(&nums_u32()[..], &nums_u8()[..], &nums_u16()[..], &nums_u16()[..]);
    check_decode_4x::<u32, u8, u16, u32>(&nums_u32()[..], &nums_u8()[..], &nums_u16()[..], &nums_u32()[..]);
}

#[test]
fn test_decode_4x_u32_u16_x_x() {
    check_decode_4x::<u32, u16, u8, u8>(&nums_u32()[..], &nums_u16()[..], &nums_u8()[..], &nums_u8()[..]);
    check_decode_4x::<u32, u16, u8, u16>(&nums_u32()[..], &nums_u16()[..], &nums_u8()[..], &nums_u16()[..]);
    check_decode_4x::<u32, u16, u8, u32>(&nums_u32()[..], &nums_u16()[..], &nums_u8()[..], &nums_u32()[..]);

    check_decode_4x::<u32, u16, u16, u8>(&nums_u32()[..], &nums_u16()[..], &nums_u16()[..], &nums_u8()[..]);
    check_decode_4x::<u32, u16, u16, u16>(&nums_u32()[..], &nums_u16()[..], &nums_u16()[..], &nums_u16()[..]);
    check_decode_4x::<u32, u16, u16, u32>(&nums_u32()[..], &nums_u16()[..], &nums_u16()[..], &nums_u32()[..]);
}

#[test]
fn test_decode_4x_u32_u32_x_x() {
    check_decode_4x::<u32, u32, u8, u8>(&nums_u32()[..], &nums_u32()[..], &nums_u8()[..], &nums_u8()[..]);
    check_decode_4x::<u32, u32, u8, u16>(&nums_u32()[..], &nums_u32()[..], &nums_u8()[..], &nums_u16()[..]);

    check_decode_4x::<u32, u32, u16, u8>(&nums_u32()[..], &nums_u32()[..], &nums_u16()[..], &nums_u8()[..]);
    check_decode_4x::<u32, u32, u16, u16>(&nums_u32()[..], &nums_u32()[..], &nums_u16()[..], &nums_u16()[..]);
}

#[test]
fn test_decode_4x_u64_u8_x_x() {
    check_decode_4x::<u64, u8, u8, u8>(&nums_u64()[..], &nums_u8()[..], &nums_u8()[..], &nums_u8()[..]);
}

fn check_decode_8x_u8(a: &[u8]) {
    for i in a {
        for j in a {
            for k in a {
                for l in a {
                    for m in a {
                        for n in a {
                            for o in a {
                                for p in a {
                                    let mut enc = [0u8; 16];

                                    let first_len = encode_to_slice(*i, &mut enc);
                                    let second_len =
                                        encode_to_slice(*j, &mut enc[first_len as usize..]);
                                    let third_len = encode_to_slice(
                                        *k,
                                        &mut enc[(first_len + second_len) as usize..],
                                    );
                                    let fourth_len = encode_to_slice(
                                        *l,
                                        &mut enc[(first_len + second_len + third_len) as usize..],
                                    );
                                    let fifth_len = encode_to_slice(
                                        *m,
                                        &mut enc[(first_len + second_len + third_len + fourth_len)
                                            as usize..],
                                    );
                                    let sixth_len = encode_to_slice(
                                        *n,
                                        &mut enc[(first_len
                                            + second_len
                                            + third_len
                                            + fourth_len
                                            + fifth_len)
                                            as usize..],
                                    );
                                    let seventh_len = encode_to_slice(
                                        *o,
                                        &mut enc[(first_len
                                            + second_len
                                            + third_len
                                            + fourth_len
                                            + fifth_len
                                            + sixth_len)
                                            as usize..],
                                    );
                                    let eighth_len = encode_to_slice(
                                        *p,
                                        &mut enc[(first_len
                                            + second_len
                                            + third_len
                                            + fourth_len
                                            + fifth_len
                                            + sixth_len
                                            + seventh_len)
                                            as usize..],
                                    );

                                    let decoded = decode_eight_u8_unsafe(&enc);

                                    assert_eq!(decoded.0, [*i, *j, *k, *l, *m, *n, *o, *p]);
                                    assert_eq!(
                                        decoded.1,
                                        first_len
                                            + second_len
                                            + third_len
                                            + fourth_len
                                            + fifth_len
                                            + sixth_len
                                            + seventh_len
                                            + eighth_len
                                    );
                                }
                            }
                        }
                    }
                }
            }
        }
    }
}

#[test]
fn test_decode_8x_u8() {
    check_decode_8x_u8(&nums_u8()[..]);
}

#[test]
fn test_decode_8x_u8_desynchronizes_on_overlong_input() {
    // a three-byte varint is read as two elements: the decoder does not
    // check for overflow, by design
    let enc = [
        0x80, 0x80, 0x80, 0x01, 0x00, 0x00, 0x00, 0x00, 0x00, 0x00, 0x00, 0x00, 0x00, 0x00, 0x00,
        0x00,
    ];
    let (values, total) = decode_eight_u8_unsafe(&enc);
    assert_eq!(values, [0, 128, 0, 0, 0, 0, 0, 0]);
    assert_eq!(total, 10);
}
