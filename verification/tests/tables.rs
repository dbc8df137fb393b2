//! Lookup-table completeness: every pattern in each table's domain maps to
//! a defined entry, and the 4-way validity flag fires exactly when an
//! element outgrows the table's assumed width.

use varint_lanes::lookup::{
    build_double_length_table, build_quad_length_table, double_table_lengths, quad_table_entry,
};

#[test]
fn double_table_covers_every_pattern() {
    let table = build_double_length_table();
    assert_eq!(table.len(), 1024);
    for p in 0..1024u16 {
        let (first, second) = table[p as usize];
        assert!((1..=11).contains(&first), "pattern {:#06b}", p);
        assert!((1..=11).contains(&second), "pattern {:#06b}", p);
        assert_eq!((first, second), double_table_lengths(p));
    }
}

#[test]
fn double_table_spot_checks() {
    // terminators everywhere: two one-byte varints
    assert_eq!(double_table_lengths(0b0000000000), (1, 1));
    // first byte continues once
    assert_eq!(double_table_lengths(0b0000000001), (2, 1));
    // five-byte first varint, then a two-byte second
    assert_eq!(double_table_lengths(0b0000101111), (5, 2));
    // no terminator at all inside the ten pattern bits
    assert_eq!(double_table_lengths(0b1111111111), (11, 1));
}

#[test]
fn quad_table_covers_every_pattern() {
    let table = build_quad_length_table();
    assert_eq!(table.len(), 4096);
    for p in 0..4096u16 {
        let (l1, l2, l3, l4, invalid) = table[p as usize];
        assert!((1..=13).contains(&l1), "pattern {:#014b}", p);
        assert!((1..=13).contains(&l2), "pattern {:#014b}", p);
        assert!((1..=13).contains(&l3), "pattern {:#014b}", p);
        assert!((1..=13).contains(&l4), "pattern {:#014b}", p);
        // the validity flag fires exactly when some element outgrows the
        // three bytes a 16-bit element may take
        assert_eq!(invalid, l1 > 3 || l2 > 3 || l3 > 3 || l4 > 3, "pattern {:#014b}", p);
        assert_eq!((l1, l2, l3, l4, invalid), quad_table_entry(p));
    }
}

#[test]
fn quad_table_spot_checks() {
    assert_eq!(quad_table_entry(0b000000000000), (1, 1, 1, 1, false));
    // three-byte, two-byte, one-byte, one-byte
    assert_eq!(quad_table_entry(0b000000001011), (3, 2, 1, 1, false));
    // a four-byte element trips the validity flag
    assert_eq!(quad_table_entry(0b000000000111), (4, 1, 1, 1, true));
}
