use hdl::{byte_and_offset, capacity_class, num_bytes, CapacityClass, IntoBits};

#[test]
fn num_bytes_table() {
    let bits = [0usize, 1, 2, 7, 8, 9];
    let bytes = [0usize, 1, 1, 1, 1, 2];
    for i in 0..bits.len() {
        assert_eq!(num_bytes(bits[i]), bytes[i]);
    }
    assert_eq!(num_bytes(42), 6);
    assert_eq!(num_bytes(256), 32);
}

#[test]
fn num_bytes_matches_formula() {
    for bits in 0..=10_000usize {
        assert_eq!(num_bytes(bits), (bits + 7) / 8);
    }
}

#[test]
fn num_bytes_at_usize_max() {
    assert_eq!(num_bytes(usize::MAX), usize::MAX / 8 + 1);
}

#[test]
fn byte_and_offset_table() {
    assert_eq!(byte_and_offset(0), (0, 0));
    assert_eq!(byte_and_offset(1), (0, 1));
    assert_eq!(byte_and_offset(7), (0, 7));
    assert_eq!(byte_and_offset(8), (1, 0));
    assert_eq!(byte_and_offset(9), (1, 1));
    assert_eq!(byte_and_offset(16), (2, 0));
}

#[test]
fn capacity_ladder() {
    assert_eq!(capacity_class(0), CapacityClass::Width8);
    assert_eq!(capacity_class(8), CapacityClass::Width8);
    assert_eq!(capacity_class(9), CapacityClass::Width16);
    assert_eq!(capacity_class(16), CapacityClass::Width16);
    assert_eq!(capacity_class(17), CapacityClass::Width32);
    assert_eq!(capacity_class(32), CapacityClass::Width32);
    assert_eq!(capacity_class(33), CapacityClass::Width64);
    assert_eq!(capacity_class(64), CapacityClass::Width64);
    assert_eq!(capacity_class(65), CapacityClass::Width128);
    assert_eq!(capacity_class(128), CapacityClass::Width128);
    assert_eq!(capacity_class(129), CapacityClass::Wider);
    assert_eq!(capacity_class(256), CapacityClass::Wider);
}

#[test]
fn into_bits_bytes_and_leading_zeros() {
    assert_eq!(<u8 as IntoBits>::bytes(), 1);
    assert_eq!(<u16 as IntoBits>::bytes(), 2);
    assert_eq!(<u32 as IntoBits>::bytes(), 4);
    assert_eq!(<u64 as IntoBits>::bytes(), 8);
    assert_eq!(<u128 as IntoBits>::bytes(), 16);
    assert_eq!(<usize as IntoBits>::bytes(), std::mem::size_of::<usize>());
    assert_eq!(0x1234u16.le_bytes(), vec![0x34, 0x12]);
    assert_eq!(0x0102_0304u32.le_bytes(), vec![4, 3, 2, 1]);
    assert_eq!(u128::MAX.le_bytes(), vec![255u8; 16]);
    assert_eq!(0u64.le_bytes(), vec![0u8; 8]);
    assert_eq!(IntoBits::num_leading_zeros(&1u32), 31);
    assert_eq!(IntoBits::num_leading_zeros(&0u8), 8);
    assert_eq!(IntoBits::num_leading_zeros(&u64::MAX), 0);
    assert_eq!(IntoBits::num_leading_zeros(&(1u128 << 100)), 27);
    assert_eq!(IntoBits::num_leading_zeros(&16usize), usize::BITS - 5);
}
