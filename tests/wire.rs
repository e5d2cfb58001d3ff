use hdl::{num_bytes, FitsInU128, FitsInU16, FitsInU32, FitsInU64, FitsInU8, TooManyBits, Wire};

#[test]
fn new() {
    let _ = Wire::<0, 0>::new();
    let _ = Wire::<1, 1>::new();
}

#[test]
fn new_direct() {
    let _ = Wire::<1, 1>::new();
    assert_eq!(num_bytes(1), 1);
    let w = Wire::<1, 1>::new();
    assert_eq!(w.to_u8(), 0);
}

#[test]
fn new_with_val() {
    assert_eq!(Wire::<0, 0>::new_with_val(0u8).to_u8(), 0);
    assert_eq!(Wire::<1, 1>::new_with_val(1u8).to_u8(), 1);
    assert_eq!(Wire::<1, 1>::new_with_val(1u16).to_u8(), 1);
    assert_eq!(Wire::<1, 1>::new_with_val(1u32).to_u8(), 1);
    assert_eq!(Wire::<1, 1>::new_with_val(1u64).to_u8(), 1);
    assert_eq!(Wire::<1, 1>::new_with_val(1u128).to_u8(), 1);
    assert_eq!(Wire::<1, 1>::new_with_val(1usize).to_u8(), 1);
    assert_eq!(Wire::<2, 1>::new_with_val(2usize).to_u8(), 2);
    assert_eq!(Wire::<2, 1>::new_with_val(3usize).to_u8(), 3);
    assert_eq!(Wire::<3, 1>::new_with_val(4usize).to_u8(), 4);
    assert_eq!(Wire::<4, 1>::new_with_val(15usize).to_u8(), 15);
    assert_eq!(Wire::<32, 4>::new_with_val(4_294_967_295usize).to_u32(), 4_294_967_295);
    assert_eq!(Wire::<33, 5>::new_with_val(4_294_967_296usize).to_u64(), 4_294_967_296);
}

#[test]
fn max_val_testing() {
    assert_eq!(Wire::<1, 1>::new_with_val(1usize).to_u8(), 1);
    assert_eq!(Wire::<8, 1>::new_with_val(u8::MAX).to_u8(), u8::MAX);
    assert_eq!(Wire::<16, 2>::new_with_val(u16::MAX).to_u16(), u16::MAX);
    assert_eq!(Wire::<32, 4>::new_with_val(u32::MAX).to_u32(), u32::MAX);
    assert_eq!(Wire::<64, 8>::new_with_val(u64::MAX).to_u64(), u64::MAX);
    assert_eq!(Wire::<128, 16>::new_with_val(u128::MAX).to_u128(), u128::MAX);
    let w = Wire::<{ usize::BITS as usize }, { (usize::BITS / 8) as usize }>::new_with_val(usize::MAX);
    assert_eq!(w.to_u128(), usize::MAX as u128);
}

#[test]
fn big() {
    let _ = Wire::<256, 32>::new_with_val(0u8);
    let _ = Wire::<256, 32>::new_with_val(0u16);
    let _ = Wire::<256, 32>::new_with_val(0u32);
    let _ = Wire::<256, 32>::new_with_val(0u64);
    let _ = Wire::<256, 32>::new_with_val(0u128);
    let _ = Wire::<256, 32>::new_with_val(0usize);
    let _ = Wire::<256, 32>::new_with_val(u8::MAX);
    let _ = Wire::<256, 32>::new_with_val(u16::MAX);
    let _ = Wire::<256, 32>::new_with_val(u32::MAX);
    let _ = Wire::<256, 32>::new_with_val(u64::MAX);
    let _ = Wire::<256, 32>::new_with_val(u128::MAX);
    let _ = Wire::<256, 32>::new_with_val(usize::MAX);
}

#[test]
fn bigger() {
    let w = Wire::<8_192, 1_024>::new_with_val(usize::MAX);
    assert_eq!(w.byte(0), 255);
    assert_eq!(w.byte(1_023), 0);
}

#[test]
fn large() {
    let w = Wire::<524_288, 65_536>::new_with_val(usize::MAX);
    assert_eq!(w.byte(0), 255);
    assert_eq!(w.byte(65_535), 0);
}

#[test]
fn larger() {
    let w = Wire::<2_097_152, 262_144>::new_with_val(usize::MAX);
    assert_eq!(w.byte(0), 255);
    assert_eq!(w.byte(262_143), 0);
}

#[test]
fn val_with_too_many_bits_1() {
    let mut w = Wire::<0, 0>::new();
    assert_eq!(w.try_set(1usize), Err(TooManyBits { value_bits: 1, wire_bits: 0 }));
}

#[test]
fn val_with_too_many_bits_2() {
    let mut w = Wire::<4, 1>::new();
    assert_eq!(w.try_set(16usize), Err(TooManyBits { value_bits: 5, wire_bits: 4 }));
    assert_eq!(w.to_u8(), 0);
}

#[test]
fn val_with_fewer_bits() {
    let w = Wire::<16, 2>::new_with_val(16u8);
    assert_eq!(w.to_u16(), 16);
}

#[test]
fn fewer_bytes_but_enough_bits() {
    // A wire with 42 bits has 6 bytes.
    assert_eq!(std::mem::size_of::<Wire<42, 6>>(), 6);
    assert_eq!(num_bytes(42), 6);

    // The bound is on the value's bits, not on its type's 8 bytes.
    let w = Wire::<42, 6>::new_with_val(4398046511103u64); // 2 ^ 42 - 1
    assert_eq!(w.to_u64(), 4398046511103);
}

#[test]
fn fewer_bytes_and_too_many_bits() {
    let mut w = Wire::<42, 6>::new();
    assert_eq!(w.try_set(4398046511103u64 + 1u64), Err(TooManyBits { value_bits: 43, wire_bits: 42 }));
    assert_eq!(w.try_set(4398046511103u64), Ok(()));
    assert_eq!(w.to_u64(), 4398046511103);
}

#[test]
fn index_bytes() {
    assert_eq!(Wire::<1, 1>::new_with_val(0usize).byte(0), 0u8);
    assert_eq!(Wire::<64, 8>::new().byte(7), 0u8);
    // A 56-bit wire cannot take u64::MAX, which needs 64 bits.
    let mut narrow = Wire::<56, 7>::new();
    assert_eq!(narrow.try_set(u64::MAX), Err(TooManyBits { value_bits: 64, wire_bits: 56 }));
    assert_eq!(Wire::<64, 8>::new_with_val(u64::MAX).byte(7), 255u8);
}

#[test]
fn try_new_checks_storage_size() {
    assert!(Wire::<9, 1>::try_new().is_none());
    assert!(Wire::<9, 3>::try_new().is_none());
    let w = Wire::<9, 2>::try_new().unwrap();
    assert_eq!(w.to_u16(), 0);
    assert!(Wire::<0, 0>::try_new().is_some());
}

#[test]
fn zero_width_wire() {
    assert_eq!(std::mem::size_of::<Wire<0, 0>>(), 0);
    let mut w = Wire::<0, 0>::new();
    assert_eq!(w.try_set(0u8), Ok(()));
    assert_eq!(w.try_set(1u8), Err(TooManyBits { value_bits: 1, wire_bits: 0 }));
    assert_eq!(w.try_set(u128::MAX), Err(TooManyBits { value_bits: 128, wire_bits: 0 }));
    assert_eq!(w.to_u8(), 0);
}

#[test]
fn reload_clears_earlier_value() {
    let mut w = Wire::<64, 8>::new_with_val(u64::MAX);
    w.set(1u8);
    assert_eq!(w.to_u64(), 1);
    for i in 1..8 {
        assert_eq!(w.byte(i), 0);
    }
    w.set(0xABCDu16).set(7u32);
    assert_eq!(w.to_u64(), 7);
}

#[test]
fn max_values_into_256_bits() {
    let mut w = Wire::<256, 32>::new();
    let widths = [1usize, 2, 4, 8, 16];
    w.set(u8::MAX);
    check_low_bytes(&w, widths[0]);
    w.set(u16::MAX);
    check_low_bytes(&w, widths[1]);
    w.set(u32::MAX);
    check_low_bytes(&w, widths[2]);
    w.set(u64::MAX);
    check_low_bytes(&w, widths[3]);
    w.set(u128::MAX);
    check_low_bytes(&w, widths[4]);
    w.set(u8::MAX);
    check_low_bytes(&w, widths[0]);
}

fn check_low_bytes(w: &Wire<256, 32>, set_bytes: usize) {
    for i in 0..32 {
        let expected = if i < set_bytes { 255u8 } else { 0u8 };
        assert_eq!(w.byte(i), expected);
    }
}

#[test]
fn extraction_at_each_class_boundary() {
    assert_eq!(Wire::<8, 1>::new_with_val(0xA5u8).to_u8(), 0xA5);
    assert_eq!(Wire::<16, 2>::new_with_val(0xBEEFu16).to_u16(), 0xBEEF);
    assert_eq!(Wire::<32, 4>::new_with_val(0xDEAD_BEEFu32).to_u32(), 0xDEAD_BEEF);
    assert_eq!(Wire::<64, 8>::new_with_val(0x0123_4567_89AB_CDEFu64).to_u64(), 0x0123_4567_89AB_CDEF);
    let v = 0x0011_2233_4455_6677_8899_AABB_CCDD_EEFFu128;
    assert_eq!(Wire::<128, 16>::new_with_val(v).to_u128(), v);
    // A narrow wire reads out as every wider type too.
    let w = Wire::<8, 1>::new_with_val(200u32);
    assert_eq!(w.to_u16(), 200);
    assert_eq!(w.to_u32(), 200);
    assert_eq!(w.to_u64(), 200);
    assert_eq!(w.to_u128(), 200);
}

#[test]
fn round_trip_through_wider_types() {
    let w = Wire::<12, 2>::new_with_val(0xABCu64);
    assert_eq!(w.to_u16(), 0xABC);
    assert_eq!(w.byte(0), 0xBC);
    assert_eq!(w.byte(1), 0x0A);
    let w = Wire::<100, 13>::new_with_val(u64::MAX as u128 * 3);
    assert_eq!(w.to_u128(), u64::MAX as u128 * 3);
}

#[test]
fn get_bytes_zero_extends_and_truncates() {
    let w = Wire::<12, 2>::new_with_val(0xABCu16);
    assert_eq!(w.get_bytes::<4>(), [0xBC, 0x0A, 0, 0]);
    assert_eq!(w.get_bytes::<2>(), [0xBC, 0x0A]);
    assert_eq!(w.get_bytes::<1>(), [0xBC]);
    assert_eq!(w.get_bytes::<0>(), []);
}

#[test]
fn bits_and_sign_bit() {
    let w = Wire::<4, 1>::new_with_val(0b1010u8);
    assert_eq!(w.get_bit(0), 0);
    assert_eq!(w.get_bit(1), 1);
    assert_eq!(w.get_bit(2), 0);
    assert_eq!(w.get_bit(3), 1);
    assert_eq!(w.get_sign_bit().to_u8(), 1);
    let w = Wire::<20, 3>::new_with_val(0x7_0001u32);
    assert_eq!(w.get_bit(0), 1);
    assert_eq!(w.get_bit(16), 1);
    assert_eq!(w.get_bit(18), 1);
    assert_eq!(w.get_bit(19), 0);
    assert_eq!(w.get_sign_bit().to_u8(), 0);
}
