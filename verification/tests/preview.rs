use hextazy::preview::{big_endian_value, integer_width, little_endian_value, signed_value};

#[test]
fn a_selection_fits_the_next_width() {
    assert_eq!(integer_width(0), 1);
    assert_eq!(integer_width(1), 1);
    assert_eq!(integer_width(2), 2);
    assert_eq!(integer_width(3), 4);
    assert_eq!(integer_width(5), 8);
    assert_eq!(integer_width(8), 8);
    assert_eq!(integer_width(9), 16);
    assert_eq!(integer_width(16), 16);
}

#[test]
fn bytes_are_read_from_either_end() {
    let bytes = vec![0x12, 0x34, 0x56];
    assert_eq!(little_endian_value(&bytes), 0x563412);
    assert_eq!(big_endian_value(&bytes, 3), 0x123456);
    assert_eq!(big_endian_value(&bytes, 4), 0x12345600);
    assert_eq!(big_endian_value(&bytes, 16), 0x1234_5600_0000_0000_0000_0000_0000_0000);
    assert_eq!(little_endian_value(&vec![]), 0);
    let full = vec![0xff; 16];
    assert_eq!(little_endian_value(&full), u128::MAX);
    assert_eq!(big_endian_value(&full, 16), u128::MAX);
}

#[test]
fn the_highest_bit_is_the_sign() {
    assert_eq!(signed_value(0x7f, 1), 127);
    assert_eq!(signed_value(0x80, 1), -128);
    assert_eq!(signed_value(0xff, 1), -1);
    assert_eq!(signed_value(0xfffe, 2), -2);
    assert_eq!(signed_value(0x8000_0000, 4), i128::from(i32::MIN));
    assert_eq!(signed_value(0x7fff_ffff_ffff_ffff, 8), i128::from(i64::MAX));
    assert_eq!(signed_value(0xffff_ffff_ffff_ffff, 8), -1);
    assert_eq!(signed_value(u128::MAX, 16), -1);
    assert_eq!(signed_value(1 << 127, 16), i128::MIN);
    assert_eq!(signed_value(5, 16), 5);
}
