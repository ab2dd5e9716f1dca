use firefly_binary::bigint::bytes_to_bigint;
use firefly_binary::endian::Endianness;
use firefly_binary::matcher::Matcher;
use num_bigint::BigInt;

#[test]
fn read_bigint_in_each_order_and_sign() {
    let data = [0xffu8, 0x01, 0x42];
    let mut m = Matcher::with_slice(&data);
    assert_eq!(m.read_bigint(16, false, Endianness::Big), Some(BigInt::from(0xff01)));
    assert_eq!(m.read_bigint(16, true, Endianness::Big), Some(BigInt::from(-255)));
    assert_eq!(m.read_bigint(16, false, Endianness::Little), Some(BigInt::from(0x01ff)));
    assert_eq!(m.read_bigint(16, true, Endianness::Little), Some(BigInt::from(0x01ff)));
    let native = m.read_bigint(16, false, Endianness::Native).unwrap();
    if u16::from_ne_bytes([0, 1]) == 1 {
        assert_eq!(native, BigInt::from(0xff01));
    } else {
        assert_eq!(native, BigInt::from(0x01ff));
    }
    assert_eq!(m.read_bigint(25, false, Endianness::Big), None);
    assert_eq!(m.bit_size(), 24);
}

#[test]
fn read_bigint_pads_a_partial_byte() {
    // 12 bits 0xff0 become the bytes [0xff, 0x00].
    let data = [0xffu8, 0x0f];
    let mut m = Matcher::with_slice(&data);
    assert_eq!(m.read_bigint(12, false, Endianness::Big), Some(BigInt::from(0xff00)));
}

#[test]
fn match_bigint_advances_by_bitsize() {
    let data = [0x80u8, 0x00, 0x01];
    let mut m = Matcher::with_slice(&data);
    assert_eq!(m.match_bigint(8, true, Endianness::Big), Some(BigInt::from(-128)));
    assert_eq!(m.bit_size(), 16);
    assert_eq!(m.match_bigint(17, false, Endianness::Big), None);
    assert_eq!(m.bit_size(), 16);
    assert_eq!(m.match_bigint(16, false, Endianness::Big), Some(BigInt::from(1)));
    assert_eq!(m.bit_size(), 0);
}

#[test]
fn bytes_to_bigint_of_empty_is_zero() {
    assert_eq!(bytes_to_bigint(&[], true, Endianness::Little), BigInt::from(0));
    assert_eq!(bytes_to_bigint(&[1, 0], false, Endianness::Little), BigInt::from(1));
    let native = bytes_to_bigint(&[1, 0], false, Endianness::Native);
    if u16::from_ne_bytes([0, 1]) == 1 {
        assert_eq!(native, BigInt::from(0x100));
    } else {
        assert_eq!(native, BigInt::from(1));
    }
}
