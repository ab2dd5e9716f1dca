use firefly_binary::endian::{
    be_u128, le_u128, native_endianness, order_of_probe, Endianness, FromEndianBytes,
};
use firefly_binary::matcher::Matcher;

#[test]
fn byte_order_values() {
    assert_eq!(be_u128(&[0x12, 0x34, 0x56]), 0x123456);
    assert_eq!(le_u128(&[0x12, 0x34, 0x56]), 0x563412);
    assert_eq!(be_u128(&[]), 0);
    assert_eq!(le_u128(&[0xff; 16]), u128::MAX);
    assert_eq!(<i16 as FromEndianBytes<2>>::from_be_bytes([0xff, 0xfe]), -2);
    assert_eq!(<i16 as FromEndianBytes<2>>::from_le_bytes([0xfe, 0xff]), -2);
    assert_eq!(<u64 as FromEndianBytes<8>>::from_le_bytes([1, 0, 0, 0, 0, 0, 0, 0x80]), 0x8000_0000_0000_0001);
    assert_eq!(<i8 as FromEndianBytes<1>>::shift_right(-128, 1), -64);
    assert_eq!(<u8 as FromEndianBytes<1>>::shift_right(128, 1), 64);
}

#[test]
fn native_order_is_the_machine_order() {
    let native = native_endianness();
    if u16::from_ne_bytes([0, 1]) == 1 {
        assert_eq!(native, Endianness::Big);
    } else {
        assert_eq!(native, Endianness::Little);
    }
    assert_eq!(Endianness::Native.resolve(), native);
    assert_eq!(Endianness::Big.resolve(), Endianness::Big);
    assert_eq!(Endianness::Little.resolve(), Endianness::Little);
}

#[test]
fn read_number_does_not_advance() {
    let data = [0x01u8, 0x02, 0x03, 0x04, 0x05];
    let mut m = Matcher::with_slice(&data);
    let a: Option<u32> = m.read_number(Endianness::Big);
    let b: Option<u32> = m.read_number(Endianness::Little);
    let c: Option<u32> = m.read_number(Endianness::Native);
    assert_eq!(a, Some(0x01020304));
    assert_eq!(b, Some(0x04030201));
    assert_eq!(c, Some(u32::from_ne_bytes([1, 2, 3, 4])));
    assert_eq!(m.bit_size(), 40);
    let too_big: Option<u64> = m.read_number(Endianness::Big);
    assert_eq!(too_big, None);
}

#[test]
fn match_number_advances_by_the_type_size() {
    let data = [0xffu8, 0xfe, 0x7f, 0x10];
    let mut m = Matcher::with_slice(&data);
    let a: Option<i16> = m.match_number(Endianness::Big);
    assert_eq!(a, Some(-2));
    assert_eq!(m.bit_size(), 16);
    let b: Option<u8> = m.match_number(Endianness::Little);
    assert_eq!(b, Some(0x7f));
    let c: Option<u16> = m.match_number(Endianness::Big);
    // One byte is left: the number fails and nothing is consumed.
    assert_eq!(c, None);
    assert_eq!(m.bit_size(), 8);
}

#[test]
fn match_number_needs_whole_bytes() {
    // 12 bits remain after 4 are consumed: too few for a u16.
    let data = [0x0au8, 0xbc];
    let mut m = Matcher::with_slice(&data);
    assert!(m.match_bits(4).is_some());
    let n: Option<u16> = m.match_number(Endianness::Big);
    assert_eq!(n, None);
    assert_eq!(m.bit_size(), 12);
    let b: Option<u8> = m.match_number(Endianness::Big);
    assert_eq!(b, Some(0xab));
    assert_eq!(m.bit_size(), 4);
}

#[test]
fn read_ap_number_big_and_little() {
    // First 12 bits: 1010 1011 1100 (0xabc).
    let data = [0xabu8, 0xcd];
    let mut m = Matcher::with_slice(&data);
    let big: Option<u16> = m.read_ap_number(12, Endianness::Big);
    assert_eq!(big, Some(0x0abc));
    // Little: bytes [0xab, 0xc0] read as 0xc0ab, shifted right by 4.
    let little: Option<u16> = m.read_ap_number(12, Endianness::Little);
    assert_eq!(little, Some(0x0c0a));
    let full: Option<u16> = m.read_ap_number(16, Endianness::Big);
    assert_eq!(full, Some(0xabcd));
    let full_little: Option<u16> = m.read_ap_number(16, Endianness::Little);
    assert_eq!(full_little, Some(0xcdab));
    let small: Option<u32> = m.read_ap_number(4, Endianness::Big);
    assert_eq!(small, Some(0xa));
    let byte: Option<u8> = m.read_ap_number(8, Endianness::Little);
    assert_eq!(byte, Some(0xab));
    let none: Option<u8> = m.read_ap_number(0, Endianness::Big);
    assert_eq!(none, Some(0));
    let missing: Option<u32> = m.read_ap_number(17, Endianness::Big);
    assert_eq!(missing, None);
    assert_eq!(m.bit_size(), 16);
}

#[test]
fn read_ap_number_of_a_signed_type_keeps_the_bits_on_top() {
    // Twelve one bits become the bytes [0xff, 0xf0]: -16 as an i16.
    let data = [0xffu8, 0xff];
    let mut m = Matcher::with_slice(&data);
    let n: Option<i16> = m.read_ap_number(12, Endianness::Big);
    assert_eq!(n, Some(-16));
    let p: Option<i32> = m.read_ap_number(4, Endianness::Big);
    assert_eq!(p, Some(-0x1000_0000));
    let full: Option<i16> = m.read_ap_number(16, Endianness::Big);
    assert_eq!(full, Some(-1));
}

#[test]
fn match_ap_number_advances_by_the_bit_size() {
    let data = [0xabu8, 0xcd, 0xef];
    let mut m = Matcher::with_slice(&data);
    let n: Option<u16> = m.match_ap_number(12, Endianness::Big);
    assert_eq!(n, Some(0x0abc));
    assert_eq!(m.bit_size(), 12);
    let next: Option<u16> = m.match_ap_number(12, Endianness::Big);
    assert_eq!(next, Some(0x0def));
    assert_eq!(m.bit_size(), 0);
    let none: Option<u16> = m.match_ap_number(1, Endianness::Big);
    assert_eq!(none, None);
    assert_eq!(m.bit_size(), 0);
}

#[test]
fn full_width_ap_number_equals_number() {
    let data = [0x12u8, 0x34, 0x56, 0x78];
    let mut m = Matcher::with_slice(&data);
    let a: Option<u32> = m.read_ap_number(32, Endianness::Big);
    let b: Option<u32> = m.read_number(Endianness::Big);
    assert_eq!(a, b);
    let c: Option<u32> = m.read_ap_number(32, Endianness::Little);
    let d: Option<u32> = m.read_number(Endianness::Little);
    assert_eq!(c, d);
    assert_eq!(d, Some(0x78563412));
}

#[test]
fn u32_roundtrip_in_every_order() {
    for v in [0u32, 1, 0xdeadbeef, u32::MAX] {
        for order in [Endianness::Big, Endianness::Little, Endianness::Native] {
            let mut bytes = match order {
                Endianness::Big => v.to_be_bytes().to_vec(),
                Endianness::Little => v.to_le_bytes().to_vec(),
                Endianness::Native => v.to_ne_bytes().to_vec(),
            };
            bytes.extend_from_slice(&[9, 9]);
            let mut m = Matcher::with_slice(&bytes);
            let r: Option<u32> = m.match_number(order);
            assert_eq!(r, Some(v));
            assert_eq!(m.bit_size(), 16);
        }
    }
}

#[test]
fn probe_decides_the_order() {
    assert_eq!(order_of_probe(1), Endianness::Big);
    assert_eq!(order_of_probe(256), Endianness::Little);
    assert_eq!(order_of_probe(u16::from_ne_bytes([0, 1])), native_endianness());
}

#[test]
fn little_endian_is_big_endian_reversed() {
    let data = [0x01u8, 0x02, 0x03, 0x04];
    let reversed = [0x04u8, 0x03, 0x02, 0x01];
    let little: Option<u32> = Matcher::with_slice(&data).read_number(Endianness::Little);
    let big: Option<u32> = Matcher::with_slice(&reversed).read_number(Endianness::Big);
    assert_eq!(little, big);
}
