use firefly_binary::endian::Endianness;
use firefly_binary::matcher::Matcher;
use firefly_binary::selection::Selection;

#[test]
fn matcher_test_integers() {
    let bytes = 0xdeadbeefu32.to_be_bytes();
    let mut matcher = Matcher::with_slice(bytes.as_slice().into());
    let num: Option<u32> = matcher.match_number(Endianness::Big);
    assert_eq!(num, Some(0xdeadbeef));
}

#[test]
fn matcher_test_floats() {
    // Floats are read through their bit pattern.
    let bytes = 1.0f64.to_be_bytes();
    let mut matcher = Matcher::with_slice(bytes.as_slice().into());
    let num: Option<f64> = matcher.match_number::<u64, 8>(Endianness::Big).map(f64::from_bits);
    assert_eq!(num, Some(1.0));
}

#[test]
fn matcher_test_utf8() {
    let mut buf = [0; 4];
    let codepoints = 'ø'.encode_utf8(&mut buf);
    let mut matcher = Matcher::with_slice(codepoints.as_bytes().into());
    let c: Option<char> = matcher.match_utf8();
    assert_eq!(c, Some('ø'));
}

fn native_bytes(units: &[u16]) -> Vec<u8> {
    units.iter().flat_map(|u| u.to_ne_bytes()).collect()
}

#[test]
fn matcher_test_utf16() {
    let mut buf = [0; 2];
    let codepoints = 'ø'.encode_utf16(&mut buf);
    let bytes = native_bytes(codepoints);
    let mut matcher = Matcher::with_slice(bytes.as_slice().into());
    let c: Option<char> = matcher.match_utf16(Endianness::Native);
    assert_eq!(c, Some('ø'));

    let expected = '😀';
    let mut buf = [0; 2];
    let codepoints = expected.encode_utf16(&mut buf);
    let bytes = native_bytes(codepoints);
    let mut matcher = Matcher::with_slice(bytes.as_slice().into());
    let c: Option<char> = matcher.match_utf16(Endianness::Native);
    assert_eq!(c, Some(expected));
}

#[test]
fn matcher_test_utf32() {
    let expected = '😀';
    let codepoints = u32::to_ne_bytes(expected as u32);
    let bytes = codepoints.as_slice();
    let mut matcher = Matcher::with_slice(bytes.into());
    let c: Option<char> = matcher.match_utf32(Endianness::Native);
    assert_eq!(c, Some(expected));
}

#[test]
fn matcher_test_bytes() {
    let buf = b"hello world";
    let mut matcher = Matcher::with_slice(buf.as_slice().into());
    let bytes = matcher.match_bytes(5).unwrap();
    assert!(bytes == b"hello");
}

#[test]
fn matcher_test_bits() {
    let buf = b"hello world";
    let mut matcher = Matcher::with_slice(buf.as_slice().into());
    let bytes = matcher.match_bits(10).unwrap();
    let expected = Selection::new(&[104, 0b01000000], 0, 0, None, 10).unwrap();
    assert_eq!(bytes, expected);
}

#[test]
fn matcher_test_any() {
    let buf = b"hello";
    let mut matcher = Matcher::with_slice(buf.as_slice().into());
    let bytes = matcher.match_bits(10).unwrap();
    let expected = Selection::new(buf.as_slice(), 0, 0, None, 10).unwrap();
    assert_eq!(bytes, expected);
    let rest = matcher.match_any();
    let expected = Selection::new(buf.as_slice(), 1, 2, None, 30).unwrap();
    assert_eq!(rest, expected);
}
