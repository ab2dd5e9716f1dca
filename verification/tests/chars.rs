use firefly_binary::endian::Endianness;
use firefly_binary::matcher::Matcher;

#[test]
fn utf8_roundtrip_of_each_width() {
    for c in ['a', '\u{7f}', 'ø', '\u{7ff}', '€', '\u{ffff}', '😀', '\u{10ffff}'] {
        let mut buf = [0u8; 8];
        let len = c.encode_utf8(&mut buf).len();
        buf[len] = b'!';
        let mut m = Matcher::with_slice(&buf[..len + 1]);
        assert_eq!(m.match_utf8(), Some(c));
        assert_eq!(m.bit_size(), 8);
        assert_eq!(m.match_utf8(), Some('!'));
    }
}

#[test]
fn utf8_rejects_invalid_input() {
    // A continuation byte cannot start a char.
    let mut m = Matcher::with_slice(&[0x80u8]);
    assert_eq!(m.match_utf8(), None);
    assert_eq!(m.bit_size(), 8);
    // Overlong forms and leading bytes above 0xf4.
    assert_eq!(Matcher::with_slice(&[0xc0u8, 0x80]).match_utf8(), None);
    assert_eq!(Matcher::with_slice(&[0xc1u8, 0xbf]).match_utf8(), None);
    let mut m = Matcher::with_slice(&[0xe0u8, 0x80, 0x80]);
    assert_eq!(m.match_utf8(), None);
    assert_eq!(m.bit_size(), 24);
    assert_eq!(Matcher::with_slice(&[0xf0u8, 0x8f, 0xbf, 0xbf]).match_utf8(), None);
    assert_eq!(Matcher::with_slice(&[0xf5u8, 0x80, 0x80, 0x80]).match_utf8(), None);
    // Continuation bytes must carry their tag.
    assert_eq!(Matcher::with_slice(&[0xc3u8, 0x41]).match_utf8(), None);
    assert_eq!(Matcher::with_slice(&[0xe2u8, 0x82, 0x2c]).match_utf8(), None);
    assert_eq!(Matcher::with_slice(&[0xf0u8, 0x9f, 0x98, 0x40]).match_utf8(), None);
    // Truncated sequences.
    assert_eq!(Matcher::with_slice(&[0xe2u8, 0x82]).match_utf8(), None);
    // An encoded surrogate is no char.
    assert_eq!(Matcher::with_slice(&[0xedu8, 0xa0, 0x80]).match_utf8(), None);
    // Above 0x10ffff.
    assert_eq!(Matcher::with_slice(&[0xf4u8, 0x90, 0x80, 0x80]).match_utf8(), None);
    // Fewer than 8 bits.
    let mut m = Matcher::with_slice(&[0x41u8]);
    assert!(m.match_bits(1).is_some());
    assert_eq!(m.match_utf8(), None);
}

fn utf16_bytes(c: char, order: Endianness) -> Vec<u8> {
    let mut buf = [0u16; 2];
    let units = c.encode_utf16(&mut buf);
    units
        .iter()
        .flat_map(|u| match order {
            Endianness::Big => u.to_be_bytes(),
            Endianness::Little => u.to_le_bytes(),
            Endianness::Native => u.to_ne_bytes(),
        })
        .collect()
}

#[test]
fn utf16_roundtrip_in_both_orders() {
    for c in ['a', 'ø', '\u{d7ff}', '\u{e000}', '\u{ffff}', '😀', '\u{10ffff}'] {
        for order in [Endianness::Big, Endianness::Little, Endianness::Native] {
            let mut bytes = utf16_bytes(c, order);
            let units = bytes.len() / 2;
            bytes.push(0xaa);
            let mut m = Matcher::with_slice(&bytes);
            assert_eq!(m.match_utf16(order), Some(c));
            assert_eq!(m.bit_size(), 8);
            assert_eq!(units, c.len_utf16());
        }
    }
}

#[test]
fn utf16_rejects_unpaired_surrogates() {
    // A lone low surrogate.
    let mut m = Matcher::with_slice(&[0xdcu8, 0x00, 0x00, 0x41]);
    assert_eq!(m.match_utf16(Endianness::Big), None);
    assert_eq!(m.bit_size(), 32);
    // A high surrogate followed by a plain unit.
    assert_eq!(Matcher::with_slice(&[0xd8u8, 0x3d, 0x00, 0x41]).match_utf16(Endianness::Big), None);
    // A high surrogate at the end of the input.
    assert_eq!(Matcher::with_slice(&[0xd8u8, 0x3d]).match_utf16(Endianness::Big), None);
    // Too little input.
    assert_eq!(Matcher::with_slice(&[] as &[u8]).match_utf16(Endianness::Little), None);
}

#[test]
fn utf32_roundtrip_and_invalid_codes() {
    for c in ['a', 'ø', '😀', '\u{10ffff}'] {
        let v = c as u32;
        let be = v.to_be_bytes();
        let mut m = Matcher::with_slice(&be);
        assert_eq!(m.match_utf32(Endianness::Big), Some(c));
        assert_eq!(m.bit_size(), 0);
        let le = v.to_le_bytes();
        let mut m = Matcher::with_slice(&le);
        assert_eq!(m.match_utf32(Endianness::Little), Some(c));
    }
    let surrogate = 0xd800u32.to_be_bytes();
    let mut m = Matcher::with_slice(&surrogate);
    assert_eq!(m.match_utf32(Endianness::Big), None);
    assert_eq!(m.bit_size(), 32);
    assert_eq!(Matcher::with_slice(&0x110000u32.to_be_bytes()).match_utf32(Endianness::Big), None);
}
