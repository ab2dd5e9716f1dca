use firefly_binary::matcher::Matcher;
use firefly_binary::selection::Selection;

#[test]
fn read_byte_reads_without_advancing() {
    let data = [0b1111_0000u8, 0b1010_1010];
    let mut m = Matcher::with_slice(&data);
    assert_eq!(m.read_byte(), Some(0b1111_0000));
    assert!(m.match_bits(4).is_some());
    assert_eq!(m.read_byte(), Some(0b0000_1010));
    assert_eq!(m.read_byte(), Some(0b0000_1010));
    assert!(m.match_bits(5).is_some());
    // 7 bits left
    assert_eq!(m.read_byte(), None);
    assert_eq!(m.bit_size(), 7);
}

#[test]
fn read_bytes_fills_the_buffer() {
    let data = [1u8, 2, 3];
    let mut m = Matcher::with_slice(&data);
    let mut buf = [0u8; 2];
    assert!(m.read_bytes(&mut buf));
    assert_eq!(buf, [1, 2]);
    let mut big = [7u8; 4];
    assert!(!m.read_bytes(&mut big));
    assert_eq!(big, [7, 7, 7, 7]);
    assert_eq!(m.bit_size(), 24);
}

#[test]
fn read_bytes_needs_whole_bytes() {
    let data = [0xffu8, 0xff];
    let mut m = Matcher::new(Selection::new(&data, 0, 0, None, 12).unwrap());
    let mut buf = [0u8; 2];
    assert!(!m.read_bytes(&mut buf));
    assert_eq!(buf, [0, 0]);
    let mut one = [0u8; 1];
    assert!(m.read_bytes(&mut one));
    assert_eq!(one, [0xff]);
}

#[test]
fn match_bytes_with_a_huge_count_fails() {
    let data = [1u8, 2];
    let mut m = Matcher::with_slice(&data);
    assert!(m.match_bytes(usize::MAX).is_none());
    assert!(m.match_bytes(usize::MAX / 8 + 1).is_none());
    assert_eq!(m.bit_size(), 16);
}

#[test]
fn matches_tile_the_input() {
    let data = [0b1011_0011u8, 0b0101_1100];
    let mut a = Matcher::with_slice(&data);
    let first = a.match_bits(3).unwrap();
    let second = a.match_bits(6).unwrap();
    let mut b = Matcher::with_slice(&data);
    let both = b.match_bits(9).unwrap();
    assert_eq!(a.match_any(), b.match_any());
    let joined: Vec<bool> = (0..3)
        .map(|i| first.get_bit(i))
        .chain((0..6).map(|i| second.get_bit(i)))
        .collect();
    let expected: Vec<bool> = (0..9).map(|i| both.get_bit(i)).collect();
    assert_eq!(joined, expected);
}

#[test]
fn read_bits_fills_only_the_needed_bytes() {
    let data = [0xffu8, 0xff, 0xff];
    let mut m = Matcher::with_slice(&data);
    let mut buf = [0x11u8; 4];
    assert!(m.read_bits(&mut buf, 10));
    assert_eq!(buf, [0xff, 0xc0, 0x11, 0x11]);
    let mut buf = [0x11u8; 4];
    assert!(!m.read_bits(&mut buf, 25));
    assert_eq!(buf, [0x11; 4]);
    assert_eq!(m.bit_size(), 24);
}

#[test]
fn match_bytes_and_bits_fail_without_consuming() {
    let data = [1u8, 2];
    let mut m = Matcher::with_slice(&data);
    assert!(m.match_bytes(3).is_none());
    assert!(m.match_bits(17).is_none());
    assert_eq!(m.bit_size(), 16);
    let first = m.match_bytes(1).unwrap();
    assert!(first == b"\x01");
    assert_eq!(m.bit_size(), 8);
    let rest = m.match_bits(8).unwrap();
    assert!(rest == b"\x02");
    assert_eq!(m.bit_size(), 0);
}

#[test]
fn match_bits_then_rest_is_the_input() {
    let data = *b"split me";
    let mut m = Matcher::with_slice(&data);
    let head = m.match_bits(13).unwrap();
    let tail = m.match_any();
    let mut bits: Vec<bool> = (0..head.bit_size()).map(|i| head.get_bit(i)).collect();
    bits.extend((0..tail.bit_size()).map(|i| tail.get_bit(i)));
    let whole = Selection::all(&data);
    let expected: Vec<bool> = (0..whole.bit_size()).map(|i| whole.get_bit(i)).collect();
    assert_eq!(bits, expected);
}

#[test]
fn match_binary_needs_whole_bytes() {
    let data = [1u8, 2, 3];
    let mut m = Matcher::with_slice(&data);
    assert!(m.match_bits(3).is_some());
    assert!(m.match_binary().is_none());
    let m = Matcher::with_slice(&data);
    let all = m.match_binary().unwrap();
    assert!(all == &data);
    assert_eq!(all.to_bytes(), data.to_vec());
}
