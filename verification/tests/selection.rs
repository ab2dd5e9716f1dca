use firefly_binary::selection::{Selection, SelectionError};

#[test]
fn selection_new_rejects_bit_offset_of_eight() {
    let data = [1u8, 2, 3];
    assert_eq!(
        Selection::new(&data, 0, 8, None, 1).unwrap_err(),
        SelectionError::InvalidBitOffset
    );
}

#[test]
fn selection_new_rejects_bad_trailing_bits() {
    let data = [1u8, 2, 3];
    assert_eq!(
        Selection::new(&data, 0, 0, Some(0), 1).unwrap_err(),
        SelectionError::InvalidTrailingBits
    );
    assert_eq!(
        Selection::new(&data, 0, 0, Some(9), 1).unwrap_err(),
        SelectionError::InvalidTrailingBits
    );
    let empty: [u8; 0] = [];
    assert_eq!(
        Selection::new(&empty, 0, 0, Some(4), 0).unwrap_err(),
        SelectionError::InvalidTrailingBits
    );
}

#[test]
fn selection_new_rejects_out_of_range() {
    let data = [1u8, 2, 3];
    assert_eq!(
        Selection::new(&data, 0, 0, None, 25).unwrap_err(),
        SelectionError::OutOfRange
    );
    assert_eq!(
        Selection::new(&data, 4, 0, None, 0).unwrap_err(),
        SelectionError::OutOfRange
    );
    assert_eq!(
        Selection::new(&data, 2, 7, None, 2).unwrap_err(),
        SelectionError::OutOfRange
    );
    // Only the 3 leading bits of the last byte count.
    assert_eq!(
        Selection::new(&data, 0, 0, Some(3), 20).unwrap_err(),
        SelectionError::OutOfRange
    );
    assert!(Selection::new(&data, 0, 0, Some(3), 19).is_ok());
    assert!(Selection::new(&data, 2, 7, None, 1).is_ok());
}

#[test]
fn selection_sizes() {
    let data = [0xffu8, 0x00, 0xaa];
    let s = Selection::new(&data, 0, 3, None, 13).unwrap();
    assert_eq!(s.bit_size(), 13);
    assert_eq!(s.byte_size(), 2);
    assert!(!s.is_binary());
    let all = Selection::all(&data);
    assert_eq!(all.bit_size(), 24);
    assert_eq!(all.byte_size(), 3);
    assert!(all.is_binary());
}

#[test]
fn selection_unaligned_bytes_are_padded() {
    // 0b1010_1010 0b1100_1100; skip 4 bits, take 10: 1010 1100 11
    let data = [0b1010_1010u8, 0b1100_1100];
    let s = Selection::new(&data, 0, 4, None, 10).unwrap();
    assert_eq!(s.get(0), Some(0b1010_1100));
    assert_eq!(s.get(1), Some(0b1100_0000));
    assert_eq!(s.get(2), None);
    assert_eq!(s.to_bytes(), vec![0b1010_1100, 0b1100_0000]);
    assert!(s.get_bit(0));
    assert!(!s.get_bit(1));
    assert!(s.get_bit(9));
}

#[test]
fn selection_take_and_shrink() {
    let data = [0x12u8, 0x34, 0x56];
    let s = Selection::all(&data);
    let t = s.take(12).unwrap();
    assert_eq!(t, Selection::new(&data, 0, 0, None, 12).unwrap());
    assert_eq!(s.take(25).unwrap_err(), SelectionError::OutOfRange);
    let r = s.shrink_front(8);
    assert!(r == b"\x34\x56");
    let e = s.shrink_front(100);
    assert_eq!(e.bit_size(), 0);
    assert!(e == b"");
}

#[test]
fn selection_equality_is_by_bits() {
    let a = [0b0110_0000u8];
    let b = [0xfeu8, 0b1100_0000];
    // The bits 011, in `a` from bit 0 and in `b` from bit 7.
    let s1 = Selection::new(&a, 0, 0, None, 3).unwrap();
    let s2 = Selection::new(&b, 0, 7, None, 3).unwrap();
    assert_eq!(s1, s2);
    // The bits 100.
    let s3 = Selection::new(&b, 1, 1, None, 3).unwrap();
    assert!(s1 != s3);
    // Same leading bits, other length.
    let s4 = Selection::new(&a, 0, 0, None, 4).unwrap();
    assert!(s1 != s4);
    let whole = Selection::all(&b);
    assert!(whole == &b);
    assert!(!(whole == b"\xfe"));
    assert!(!(whole == b"\xfe\xc1"));
}
