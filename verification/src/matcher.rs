use crate::bigint::{bigint_of, bytes_to_bigint};
use crate::bits::{bits_of, bits_value, byte_at, bytes_needed, bytes_of, drop_bits};
use crate::endian::{Endianness, FromEndianBytes};
use crate::selection::Selection;
use crate::unicode::{
    char_from_u32,
    char_of,
    is_utf8_continuation,
    lemma_ascii_code,
    lemma_utf8_code_bounds,
    surrogate_pair_code,
    utf8_char_width,
};
use vstd::utf8::{decode_first_scalar, length_of_first_scalar, valid_first_scalar};
use num_bigint::BigInt;
use vstd::arithmetic::power2::{lemma2_to64, lemma_pow2_adds, lemma_pow2_strictly_increases, lemma_pow2_unfold, pow2};
use vstd::prelude::*;

verus! {

/// The number that `S` bytes give in the concrete byte order `order`.
pub open spec fn number_from_bytes<N: FromEndianBytes<S>, const S: usize>(
    order: Endianness,
    bytes: Seq<u8>,
) -> N
    recommends
        order != Endianness::Native,
{
    match order {
        Endianness::Little => N::spec_from_le_bytes(bytes),
        _ => N::spec_from_be_bytes(bytes),
    }
}

/// What [`Matcher::read_number`] reads from `bits` in the concrete byte order
/// `order`: the first `S` bytes, if `S` whole bytes remain.
pub open spec fn spec_read_number<N: FromEndianBytes<S>, const S: usize>(
    bits: Seq<bool>,
    order: Endianness,
) -> Option<N> {
    if 8 * S <= bits.len() {
        Some(number_from_bytes::<N, S>(order, bytes_of(bits).take(S as int)))
    } else {
        None
    }
}

/// The bytes that [`Matcher::read_ap_number`] builds its number from: those
/// that hold the first `bitsize` bits, the last padded with zero bits, then
/// zero bytes up to `S`.
pub open spec fn ap_bytes(bits: Seq<bool>, bitsize: int, s: int) -> Seq<u8> {
    bytes_of(bits.take(bitsize)) + Seq::new((s - bytes_needed(bitsize)) as nat, |i: int| 0u8)
}

/// What [`Matcher::read_ap_number`] reads from `bits` in the concrete byte
/// order `order`, from the bytes that hold the first `bitsize` bits, the last
/// one padded with zero bits, then zero bytes up to `S`:
/// - big-endian, unsigned type: the number whose binary digits are the first
///   `bitsize` bits;
/// - big-endian, signed type: those bytes read most significant first, as
///   they stand, so that the bits stay at the top of the number and its sign
///   is the first bit's;
/// - little-endian: those bytes read least significant first, shifted right
///   by the bits that a partial last byte lacks (none when `bitsize` is a
///   whole number of bytes). With a partial last byte the shift drops the low
///   bits of the first byte: 12 bits of `[0xab, 0xcd]` give `0x0c0a`.
pub open spec fn spec_read_ap_number<N: FromEndianBytes<S>, const S: usize>(
    bits: Seq<bool>,
    bitsize: int,
    order: Endianness,
) -> Option<N> {
    if bitsize <= bits.len() {
        match order {
            Endianness::Little => Some(
                N::spec_from_le_bytes(ap_bytes(bits, bitsize, S as int)).spec_shift_right(
                    ((8 - bitsize % 8) % 8) as u32,
                ),
            ),
            _ => if N::spec_is_signed() {
                Some(N::spec_from_be_bytes(ap_bytes(bits, bitsize, S as int)))
            } else {
                Some(N::spec_from_u128(bits_value(bits.take(bitsize)) as u128))
            },
        }
    } else {
        None
    }
}

/// What [`Matcher::match_utf8`] matches at the front of `bits`: the char
/// whose well-formed UTF-8 encoding the bits begin with, and the number of
/// bits that encoding takes.
pub open spec fn spec_match_utf8(bits: Seq<bool>) -> Option<(char, int)> {
    let bytes = bytes_of(bits);
    if bits.len() >= 8 && valid_first_scalar(bytes) && 8 * length_of_first_scalar(bytes)
        <= bits.len() {
        Some((decode_first_scalar(bytes) as char, 8 * length_of_first_scalar(bytes)))
    } else {
        None
    }
}

/// What [`Matcher::match_utf16`] matches at the front of `bits` in the
/// concrete byte order `order`: the char and the number of bits it takes.
pub open spec fn spec_match_utf16(bits: Seq<bool>, order: Endianness) -> Option<(char, int)> {
    match spec_read_number::<u16, 2>(bits, order) {
        None => None,
        Some(high) => if high < 0xd800 || high > 0xdfff {
            match char_of(high as u32) {
                Some(c) => Some((c, 16)),
                None => None,
            }
        } else if high >= 0xdc00 {
            None
        } else {
            match spec_read_number::<u16, 2>(drop_bits(bits, 16), order) {
                Some(low) => if 0xdc00 <= low <= 0xdfff {
                    match char_of(surrogate_pair_code(high, low)) {
                        Some(c) => Some((c, 32)),
                        None => None,
                    }
                } else {
                    None
                },
                None => None,
            }
        },
    }
}

/// What [`Matcher::match_utf32`] matches at the front of `bits` in the
/// concrete byte order `order`.
pub open spec fn spec_match_utf32(bits: Seq<bool>, order: Endianness) -> Option<char> {
    match spec_read_number::<u32, 4>(bits, order) {
        Some(code) => char_of(code),
        None => None,
    }
}

/// A match of a char: `r` is the char that `expected` gives, and the input
/// went from `before` to `after` by the bits it takes.
pub open spec fn char_matched(
    expected: Option<(char, int)>,
    r: Option<char>,
    before: Seq<bool>,
    after: Seq<bool>,
) -> bool {
    match expected {
        Some((c, n)) => r == Some(c) && after == drop_bits(before, n),
        None => r is None && after == before,
    }
}

/// What [`Matcher::read_bigint`] reads from `bits` in the concrete byte order
/// `order`: the number that the bytes holding the first `bitsize` bits give,
/// a final partial byte padded with zero bits.
pub open spec fn spec_read_bigint(
    bits: Seq<bool>,
    bitsize: int,
    signed: bool,
    order: Endianness,
) -> Option<BigInt> {
    if bitsize <= bits.len() {
        Some(bigint_of(bytes_of(bits.take(bitsize)), signed, order))
    } else {
        None
    }
}

/// Performs pattern matching against a bitstring or binary, consuming it
/// from the front.
pub struct Matcher<'a> {
    selection: Selection<'a>,
}

impl<'a> View for Matcher<'a> {
    type V = Seq<bool>;

    /// The bits that remain to be matched.
    closed spec fn view(&self) -> Seq<bool> {
        self.selection@
    }
}

impl<'a> Matcher<'a> {
    pub fn new(selection: Selection<'a>) -> (r: Self)
        ensures
            r@ == selection@,
    {
        Self { selection }
    }

    pub fn with_slice(data: &'a [u8]) -> (r: Self)
        requires
            data@.len() * 8 <= usize::MAX,
        ensures
            r@ == bits_of(data@),
    {
        Self { selection: Selection::all(data) }
    }

    /// The number of bits that remain.
    pub fn bit_size(&self) -> (r: usize)
        ensures
            r == self@.len(),
    {
        self.selection.bit_size()
    }

    /// Reads a single byte from the current position in the input without
    /// advancing the input.
    pub fn read_byte(&mut self) -> (r: Option<u8>)
        ensures
            *final(self) == *old(self),
            r == if old(self)@.len() >= 8 {
                Some(byte_at(old(self)@, 0))
            } else {
                None::<u8>
            },
    {
        if self.selection.bit_size() < 8 {
            return None;
        }
        self.selection.get(0)
    }

    /// Reads a constant number of bytes into the provided buffer without
    /// advancing the input. Returns whether that many whole bytes remain.
    pub fn read_bytes<const N: usize>(&mut self, buf: &mut [u8; N]) -> (r: bool)
        ensures
            *final(self) == *old(self),
            r == (8 * N <= old(self)@.len()),
            r ==> final(buf)@ == bytes_of(old(self)@).take(N as int),
            !r ==> final(buf)@ == old(buf)@,
    {
        if self.selection.bit_size() / 8 < N {
            return false;
        }
        let mut i: usize = 0;
        while i < N
            invariant
                i <= N <= bytes_needed(self@.len() as int),
                buf@.len() == N,
                forall|j: int| 0 <= j < i ==> buf@[j] == byte_at(self@, j),
            decreases N - i,
        {
            match self.selection.get(i) {
                Some(b) => {
                    buf[i] = b;
                },
                None => {},
            }
            i = i + 1;
        }
        assert(buf@ =~= bytes_of(self@).take(N as int));
        true
    }

    /// Reads up to the specified number of bits into the provided buffer
    /// without advancing the input: the bytes that hold them, the last one
    /// padded with zero bits. The rest of the buffer is left as it was.
    ///
    /// Returns whether that many bits remain.
    pub fn read_bits<const N: usize>(&mut self, buf: &mut [u8; N], bitsize: usize) -> (r: bool)
        requires
            bitsize <= N * 8,
        ensures
            *final(self) == *old(self),
            r == (bitsize <= old(self)@.len()),
            r ==> final(buf)@ == bytes_of(old(self)@.take(bitsize as int)) + old(buf)@.skip(
                bytes_needed(bitsize as int),
            ),
            !r ==> final(buf)@ == old(buf)@,
    {
        match self.selection.take(bitsize) {
            Ok(s) => {
                let needed = s.byte_size();
                let ghost old_buf = buf@;
                let mut i: usize = 0;
                while i < needed
                    invariant
                        i <= needed <= N,
                        needed == bytes_needed(s@.len() as int),
                        buf@.len() == N,
                        old_buf.len() == N,
                        forall|j: int| 0 <= j < i ==> buf@[j] == byte_at(s@, j),
                        forall|j: int| i <= j < N ==> buf@[j] == old_buf[j],
                    decreases needed - i,
                {
                    match s.get(i) {
                        Some(b) => {
                            buf[i] = b;
                        },
                        None => {},
                    }
                    i = i + 1;
                }
                assert(buf@ =~= bytes_of(s@) + old_buf.skip(needed as int));
                true
            },
            Err(_) => false,
        }
    }

    /// Reads a single number from the current position in the input without
    /// advancing the input.
    pub fn read_number<N: FromEndianBytes<S>, const S: usize>(
        &mut self,
        endianness: Endianness,
    ) -> (r: Option<N>)
        ensures
            *final(self) == *old(self),
            endianness != Endianness::Native ==> r == spec_read_number::<N, S>(
                old(self)@,
                endianness,
            ),
            endianness == Endianness::Native ==> r == spec_read_number::<N, S>(
                old(self)@,
                Endianness::Big,
            ) || r == spec_read_number::<N, S>(old(self)@, Endianness::Little),
    {
        let order = endianness.resolve();
        let mut bytes = [0u8; S];
        if self.read_bytes(&mut bytes) {
            match order {
                Endianness::Little => Some(N::from_le_bytes(bytes)),
                _ => Some(N::from_be_bytes(bytes)),
            }
        } else {
            None
        }
    }

    /// Reads a number of `bitsize` bits, at most the size of the containing
    /// type, from the current position in the input without advancing it.
    pub fn read_ap_number<N: FromEndianBytes<S>, const S: usize>(
        &mut self,
        bitsize: usize,
        endianness: Endianness,
    ) -> (r: Option<N>)
        requires
            bitsize <= S * 8,
        ensures
            *final(self) == *old(self),
            endianness != Endianness::Native ==> r == spec_read_ap_number::<N, S>(
                old(self)@,
                bitsize as int,
                endianness,
            ),
            endianness == Endianness::Native ==> r == spec_read_ap_number::<N, S>(
                old(self)@,
                bitsize as int,
                Endianness::Big,
            ) || r == spec_read_ap_number::<N, S>(old(self)@, bitsize as int, Endianness::Little),
    {
        proof {
            N::lemma_width();
        }
        let order = endianness.resolve();
        if bitsize > self.selection.bit_size() {
            return None;
        }
        match order {
            Endianness::Little => {
                let mut bytes = [0u8; S];
                let mut matcher = Matcher::new(self.selection);
                let read = matcher.read_bits(&mut bytes, bitsize);
                proof {
                    assert(read);
                    assert(bytes@ =~= ap_bytes(self@, bitsize as int, S as int));
                }
                let shift: u32 = ((8 - bitsize % 8) % 8) as u32;
                let n = N::from_le_bytes(bytes);
                Some(n.shift_right(shift))
            },
            _ => if N::is_signed() {
                let mut bytes = [0u8; S];
                let mut matcher = Matcher::new(self.selection);
                let read = matcher.read_bits(&mut bytes, bitsize);
                proof {
                    assert(read);
                    assert(bytes@ =~= ap_bytes(self@, bitsize as int, S as int));
                }
                Some(N::from_be_bytes(bytes))
            } else {
                let mut acc: u128 = 0;
                let mut i: usize = 0;
                proof {
                    lemma2_to64();
                }
                while i < bitsize
                    invariant
                        i <= bitsize <= self@.len(),
                        bitsize <= 128,
                        acc == bits_value(self@.take(i as int)),
                        acc < pow2(i as nat),
                    decreases bitsize - i,
                {
                    proof {
                        lemma_pow2_unfold((i + 1) as nat);
                        if i + 1 < 128 {
                            lemma_pow2_strictly_increases((i + 1) as nat, 128);
                        }
                        lemma2_to64();
                        lemma_pow2_adds(64, 64);
                        assert(self@.take(i + 1).drop_last() =~= self@.take(i as int));
                    }
                    let b = self.selection.get_bit(i);
                    acc = acc * 2 + if b {
                        1
                    } else {
                        0
                    };
                    i = i + 1;
                }
                Some(N::from_u128(acc))
            },
        }
    }

    /// Matches any primitive numeric type from the input, advancing the input
    /// by the size of the type if successful.
    pub fn match_number<N: FromEndianBytes<S>, const S: usize>(
        &mut self,
        endianness: Endianness,
    ) -> (r: Option<N>)
        ensures
            endianness != Endianness::Native ==> r == spec_read_number::<N, S>(
                old(self)@,
                endianness,
            ),
            endianness == Endianness::Native ==> r == spec_read_number::<N, S>(
                old(self)@,
                Endianness::Big,
            ) || r == spec_read_number::<N, S>(old(self)@, Endianness::Little),
            r is Some ==> final(self)@ == drop_bits(old(self)@, S * 8),
            r is None ==> *final(self) == *old(self),
    {
        proof {
            N::lemma_width();
        }
        let matched = self.read_number(endianness);
        match matched {
            Some(n) => {
                self.selection = self.selection.shrink_front(S * 8);
                Some(n)
            },
            None => None,
        }
    }

    /// Matches any primitive numeric type of arbitrary bit size, up to the
    /// containing type's size, from the input, advancing the input by that
    /// bit size if successful.
    pub fn match_ap_number<N: FromEndianBytes<S>, const S: usize>(
        &mut self,
        bitsize: usize,
        endianness: Endianness,
    ) -> (r: Option<N>)
        requires
            bitsize <= S * 8,
        ensures
            endianness != Endianness::Native ==> r == spec_read_ap_number::<N, S>(
                old(self)@,
                bitsize as int,
                endianness,
            ),
            endianness == Endianness::Native ==> r == spec_read_ap_number::<N, S>(
                old(self)@,
                bitsize as int,
                Endianness::Big,
            ) || r == spec_read_ap_number::<N, S>(old(self)@, bitsize as int, Endianness::Little),
            r is Some ==> final(self)@ == old(self)@.skip(bitsize as int),
            r is None ==> *final(self) == *old(self),
    {
        let matched = self.read_ap_number(bitsize, endianness);
        match matched {
            Some(n) => {
                self.selection = self.selection.shrink_front(bitsize);
                Some(n)
            },
            None => None,
        }
    }

    /// Reads a big integer of `bitsize` bits, two's complement when
    /// `signed`, from the current position in the input without advancing it.
    pub fn read_bigint(&mut self, bitsize: usize, signed: bool, endianness: Endianness) -> (r:
        Option<BigInt>)
        ensures
            *final(self) == *old(self),
            endianness != Endianness::Native ==> r == spec_read_bigint(
                old(self)@,
                bitsize as int,
                signed,
                endianness,
            ),
            endianness == Endianness::Native ==> r == spec_read_bigint(
                old(self)@,
                bitsize as int,
                signed,
                Endianness::Big,
            ) || r == spec_read_bigint(old(self)@, bitsize as int, signed, Endianness::Little),
    {
        let order = endianness.resolve();
        match self.selection.take(bitsize) {
            Ok(selection) => {
                let bytes = selection.to_bytes();
                Some(bytes_to_bigint(bytes.as_slice(), signed, order))
            },
            Err(_) => None,
        }
    }

    /// Matches a big integer of `bitsize` bits from the input, advancing the
    /// input if successful.
    pub fn match_bigint(&mut self, bitsize: usize, signed: bool, endianness: Endianness) -> (r:
        Option<BigInt>)
        ensures
            endianness != Endianness::Native ==> r == spec_read_bigint(
                old(self)@,
                bitsize as int,
                signed,
                endianness,
            ),
            endianness == Endianness::Native ==> r == spec_read_bigint(
                old(self)@,
                bitsize as int,
                signed,
                Endianness::Big,
            ) || r == spec_read_bigint(old(self)@, bitsize as int, signed, Endianness::Little),
            r is Some ==> final(self)@ == old(self)@.skip(bitsize as int),
            r is None ==> *final(self) == *old(self),
    {
        let matched = self.read_bigint(bitsize, signed, endianness);
        match matched {
            Some(n) => {
                self.selection = self.selection.shrink_front(bitsize);
                Some(n)
            },
            None => None,
        }
    }

    /// Matches a subslice of `n` bytes from the input, advancing the input
    /// if successful.
    pub fn match_bytes(&mut self, n: usize) -> (r: Option<Selection<'a>>)
        ensures
            match r {
                Some(s) => {
                    &&& n * 8 <= old(self)@.len()
                    &&& s@ == old(self)@.take(n * 8)
                    &&& final(self)@ == old(self)@.skip(n * 8)
                },
                None => n * 8 > old(self)@.len() && *final(self) == *old(self),
            },
    {
        let available = self.selection.bit_size();
        let bit_size = match n.checked_mul(8) {
            Some(b) => b,
            None => return None,
        };
        if bit_size > available {
            return None;
        }
        match self.selection.take(bit_size) {
            Ok(selection) => {
                self.selection = self.selection.shrink_front(bit_size);
                Some(selection)
            },
            Err(_) => None,
        }
    }

    /// Matches a subslice of `n` bits from the input, advancing the input if
    /// successful.
    pub fn match_bits(&mut self, n: usize) -> (r: Option<Selection<'a>>)
        ensures
            match r {
                Some(s) => {
                    &&& n <= old(self)@.len()
                    &&& s@ == old(self)@.take(n as int)
                    &&& final(self)@ == old(self)@.skip(n as int)
                },
                None => n > old(self)@.len() && *final(self) == *old(self),
            },
    {
        match self.selection.take(n) {
            Ok(selection) => {
                self.selection = self.selection.shrink_front(n);
                Some(selection)
            },
            Err(_) => None,
        }
    }

    /// Matches the rest of the input as long as it is a whole number of
    /// bytes. It consumes the matcher: it is the last match performed.
    pub fn match_binary(self) -> (r: Option<Selection<'a>>)
        ensures
            match r {
                Some(s) => self@.len() % 8 == 0 && s@ == self@,
                None => self@.len() % 8 != 0,
            },
    {
        if self.selection.is_binary() {
            Some(self.selection)
        } else {
            None
        }
    }

    /// Returns what remains of the input; always succeeds. It consumes the
    /// matcher: it is the last match performed.
    pub fn match_any(self) -> (r: Selection<'a>)
        ensures
            r@ == self@,
    {
        self.selection
    }

    /// Matches a single UTF-8 encoded char from the input, advancing the
    /// input past it if successful. The encoding must be well formed: a
    /// leading byte, continuation bytes, no overlong form, no surrogate.
    pub fn match_utf8(&mut self) -> (r: Option<char>)
        ensures
            char_matched(spec_match_utf8(old(self)@), r, old(self)@, final(self)@),
            r is None ==> *final(self) == *old(self),
    {
        let ghost bytes = bytes_of(self@);
        let first = match self.read_byte() {
            Some(b) => b,
            None => return None,
        };
        let width = utf8_char_width(first);
        if width == 1 {
            proof {
                lemma_ascii_code(first);
            }
            let c = match char_from_u32(first as u32) {
                Some(c) => c,
                None => return None,
            };
            self.selection = self.selection.shrink_front(8);
            Some(c)
        } else if width == 2 {
            let mut b = [0u8; 2];
            if !self.read_bytes(&mut b) {
                return None;
            }
            if !is_utf8_continuation(b[1]) {
                return None;
            }
            let code = ((b[0] & 0x1f) as u32) << 6 | (b[1] & 0x3f) as u32;
            proof {
                lemma_utf8_code_bounds(b[0], b[1], 0);
            }
            if code < 0x80 {
                return None;
            }
            let c = match char_from_u32(code) {
                Some(c) => c,
                None => return None,
            };
            self.selection = self.selection.shrink_front(16);
            Some(c)
        } else if width == 3 {
            let mut b = [0u8; 3];
            if !self.read_bytes(&mut b) {
                return None;
            }
            if !is_utf8_continuation(b[1]) || !is_utf8_continuation(b[2]) {
                return None;
            }
            let code = ((b[0] & 0x0f) as u32) << 12 | ((b[1] & 0x3f) as u32) << 6 | (b[2] & 0x3f) as u32;
            proof {
                lemma_utf8_code_bounds(b[0], b[1], b[2]);
            }
            if code < 0x800 {
                return None;
            }
            let c = match char_from_u32(code) {
                Some(c) => c,
                None => return None,
            };
            self.selection = self.selection.shrink_front(24);
            Some(c)
        } else if width == 4 {
            let mut b = [0u8; 4];
            if !self.read_bytes(&mut b) {
                return None;
            }
            if !is_utf8_continuation(b[1]) || !is_utf8_continuation(b[2])
                || !is_utf8_continuation(b[3]) {
                return None;
            }
            let code = ((b[0] & 0x07) as u32) << 18 | ((b[1] & 0x3f) as u32) << 12 | ((b[2]
                & 0x3f) as u32) << 6 | (b[3] & 0x3f) as u32;
            if code < 0x10000 || code > 0x10ffff {
                return None;
            }
            let c = match char_from_u32(code) {
                Some(c) => c,
                None => return None,
            };
            self.selection = self.selection.shrink_front(32);
            Some(c)
        } else {
            None
        }
    }

    /// Matches a single UTF-16 encoded char, one code unit or a surrogate
    /// pair, from the input, advancing the input past it if successful.
    pub fn match_utf16(&mut self, endianness: Endianness) -> (r: Option<char>)
        ensures
            endianness != Endianness::Native ==> char_matched(
                spec_match_utf16(old(self)@, endianness),
                r,
                old(self)@,
                final(self)@,
            ),
            endianness == Endianness::Native ==> char_matched(
                spec_match_utf16(old(self)@, Endianness::Big),
                r,
                old(self)@,
                final(self)@,
            ) || char_matched(
                spec_match_utf16(old(self)@, Endianness::Little),
                r,
                old(self)@,
                final(self)@,
            ),
            r is None ==> *final(self) == *old(self),
    {
        let order = endianness.resolve();
        let mut decoder = Utf16CodepointReader::new(Matcher::new(self.selection), order);
        let high = match decoder.next() {
            Some(u) => u,
            None => return None,
        };
        if high < 0xd800 || high > 0xdfff {
            let c = match char_from_u32(high as u32) {
                Some(c) => c,
                None => return None,
            };
            self.selection = self.selection.shrink_front(16);
            Some(c)
        } else if high >= 0xdc00 {
            None
        } else {
            let low = match decoder.next() {
                Some(u) => u,
                None => return None,
            };
            if low < 0xdc00 || low > 0xdfff {
                return None;
            }
            let code: u32 = 0x10000 + (high - 0xd800) as u32 * 0x400 + (low - 0xdc00) as u32;
            let c = match char_from_u32(code) {
                Some(c) => c,
                None => return None,
            };
            self.selection = self.selection.shrink_front(32);
            Some(c)
        }
    }

    /// Matches a single UTF-32 encoded char from the input, advancing the
    /// input past it if successful.
    pub fn match_utf32(&mut self, endianness: Endianness) -> (r: Option<char>)
        ensures
            endianness != Endianness::Native ==> r == spec_match_utf32(old(self)@, endianness),
            endianness == Endianness::Native ==> r == spec_match_utf32(
                old(self)@,
                Endianness::Big,
            ) || r == spec_match_utf32(old(self)@, Endianness::Little),
            r is Some ==> final(self)@ == drop_bits(old(self)@, 32),
            r is None ==> *final(self) == *old(self),
    {
        let raw: u32 = match self.read_number(endianness) {
            Some(n) => n,
            None => return None,
        };
        let c = match char_from_u32(raw) {
            Some(c) => c,
            None => return None,
        };
        self.selection = self.selection.shrink_front(32);
        Some(c)
    }
}

/// Reads UTF-16 code units from a matcher, one per call of `next`.
struct Utf16CodepointReader<'a> {
    matcher: Matcher<'a>,
    endianness: Endianness,
}

impl<'a> Utf16CodepointReader<'a> {
    fn new(matcher: Matcher<'a>, endianness: Endianness) -> (r: Self)
        ensures
            r.matcher@ == matcher@,
            r.endianness == endianness,
    {
        Self { matcher, endianness }
    }

    /// The next code unit, read in the reader's byte order and consumed;
    /// `None`, with nothing consumed, when fewer than 16 bits remain.
    fn next(&mut self) -> (r: Option<u16>)
        ensures
            final(self).endianness == old(self).endianness,
            old(self).endianness != Endianness::Native ==> r == spec_read_number::<u16, 2>(
                old(self).matcher@,
                old(self).endianness,
            ),
            old(self).endianness == Endianness::Native ==> r == spec_read_number::<u16, 2>(
                old(self).matcher@,
                Endianness::Big,
            ) || r == spec_read_number::<u16, 2>(old(self).matcher@, Endianness::Little),
            r is Some ==> final(self).matcher@ == drop_bits(old(self).matcher@, 16),
            r is None ==> final(self).matcher == old(self).matcher,
    {
        self.matcher.match_number(self.endianness)
    }
}

} // verus!
