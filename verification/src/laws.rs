use crate::bits::{
    bit_value,
    bits_value,
    lemma_partial_byte_bound,
    lemma_pow2_small,
    pow2,
    bits_of,
    bytes_needed,
    bytes_of,
    drop_bits,
    lemma_bytes_of_bits_of,
    lemma_byte_at_bits_of,
    byte_at,
    partial_byte,
};
use crate::endian::{
    be_bytes,
    le_bytes,
    be_value,
    le_value,
    lemma_be_bytes_value,
    lemma_le_bytes_value,
    ordered_bytes,
    pow256,
    Endianness,
    FromEndianBytes,
};
use crate::matcher::{
    spec_read_bigint,
    number_from_bytes,
    spec_match_utf16,
    spec_match_utf32,
    spec_match_utf8,
    spec_read_ap_number,
    spec_read_number,
    ap_bytes,
};
use crate::bigint::{
    bigint_from_signed_be,
    bigint_from_signed_le,
    bigint_from_unsigned_be,
    bigint_from_unsigned_le,
};
use crate::unicode::surrogate_pair_code;
use vstd::arithmetic::div_mod::lemma_fundamental_div_mod;
use vstd::prelude::*;
use vstd::utf8::{
    char_is_scalar,
    char_u32_cast,
    decode_first_scalar,
    encode_scalar,
    encode_utf8,
    encode_utf8_first_scalar,
    has_width_1_encoding,
    has_width_2_encoding,
    has_width_3_encoding,
    has_width_4_encoding,
    leading_byte_width_1,
    leading_byte_width_2,
    leading_byte_width_3,
    leading_byte_width_4,
    codepoint_width_1,
    codepoint_width_2,
    codepoint_width_3,
    codepoint_width_4,
    decode_first_codepoint,
    is_continuation_byte,
    is_leading_byte_width_1,
    is_leading_byte_width_2,
    is_leading_byte_width_3,
    is_leading_byte_width_4,
    last_continuation_byte,
    length_of_first_scalar,
    second_last_continuation_byte,
    third_last_continuation_byte,
    valid_first_scalar,
};

verus! {

/// Reading a byte slice bit by bit and packing the bits back into bytes
/// gives the slice itself.
pub proof fn law_bytes_roundtrip(data: Seq<u8>)
    ensures
        bytes_of(bits_of(data)) == data,
{
    lemma_bytes_of_bits_of(data);
}

/// A number read from the front of a byte slice is the number that the
/// slice's first `S` bytes give in that byte order.
pub proof fn law_read_number_of_slice<N: FromEndianBytes<S>, const S: usize>(
    data: Seq<u8>,
    order: Endianness,
)
    requires
        S <= data.len(),
    ensures
        spec_read_number::<N, S>(bits_of(data), order) == Some(
            number_from_bytes::<N, S>(order, data.take(S as int)),
        ),
{
    lemma_bytes_of_bits_of(data);
    assert(bytes_needed((data.len() * 8) as int) == data.len());
}

/// What a match of `n` bits returns, followed by what remains, is the input.
pub proof fn law_match_bits_splits(bits: Seq<bool>, n: int)
    requires
        0 <= n <= bits.len(),
    ensures
        bits.take(n) + drop_bits(bits, n) == bits,
{
    assert(bits.take(n) + bits.skip(n) =~= bits);
}

/// A well-formed first scalar of a byte sequence stays the first scalar,
/// with the same code and length, whatever bytes follow.
proof fn lemma_first_scalar_extends(enc: Seq<u8>, rest: Seq<u8>)
    requires
        valid_first_scalar(enc),
        length_of_first_scalar(enc) == enc.len(),
    ensures
        valid_first_scalar(enc + rest),
        decode_first_scalar(enc + rest) == decode_first_scalar(enc),
        length_of_first_scalar(enc + rest) == enc.len(),
{
    let bytes = enc + rest;
    assert forall|i: int| 0 <= i < enc.len() implies #[trigger] bytes[i] == enc[i] by {}
}

/// A char encoded in UTF-8, whatever follows it, is matched back whole.
pub proof fn law_utf8_roundtrip(c: char, rest: Seq<u8>)
    ensures
        spec_match_utf8(bits_of(encode_scalar(c as u32) + rest)) == Some(
            (c, 8 * encode_scalar(c as u32).len() as int),
        ),
{
    let s = c as u32;
    let enc = encode_scalar(s);
    let bytes = enc + rest;
    let chars = seq![c];
    char_is_scalar(c);
    encode_utf8_first_scalar(chars);
    assert(chars.drop_first() =~= Seq::<char>::empty());
    assert(encode_utf8(chars) =~= enc) by {
        reveal_with_fuel(encode_utf8, 2);
    }
    lemma_first_scalar_extends(enc, rest);
    lemma_bytes_of_bits_of(bytes);
    char_u32_cast(c, s);
}

proof fn lemma_decode_encode_width_1(b1: u8)
    by (bit_vector)
    requires
        is_leading_byte_width_1(b1),
    ensures
        has_width_1_encoding(codepoint_width_1(b1)),
        leading_byte_width_1(codepoint_width_1(b1)) == b1,
{
}

proof fn lemma_decode_encode_width_2(b1: u8, b2: u8)
    by (bit_vector)
    requires
        is_leading_byte_width_2(b1),
        is_continuation_byte(b2),
        0x80 <= codepoint_width_2(b1, b2),
    ensures
        has_width_2_encoding(codepoint_width_2(b1, b2)),
        leading_byte_width_2(codepoint_width_2(b1, b2)) == b1,
        last_continuation_byte(codepoint_width_2(b1, b2)) == b2,
{
}

proof fn lemma_decode_encode_width_3(b1: u8, b2: u8, b3: u8)
    by (bit_vector)
    requires
        is_leading_byte_width_3(b1),
        is_continuation_byte(b2),
        is_continuation_byte(b3),
        0x800 <= codepoint_width_3(b1, b2, b3),
        !(0xd800 <= codepoint_width_3(b1, b2, b3) <= 0xdfff),
    ensures
        has_width_3_encoding(codepoint_width_3(b1, b2, b3)),
        leading_byte_width_3(codepoint_width_3(b1, b2, b3)) == b1,
        second_last_continuation_byte(codepoint_width_3(b1, b2, b3)) == b2,
        last_continuation_byte(codepoint_width_3(b1, b2, b3)) == b3,
{
}

proof fn lemma_decode_encode_width_4(b1: u8, b2: u8, b3: u8, b4: u8)
    by (bit_vector)
    requires
        is_leading_byte_width_4(b1),
        is_continuation_byte(b2),
        is_continuation_byte(b3),
        is_continuation_byte(b4),
        0x10000 <= codepoint_width_4(b1, b2, b3, b4) <= 0x10ffff,
    ensures
        has_width_4_encoding(codepoint_width_4(b1, b2, b3, b4)),
        leading_byte_width_4(codepoint_width_4(b1, b2, b3, b4)) == b1,
        third_last_continuation_byte(codepoint_width_4(b1, b2, b3, b4)) == b2,
        second_last_continuation_byte(codepoint_width_4(b1, b2, b3, b4)) == b3,
        last_continuation_byte(codepoint_width_4(b1, b2, b3, b4)) == b4,
{
}

/// A char matched as UTF-8 is one whose encoding the input begins with, and
/// the match takes exactly that encoding.
pub proof fn law_utf8_match_is_encoding(bits: Seq<bool>)
    ensures
        spec_match_utf8(bits) matches Some((c, n)) ==> {
            &&& n == 8 * encode_scalar(c as u32).len()
            &&& n <= bits.len()
            &&& bytes_of(bits).take(n / 8) == encode_scalar(c as u32)
        },
{
    let bytes = bytes_of(bits);
    if let Some((c, n)) = spec_match_utf8(bits) {
        let cp = decode_first_codepoint(bytes);
        let w = length_of_first_scalar(bytes);
        if is_leading_byte_width_1(bytes[0]) {
            lemma_decode_encode_width_1(bytes[0]);
        } else if is_leading_byte_width_2(bytes[0]) {
            lemma_decode_encode_width_2(bytes[0], bytes[1]);
        } else if is_leading_byte_width_3(bytes[0]) {
            lemma_decode_encode_width_3(bytes[0], bytes[1], bytes[2]);
        } else {
            lemma_decode_encode_width_4(bytes[0], bytes[1], bytes[2], bytes[3]);
        }
        assert(c as u32 == cp);
        assert(bytes.take(w) =~= encode_scalar(cp));
    }
}

/// The UTF-16 code units of a char: the char itself below `0x10000`, a
/// surrogate pair above.
pub open spec fn utf16_units(c: char) -> Seq<u16> {
    let v = c as u32;
    if v < 0x10000 {
        seq![v as u16]
    } else {
        seq![(0xd800 + (v - 0x10000) / 0x400) as u16, (0xdc00 + (v - 0x10000) % 0x400) as u16]
    }
}

/// The bytes of a sequence of UTF-16 code units in the byte order `order`.
pub open spec fn units_bytes(units: Seq<u16>, order: Endianness) -> Seq<u8>
    decreases units.len(),
{
    if units.len() == 0 {
        Seq::empty()
    } else {
        ordered_bytes(units[0] as nat, 2, order) + units_bytes(units.drop_first(), order)
    }
}

/// The bits of a byte sequence past its first `k` bytes are the bits of the
/// bytes that follow them.
pub proof fn lemma_bits_of_skip(data: Seq<u8>, k: int)
    requires
        0 <= k <= data.len(),
    ensures
        drop_bits(bits_of(data), 8 * k) == bits_of(data.skip(k)),
{
    let a = drop_bits(bits_of(data), 8 * k);
    let b = bits_of(data.skip(k));
    assert forall|i: int| 0 <= i < b.len() implies #[trigger] a[i] == b[i] by {
        assert((8 * k + i) / 8 == k + i / 8);
        assert((8 * k + i) % 8 == i % 8);
    }
    assert(a =~= b);
}

proof fn lemma_ordered_bytes_value(v: nat, n: nat, order: Endianness)
    ensures
        ordered_bytes(v, n, order).len() == n,
        order == Endianness::Little ==> le_value(ordered_bytes(v, n, order)) == v % pow256(n),
        order != Endianness::Little ==> be_value(ordered_bytes(v, n, order)) == v % pow256(n),
{
    lemma_be_bytes_value(v, n);
    lemma_le_bytes_value(v, n);
}

/// A 16-bit number written in a byte order, whatever follows it, is read back
/// in that byte order.
pub proof fn law_u16_roundtrip(v: u16, order: Endianness, rest: Seq<u8>)
    requires
        order != Endianness::Native,
    ensures
        spec_read_number::<u16, 2>(bits_of(ordered_bytes(v as nat, 2, order) + rest), order)
            == Some(v),
{
    let enc = ordered_bytes(v as nat, 2, order);
    let bytes = enc + rest;
    lemma_ordered_bytes_value(v as nat, 2, order);
    law_read_number_of_slice::<u16, 2>(bytes, order);
    assert(bytes.take(2) =~= enc);
    assert(pow256(2) == 0x10000) by {
        reveal_with_fuel(pow256, 3);
    }
}

/// A 32-bit number written in a byte order, whatever follows it, is read back
/// in that byte order.
pub proof fn law_u32_roundtrip(v: u32, order: Endianness, rest: Seq<u8>)
    requires
        order != Endianness::Native,
    ensures
        spec_read_number::<u32, 4>(bits_of(ordered_bytes(v as nat, 4, order) + rest), order)
            == Some(v),
{
    let enc = ordered_bytes(v as nat, 4, order);
    let bytes = enc + rest;
    lemma_ordered_bytes_value(v as nat, 4, order);
    law_read_number_of_slice::<u32, 4>(bytes, order);
    assert(bytes.take(4) =~= enc);
    assert(pow256(4) == 0x1_0000_0000) by {
        reveal_with_fuel(pow256, 5);
    }
}

/// A char encoded in UTF-32 in a byte order, whatever follows it, is matched
/// back in that byte order.
pub proof fn law_utf32_roundtrip(c: char, order: Endianness, rest: Seq<u8>)
    requires
        order != Endianness::Native,
    ensures
        spec_match_utf32(bits_of(ordered_bytes(c as u32 as nat, 4, order) + rest), order) == Some(
            c,
        ),
{
    law_u32_roundtrip(c as u32, order, rest);
    char_is_scalar(c);
    char_u32_cast(c, c as u32);
}

/// A char encoded in UTF-16 in a byte order, whatever follows it, is matched
/// back in that byte order, together with the number of bits it takes.
pub proof fn law_utf16_roundtrip(c: char, order: Endianness, rest: Seq<u8>)
    requires
        order != Endianness::Native,
    ensures
        spec_match_utf16(bits_of(units_bytes(utf16_units(c), order) + rest), order) == Some(
            (c, 16 * utf16_units(c).len() as int),
        ),
{
    let v = c as u32;
    let units = utf16_units(c);
    char_is_scalar(c);
    char_u32_cast(c, v);
    reveal_with_fuel(units_bytes, 3);
    if v < 0x10000 {
        let u = v as u16;
        let enc = ordered_bytes(u as nat, 2, order);
        assert(units.drop_first() =~= Seq::<u16>::empty());
        assert(units_bytes(units, order) =~= enc);
        law_u16_roundtrip(u, order, rest);
        assert(u as u32 == v);
    } else {
        let high = units[0];
        let low = units[1];
        let e1 = ordered_bytes(high as nat, 2, order);
        let e2 = ordered_bytes(low as nat, 2, order);
        let bytes = e1 + e2 + rest;
        lemma_ordered_bytes_value(high as nat, 2, order);
        lemma_ordered_bytes_value(low as nat, 2, order);
        assert(units.drop_first().drop_first() =~= Seq::<u16>::empty());
        assert(units.drop_first()[0] == low);
        assert(units_bytes(units, order) + rest =~= bytes);
        assert(bytes =~= e1 + (e2 + rest));
        law_u16_roundtrip(high, order, e2 + rest);
        lemma_bits_of_skip(bytes, 2);
        assert(bytes.skip(2) =~= e2 + rest);
        law_u16_roundtrip(low, order, rest);
        lemma_fundamental_div_mod(v - 0x10000, 0x400);
        assert(surrogate_pair_code(high, low) == v);
    }
}

proof fn lemma_partial_byte_take(bits: Seq<bool>, m: int, k: int, j: nat)
    requires
        0 <= k,
        j <= 8,
        8 * k + 8 <= m <= bits.len(),
    ensures
        partial_byte(bits.take(m), k, j) == partial_byte(bits, k, j),
    decreases j,
{
    if j > 0 {
        lemma_partial_byte_take(bits, m, k, (j - 1) as nat);
        assert(bit_value(bits.take(m), 8 * k + j - 1) == bit_value(bits, 8 * k + j - 1));
    }
}

/// The bytes of the first `8 * s` bits are the first `s` bytes.
pub proof fn lemma_bytes_of_take(bits: Seq<bool>, s: int)
    requires
        0 <= 8 * s <= bits.len(),
    ensures
        bytes_of(bits.take(8 * s)) == bytes_of(bits).take(s),
{
    let a = bytes_of(bits.take(8 * s));
    let b = bytes_of(bits).take(s);
    assert forall|k: int| 0 <= k < s implies #[trigger] a[k] == b[k] by {
        lemma_partial_byte_take(bits, 8 * s, k, 8);
    }
    assert(a =~= b);
}

proof fn lemma_bits_value_byte(x: Seq<bool>, k: int, j: nat)
    requires
        0 <= k,
        j <= 8,
        8 * k + j <= x.len(),
    ensures
        bits_value(x.take(8 * k + j)) == bits_value(x.take(8 * k)) * pow2(j) + partial_byte(
            x,
            k,
            j,
        ),
    decreases j,
{
    if j == 0 {
        assert(x.take(8 * k + 0) =~= x.take(8 * k));
    } else {
        lemma_bits_value_byte(x, k, (j - 1) as nat);
        assert(x.take(8 * k + j).drop_last() =~= x.take(8 * k + j - 1));
        let b = bits_value(x.take(8 * k));
        let p = pow2((j - 1) as nat);
        assert(b * pow2(j) == (b * p) * 2) by (nonlinear_arith)
            requires
                pow2(j) == 2 * p,
        ;
    }
}

/// The unsigned value of the first `8 * k` bits is the big-endian value of
/// the first `k` bytes.
pub proof fn lemma_bits_value_is_be_value(x: Seq<bool>, k: int)
    requires
        0 <= k,
        8 * k <= x.len(),
    ensures
        be_value(bytes_of(x).take(k)) == bits_value(x.take(8 * k)),
    decreases k,
{
    if k == 0 {
        assert(bytes_of(x).take(0) =~= Seq::<u8>::empty());
        assert(x.take(0) =~= Seq::<bool>::empty());
    } else {
        lemma_bits_value_is_be_value(x, k - 1);
        lemma_bits_value_byte(x, k - 1, 8);
        lemma_pow2_small();
        lemma_partial_byte_bound(x, k - 1, 8);
        assert(bytes_of(x).take(k).drop_last() =~= bytes_of(x).take(k - 1));
        assert(8 * (k - 1) + 8 == 8 * k);
    }
}

/// Read at the full width of its type, an arbitrary-size number is the
/// number that a fixed-size read gives, in either byte order.
pub proof fn law_full_width_ap_number<N: FromEndianBytes<S>, const S: usize>(
    bits: Seq<bool>,
    order: Endianness,
)
    requires
        S * 8 <= bits.len(),
        order != Endianness::Native,
    ensures
        spec_read_ap_number::<N, S>(bits, S * 8, order) == spec_read_number::<N, S>(bits, order),
{
    let bytes = bytes_of(bits).take(S as int);
    lemma_bytes_of_take(bits, S as int);
    assert(ap_bytes(bits, S * 8, S as int) =~= bytes);
    if order == Endianness::Little {
        N::lemma_shift_zero(N::spec_from_le_bytes(bytes));
    } else {
        lemma_bits_value_is_be_value(bits, S as int);
        N::lemma_be_is_value(bytes);
    }
}

/// A little-endian read gives what a big-endian read of the same bytes,
/// reversed, gives.
pub proof fn law_little_is_reversed_big<N: FromEndianBytes<S>, const S: usize>(bits: Seq<bool>)
    requires
        8 * S <= bits.len(),
    ensures
        spec_read_number::<N, S>(bits, Endianness::Little) == spec_read_number::<N, S>(
            bits_of(bytes_of(bits).take(S as int).reverse()),
            Endianness::Big,
        ),
{
    let rev = bytes_of(bits).take(S as int).reverse();
    N::lemma_le_is_reversed_be(bytes_of(bits).take(S as int));
    lemma_bytes_of_bits_of(rev);
    assert(rev.take(S as int) =~= rev);
}

/// Matching `m` bits and then `n` bits leaves what matching `m + n` bits
/// leaves, and the two pieces together are the first `m + n` bits.
pub proof fn law_matches_tile(bits: Seq<bool>, m: int, n: int)
    requires
        0 <= m,
        0 <= n,
    ensures
        drop_bits(drop_bits(bits, m), n) == drop_bits(bits, m + n),
        m + n <= bits.len() ==> bits.take(m) + drop_bits(bits, m).take(n) == bits.take(m + n),
{
    if m + n <= bits.len() {
        assert(bits.skip(m).skip(n) =~= bits.skip(m + n));
        assert(bits.take(m) + bits.skip(m).take(n) =~= bits.take(m + n));
    } else if m <= bits.len() {
        assert(drop_bits(drop_bits(bits, m), n) =~= Seq::<bool>::empty());
    }
}

/// What remains of `bits` after successive matches of `sizes[0]`,
/// `sizes[1]`, ... bits.
pub open spec fn after_matches(bits: Seq<bool>, sizes: Seq<int>) -> Seq<bool>
    decreases sizes.len(),
{
    if sizes.len() == 0 {
        bits
    } else {
        drop_bits(after_matches(bits, sizes.drop_last()), sizes.last())
    }
}

/// Whether successive matches of `sizes[0]`, `sizes[1]`, ... bits all
/// succeed on `bits`.
pub open spec fn matches_fit(bits: Seq<bool>, sizes: Seq<int>) -> bool
    decreases sizes.len(),
{
    sizes.len() == 0 || (matches_fit(bits, sizes.drop_last()) && 0 <= sizes.last()
        <= after_matches(bits, sizes.drop_last()).len())
}

/// The bits that successive matches of `sizes[0]`, `sizes[1]`, ... bits
/// return, joined in order.
pub open spec fn matched_pieces(bits: Seq<bool>, sizes: Seq<int>) -> Seq<bool>
    decreases sizes.len(),
{
    if sizes.len() == 0 {
        Seq::empty()
    } else {
        matched_pieces(bits, sizes.drop_last()) + after_matches(bits, sizes.drop_last()).take(
            sizes.last(),
        )
    }
}

/// Any number of successful matches, followed by what remains, tile the
/// input in order, with no gap and no overlap.
pub proof fn law_matches_tile_input(bits: Seq<bool>, sizes: Seq<int>)
    requires
        matches_fit(bits, sizes),
    ensures
        matched_pieces(bits, sizes) + after_matches(bits, sizes) == bits,
    decreases sizes.len(),
{
    if sizes.len() > 0 {
        let init = sizes.drop_last();
        law_matches_tile_input(bits, init);
        let r = after_matches(bits, init);
        let n = sizes.last();
        assert(r.take(n) + r.skip(n) =~= r);
        assert(matched_pieces(bits, sizes) + after_matches(bits, sizes) =~= matched_pieces(
            bits,
            init,
        ) + r);
    } else {
        assert(matched_pieces(bits, sizes) + after_matches(bits, sizes) =~= bits);
    }
}

/// Any integer written as its `S` bytes in a byte order, whatever follows,
/// is read back as itself in that byte order.
pub proof fn law_number_roundtrip<N: FromEndianBytes<S>, const S: usize>(
    x: N,
    order: Endianness,
    rest: Seq<u8>,
)
    requires
        order != Endianness::Native,
    ensures
        spec_read_number::<N, S>(bits_of(ordered_bytes(x.spec_unsigned(), S as nat, order) + rest), order)
            == Some(x),
{
    let enc = ordered_bytes(x.spec_unsigned(), S as nat, order);
    let bytes = enc + rest;
    N::lemma_bytes_roundtrip(x);
    lemma_be_bytes_value(x.spec_unsigned(), S as nat);
    lemma_le_bytes_value(x.spec_unsigned(), S as nat);
    law_read_number_of_slice::<N, S>(bytes, order);
    assert(bytes.take(S as int) =~= enc);
}

/// A big integer is read from the bytes that hold the first `n` bits: as
/// two's complement when signed, as a non-negative number otherwise, most
/// significant byte first when big-endian and least significant byte first
/// when little-endian; nothing is read when fewer than `n` bits remain.
pub proof fn law_read_bigint_by_sign_and_order(bits: Seq<bool>, n: int)
    ensures
        n <= bits.len() ==> {
            let bytes = bytes_of(bits.take(n));
            &&& spec_read_bigint(bits, n, false, Endianness::Big) == Some(
                bigint_from_unsigned_be(bytes),
            )
            &&& spec_read_bigint(bits, n, true, Endianness::Big) == Some(
                bigint_from_signed_be(bytes),
            )
            &&& spec_read_bigint(bits, n, false, Endianness::Little) == Some(
                bigint_from_unsigned_le(bytes),
            )
            &&& spec_read_bigint(bits, n, true, Endianness::Little) == Some(
                bigint_from_signed_le(bytes),
            )
        },
        n > bits.len() ==> forall|signed: bool, order: Endianness|
            #[trigger] spec_read_bigint(bits, n, signed, order) is None,
{
}

/// A little-endian arbitrary-size number is the little-endian reading of
/// the bytes that hold its bits (zero-padded to the type's size), shifted
/// right by the number of padding bits in the last of those bytes.
pub proof fn law_little_ap_number<N: FromEndianBytes<S>, const S: usize>(bits: Seq<bool>, n: int)
    requires
        0 <= n <= 8 * S,
        n <= bits.len(),
    ensures
        spec_read_ap_number::<N, S>(bits, n, Endianness::Little) == match spec_read_number::<N, S>(
            bits_of(ap_bytes(bits, n, S as int)),
            Endianness::Little,
        ) {
            Some(v) => Some(v.spec_shift_right((8 * bytes_needed(n) - n) as u32)),
            None => None,
        },
{
    let a = ap_bytes(bits, n, S as int);
    assert(bytes_of(bits.take(n)).len() == bytes_needed(n));
    assert(a.len() == S);
    lemma_bytes_of_bits_of(a);
    assert(bytes_of(bits_of(a)).take(S as int) =~= a);
    assert((8 - n % 8) % 8 == 8 * bytes_needed(n) - n);
}

/// Bit `t` of byte `kx` of `x` and bit `t` of byte `ky` of `y` are equal.
spec fn same_bit(x: Seq<bool>, kx: int, y: Seq<bool>, ky: int, t: int) -> bool {
    bit_value(x, 8 * kx + t) == bit_value(y, 8 * ky + t)
}

proof fn lemma_partial_byte_agree(x: Seq<bool>, kx: int, y: Seq<bool>, ky: int, j: nat)
    requires
        forall|t: int| 0 <= t < j ==> #[trigger] same_bit(x, kx, y, ky, t),
    ensures
        partial_byte(x, kx, j) == partial_byte(y, ky, j),
    decreases j,
{
    if j > 0 {
        lemma_partial_byte_agree(x, kx, y, ky, (j - 1) as nat);
        assert(same_bit(x, kx, y, ky, j - 1));
    }
}

/// The bytes of the bits of `data` followed by any bits are `data` followed
/// by the bytes of those bits.
pub proof fn lemma_bytes_of_concat(data: Seq<u8>, rest: Seq<bool>)
    ensures
        bytes_of(bits_of(data) + rest) == data + bytes_of(rest),
{
    let l = data.len() as int;
    let x = bits_of(data) + rest;
    let a = bytes_of(x);
    let b = data + bytes_of(rest);
    assert(bytes_needed(x.len() as int) == l + bytes_needed(rest.len() as int));
    assert forall|k: int| 0 <= k < a.len() implies #[trigger] a[k] == b[k] by {
        if k < l {
            assert forall|t: int| 0 <= t < 8 implies #[trigger] same_bit(
                x,
                k,
                bits_of(data),
                k,
                t,
            ) by {}
            lemma_partial_byte_agree(x, k, bits_of(data), k, 8);
            lemma_byte_at_bits_of(data, k);
        } else {
            assert forall|t: int| 0 <= t < 8 implies #[trigger] same_bit(x, k, rest, k - l, t) by {}
            lemma_partial_byte_agree(x, k, rest, k - l, 8);
        }
    }
    assert(a =~= b);
}

/// A char encoded in UTF-8 is matched back whole whatever bits follow its
/// encoding, a whole number of bytes or not.
pub proof fn law_utf8_roundtrip_bits(c: char, rest: Seq<bool>)
    ensures
        spec_match_utf8(bits_of(encode_scalar(c as u32)) + rest) == Some(
            (c, 8 * encode_scalar(c as u32).len() as int),
        ),
{
    let s = c as u32;
    let enc = encode_scalar(s);
    let chars = seq![c];
    char_is_scalar(c);
    encode_utf8_first_scalar(chars);
    assert(chars.drop_first() =~= Seq::<char>::empty());
    assert(encode_utf8(chars) =~= enc) by {
        reveal_with_fuel(encode_utf8, 2);
    }
    lemma_first_scalar_extends(enc, bytes_of(rest));
    lemma_bytes_of_concat(enc, rest);
    char_u32_cast(c, s);
}

} // verus!
