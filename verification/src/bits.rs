use vstd::prelude::*;

verus! {

/// Bit `j` (0 = most significant) of the byte `b`.
pub open spec fn byte_bit(b: u8, j: int) -> bool {
    (b >> ((7 - j) as u8)) & 1u8 == 1u8
}

/// Bit `p` of `data`, counting from the most significant bit of the first byte.
pub open spec fn data_bit(data: Seq<u8>, p: int) -> bool {
    byte_bit(data[p / 8], p % 8)
}

/// The bits of a byte sequence, most significant bit of each byte first.
pub open spec fn bits_of(data: Seq<u8>) -> Seq<bool> {
    Seq::new(data.len() * 8, |p: int| data_bit(data, p))
}

/// The numeric value (0 or 1) of bit `i`; a bit past the end counts as 0.
pub open spec fn bit_value(bits: Seq<bool>, i: int) -> int {
    if 0 <= i < bits.len() && bits[i] {
        1
    } else {
        0
    }
}

/// The number formed by the first `j` bits of byte `k` of `bits`.
pub open spec fn partial_byte(bits: Seq<bool>, k: int, j: nat) -> int
    decreases j,
{
    if j == 0 {
        0
    } else {
        2 * partial_byte(bits, k, (j - 1) as nat) + bit_value(bits, 8 * k + j - 1)
    }
}

/// Byte `k` of a bit sequence; a final partial byte is padded with zero bits.
pub open spec fn byte_at(bits: Seq<bool>, k: int) -> u8 {
    partial_byte(bits, k, 8) as u8
}

/// The number of bytes needed to hold `n` bits.
pub open spec fn bytes_needed(n: int) -> int {
    (n + 7) / 8
}

/// The bytes of a bit sequence; a final partial byte is padded with zero bits.
pub open spec fn bytes_of(bits: Seq<bool>) -> Seq<u8> {
    Seq::new(bytes_needed(bits.len() as int) as nat, |k: int| byte_at(bits, k))
}

/// The unsigned number whose binary digits, most significant first, are `bits`.
pub open spec fn bits_value(bits: Seq<bool>) -> nat
    decreases bits.len(),
{
    if bits.len() == 0 {
        0
    } else {
        bits_value(bits.drop_last()) * 2 + if bits.last() {
            1nat
        } else {
            0nat
        }
    }
}

/// The bit sequence with its first `n` bits removed, or the empty sequence
/// when it holds fewer than `n` bits.
pub open spec fn drop_bits(bits: Seq<bool>, n: int) -> Seq<bool> {
    if n <= bits.len() {
        bits.skip(n)
    } else {
        Seq::empty()
    }
}

/// `2` to the power `j`.
pub open spec fn pow2(j: nat) -> int
    decreases j,
{
    if j == 0 {
        1
    } else {
        2 * pow2((j - 1) as nat)
    }
}

pub proof fn lemma_partial_byte_bound(bits: Seq<bool>, k: int, j: nat)
    ensures
        0 <= partial_byte(bits, k, j) < pow2(j),
    decreases j,
{
    if j > 0 {
        lemma_partial_byte_bound(bits, k, (j - 1) as nat);
    }
}

pub proof fn lemma_pow2_small()
    ensures
        pow2(0) == 1,
        pow2(1) == 2,
        pow2(2) == 4,
        pow2(3) == 8,
        pow2(4) == 16,
        pow2(5) == 32,
        pow2(6) == 64,
        pow2(7) == 128,
        pow2(8) == 256,
{
    reveal_with_fuel(pow2, 9);
}

/// Reads bit `j` (0 = most significant) of the byte `b`.
pub fn get_byte_bit(b: u8, j: u8) -> (r: bool)
    requires
        j < 8,
    ensures
        r == byte_bit(b, j as int),
{
    (b >> (7 - j)) & 1u8 == 1u8
}

proof fn lemma_u8_from_bits(x: u8)
    by (bit_vector)
    ensures
        x == ((x >> 7u8) & 1u8) * 128 + ((x >> 6u8) & 1u8) * 64 + ((x >> 5u8) & 1u8) * 32 + ((x
            >> 4u8) & 1u8) * 16 + ((x >> 3u8) & 1u8) * 8 + ((x >> 2u8) & 1u8) * 4 + ((x >> 1u8)
            & 1u8) * 2 + ((x >> 0u8) & 1u8),
        (x >> 7u8) & 1u8 <= 1,
        (x >> 6u8) & 1u8 <= 1,
        (x >> 5u8) & 1u8 <= 1,
        (x >> 4u8) & 1u8 <= 1,
        (x >> 3u8) & 1u8 <= 1,
        (x >> 2u8) & 1u8 <= 1,
        (x >> 1u8) & 1u8 <= 1,
        (x >> 0u8) & 1u8 <= 1,
{
}

/// Byte `k` of the bits of `data` is `data[k]`.
pub proof fn lemma_byte_at_bits_of(data: Seq<u8>, k: int)
    requires
        0 <= k < data.len(),
    ensures
        byte_at(bits_of(data), k) == data[k],
{
    let bits = bits_of(data);
    let x = data[k];
    reveal_with_fuel(partial_byte, 9);
    lemma_u8_from_bits(x);
    assert forall|j: int| 0 <= j < 8 implies #[trigger] bit_value(bits, 8 * k + j) == ((x >> ((7
        - j) as u8)) & 1u8) by {
        assert((8 * k + j) / 8 == k);
        assert((8 * k + j) % 8 == j);
    }
    assert(bit_value(bits, 8 * k + 0) == ((x >> 7u8) & 1u8));
    assert(bit_value(bits, 8 * k + 1) == ((x >> 6u8) & 1u8));
    assert(bit_value(bits, 8 * k + 2) == ((x >> 5u8) & 1u8));
    assert(bit_value(bits, 8 * k + 3) == ((x >> 4u8) & 1u8));
    assert(bit_value(bits, 8 * k + 4) == ((x >> 3u8) & 1u8));
    assert(bit_value(bits, 8 * k + 5) == ((x >> 2u8) & 1u8));
    assert(bit_value(bits, 8 * k + 6) == ((x >> 1u8) & 1u8));
    assert(bit_value(bits, 8 * k + 7) == ((x >> 0u8) & 1u8));
}

/// Reading the bits of a byte sequence back as bytes gives the sequence itself.
pub proof fn lemma_bytes_of_bits_of(data: Seq<u8>)
    ensures
        bytes_of(bits_of(data)) == data,
{
    let b = bytes_of(bits_of(data));
    assert(bytes_needed((data.len() * 8) as int) == data.len());
    assert forall|k: int| 0 <= k < data.len() implies #[trigger] b[k] == data[k] by {
        lemma_byte_at_bits_of(data, k);
    }
    assert(b =~= data);
}

} // verus!
