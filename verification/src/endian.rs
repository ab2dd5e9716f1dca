use vstd::arithmetic::div_mod::lemma_mod_breakdown;
use vstd::prelude::*;

verus! {

/// The byte order of a number in a binary.
#[derive(Clone, Copy, Debug, PartialEq, Eq, Structural)]
pub enum Endianness {
    /// The byte order of the machine the code runs on.
    Native,
    /// Most significant byte first.
    Big,
    /// Least significant byte first.
    Little,
}

impl Endianness {
    /// The concrete byte order (`Big` or `Little`) this stands for on the
    /// machine the code runs on.
    pub fn resolve(self) -> (r: Endianness)
        ensures
            r == Endianness::Big || r == Endianness::Little,
            self != Endianness::Native ==> r == self,
    {
        match self {
            Endianness::Native => native_endianness(),
            _ => self,
        }
    }
}

/// Calls `u16::from_ne_bytes`, which reads two bytes in the machine's own
/// byte order: the result is their big-endian or their little-endian value.
/// Which of the two depends on the machine, and is left unsaid.
#[verifier::external_body]
fn u16_from_ne_bytes(bytes: [u8; 2]) -> (r: u16)
    ensures
        r == be_value(bytes@) || r == le_value(bytes@),
{
    u16::from_ne_bytes(bytes)
}

/// The byte order that the bytes `[0, 1]` reveal when they read as
/// `probe` in the machine's own order: `Big` when it is 1, else `Little`.
pub open spec fn spec_order_of_probe(probe: u16) -> Endianness {
    if probe == 1 {
        Endianness::Big
    } else {
        Endianness::Little
    }
}

/// The byte order that the bytes `[0, 1]` reveal when they read as `probe`
/// in the machine's own order.
pub fn order_of_probe(probe: u16) -> (r: Endianness)
    ensures
        r == spec_order_of_probe(probe),
{
    if probe == 1 {
        Endianness::Big
    } else {
        Endianness::Little
    }
}

/// The byte order of the machine the code runs on: the order that the bytes
/// `[0, 1]`, read in the machine's own order, reveal (see [`order_of_probe`]).
/// Which of the two it is depends on the machine and is left unsaid.
pub fn native_endianness() -> (r: Endianness)
    ensures
        r == Endianness::Big || r == Endianness::Little,
{
    let probe = u16_from_ne_bytes([0u8, 1u8]);
    order_of_probe(probe)
}

/// The unsigned value of `bytes` read most significant byte first.
pub open spec fn be_value(bytes: Seq<u8>) -> nat
    decreases bytes.len(),
{
    if bytes.len() == 0 {
        0
    } else {
        be_value(bytes.drop_last()) * 256 + bytes.last() as nat
    }
}

/// The unsigned value of `bytes` read least significant byte first.
pub open spec fn le_value(bytes: Seq<u8>) -> nat
    decreases bytes.len(),
{
    if bytes.len() == 0 {
        0
    } else {
        bytes[0] as nat + 256 * le_value(bytes.drop_first())
    }
}

/// The `n` lowest bytes of `v`, most significant first.
pub open spec fn be_bytes(v: nat, n: nat) -> Seq<u8>
    decreases n,
{
    if n == 0 {
        Seq::empty()
    } else {
        be_bytes(v / 256, (n - 1) as nat).push((v % 256) as u8)
    }
}

/// The `n` lowest bytes of `v`, least significant first.
pub open spec fn le_bytes(v: nat, n: nat) -> Seq<u8>
    decreases n,
{
    if n == 0 {
        Seq::empty()
    } else {
        seq![(v % 256) as u8] + le_bytes(v / 256, (n - 1) as nat)
    }
}

/// The `n` lowest bytes of `v` in the concrete byte order `order`.
pub open spec fn ordered_bytes(v: nat, n: nat, order: Endianness) -> Seq<u8> {
    match order {
        Endianness::Little => le_bytes(v, n),
        _ => be_bytes(v, n),
    }
}

/// `256` to the power `n`.
pub open spec fn pow256(n: nat) -> nat
    decreases n,
{
    if n == 0 {
        1
    } else {
        256 * pow256((n - 1) as nat)
    }
}

pub proof fn lemma_pow256_monotone(m: nat, n: nat)
    requires
        m <= n,
    ensures
        pow256(m) <= pow256(n),
    decreases n,
{
    if m < n {
        lemma_pow256_monotone(m, (n - 1) as nat);
    }
}

pub proof fn lemma_be_value_bound(bytes: Seq<u8>)
    ensures
        be_value(bytes) < pow256(bytes.len()),
    decreases bytes.len(),
{
    if bytes.len() > 0 {
        lemma_be_value_bound(bytes.drop_last());
    }
}

pub proof fn lemma_le_value_bound(bytes: Seq<u8>)
    ensures
        le_value(bytes) < pow256(bytes.len()),
    decreases bytes.len(),
{
    if bytes.len() > 0 {
        lemma_le_value_bound(bytes.drop_first());
    }
}

pub proof fn lemma_be_bytes_value(v: nat, n: nat)
    ensures
        be_bytes(v, n).len() == n,
        be_value(be_bytes(v, n)) == v % pow256(n),
    decreases n,
{
    if n > 0 {
        let p = pow256((n - 1) as nat);
        lemma_be_bytes_value(v / 256, (n - 1) as nat);
        assert(be_bytes(v, n).drop_last() =~= be_bytes(v / 256, (n - 1) as nat));
        lemma_pow256_positive((n - 1) as nat);
        lemma_mod_breakdown(v as int, 256, p as int);
    }
}

pub proof fn lemma_le_bytes_value(v: nat, n: nat)
    ensures
        le_bytes(v, n).len() == n,
        le_value(le_bytes(v, n)) == v % pow256(n),
    decreases n,
{
    if n > 0 {
        let p = pow256((n - 1) as nat);
        lemma_le_bytes_value(v / 256, (n - 1) as nat);
        assert(le_bytes(v, n).drop_first() =~= le_bytes(v / 256, (n - 1) as nat));
        lemma_pow256_positive((n - 1) as nat);
        lemma_mod_breakdown(v as int, 256, p as int);
    }
}

pub proof fn lemma_pow256_positive(n: nat)
    ensures
        pow256(n) > 0,
    decreases n,
{
    if n > 0 {
        lemma_pow256_positive((n - 1) as nat);
    }
}

proof fn lemma_pow256_16()
    ensures
        pow256(16) == 0x1_0000_0000_0000_0000_0000_0000_0000_0000,
{
    reveal_with_fuel(pow256, 17);
}

/// The big-endian value of up to 16 bytes.
pub fn be_u128(bytes: &[u8]) -> (r: u128)
    requires
        bytes@.len() <= 16,
    ensures
        r == be_value(bytes@),
{
    let mut acc: u128 = 0;
    let mut i: usize = 0;
    while i < bytes.len()
        invariant
            i <= bytes@.len() <= 16,
            acc == be_value(bytes@.take(i as int)),
        decreases bytes@.len() - i,
    {
        proof {
            lemma_be_value_bound(bytes@.take(i as int));
            lemma_pow256_monotone((i + 1) as nat, 16);
            lemma_pow256_16();
            assert(bytes@.take(i + 1).drop_last() =~= bytes@.take(i as int));
        }
        acc = acc * 256 + bytes[i] as u128;
        i = i + 1;
    }
    assert(bytes@.take(i as int) =~= bytes@);
    acc
}

/// The little-endian value of up to 16 bytes.
pub fn le_u128(bytes: &[u8]) -> (r: u128)
    requires
        bytes@.len() <= 16,
    ensures
        r == le_value(bytes@),
{
    let mut acc: u128 = 0;
    let mut i: usize = bytes.len();
    assert(bytes@.subrange(i as int, bytes@.len() as int) =~= Seq::<u8>::empty());
    while i > 0
        invariant
            i <= bytes@.len() <= 16,
            acc == le_value(bytes@.subrange(i as int, bytes@.len() as int)),
        decreases i,
    {
        let ghost rest = bytes@.subrange(i as int, bytes@.len() as int);
        let ghost next = bytes@.subrange(i - 1, bytes@.len() as int);
        proof {
            lemma_le_value_bound(rest);
            lemma_pow256_monotone((rest.len() + 1) as nat, 16);
            lemma_pow256_16();
            assert(next.drop_first() =~= rest);
        }
        acc = acc * 256 + bytes[i - 1] as u128;
        i = i - 1;
    }
    assert(bytes@.subrange(0, bytes@.len() as int) =~= bytes@);
    acc
}

/// Reading bytes least significant first is reading them reversed most
/// significant first.
pub proof fn lemma_le_value_is_reversed_be_value(bytes: Seq<u8>)
    ensures
        le_value(bytes) == be_value(bytes.reverse()),
    decreases bytes.len(),
{
    if bytes.len() > 0 {
        lemma_le_value_is_reversed_be_value(bytes.drop_first());
        assert(bytes.reverse().drop_last() =~= bytes.drop_first().reverse());
        assert(bytes.reverse().last() == bytes[0]);
    }
}

/// A number that can be built from `S` bytes in either byte order.
pub trait FromEndianBytes<const S: usize>: Sized {
    /// The number whose big-endian bytes are `bytes`.
    spec fn spec_from_be_bytes(bytes: Seq<u8>) -> Self;

    /// The number whose little-endian bytes are `bytes`.
    spec fn spec_from_le_bytes(bytes: Seq<u8>) -> Self;

    /// The number that the unsigned value `v` gives, its bits beyond the
    /// type's width dropped.
    spec fn spec_from_u128(v: u128) -> Self;

    /// The number shifted right by `n` bits.
    spec fn spec_shift_right(self, n: u32) -> Self;

    /// Whether the type is a signed (two's complement) integer.
    spec fn spec_is_signed() -> bool;

    /// The number's `8 * S` bits read as an unsigned number.
    spec fn spec_unsigned(self) -> nat;

    /// The type is between 1 and 16 bytes wide.
    proof fn lemma_width()
        ensures
            1 <= S <= 16,
    ;

    /// The little-endian reading of some bytes is the big-endian reading of
    /// the same bytes reversed.
    proof fn lemma_le_is_reversed_be(bytes: Seq<u8>)
        ensures
            Self::spec_from_le_bytes(bytes) == Self::spec_from_be_bytes(bytes.reverse()),
    ;

    /// Writing a number's bits as `S` bytes, in either byte order, and
    /// reading them back in that order gives the number.
    proof fn lemma_bytes_roundtrip(x: Self)
        ensures
            x.spec_unsigned() < pow256(S as nat),
            Self::spec_from_be_bytes(be_bytes(x.spec_unsigned(), S as nat)) == x,
            Self::spec_from_le_bytes(le_bytes(x.spec_unsigned(), S as nat)) == x,
    ;

    /// Shifting right by no bits leaves a number as it is.
    proof fn lemma_shift_zero(x: Self)
        ensures
            x.spec_shift_right(0) == x,
    ;

    /// The big-endian reading of `S` bytes is the number their unsigned value
    /// gives.
    proof fn lemma_be_is_value(bytes: Seq<u8>)
        requires
            bytes.len() == S,
        ensures
            Self::spec_from_u128(be_value(bytes) as u128) == Self::spec_from_be_bytes(bytes),
    ;

    fn from_be_bytes(bytes: [u8; S]) -> (r: Self)
        ensures
            r == Self::spec_from_be_bytes(bytes@),
    ;

    fn from_le_bytes(bytes: [u8; S]) -> (r: Self)
        ensures
            r == Self::spec_from_le_bytes(bytes@),
    ;

    fn from_u128(v: u128) -> (r: Self)
        ensures
            r == Self::spec_from_u128(v),
    ;

    fn shift_right(self, n: u32) -> (r: Self)
        requires
            n < S * 8,
        ensures
            r == self.spec_shift_right(n),
    ;

    fn is_signed() -> (r: bool)
        ensures
            r == Self::spec_is_signed(),
    ;
}

impl FromEndianBytes<1> for u8 {
    open spec fn spec_from_be_bytes(bytes: Seq<u8>) -> u8 {
        be_value(bytes) as u8
    }

    open spec fn spec_from_le_bytes(bytes: Seq<u8>) -> u8 {
        le_value(bytes) as u8
    }

    open spec fn spec_from_u128(v: u128) -> u8 {
        v as u8
    }

    open spec fn spec_shift_right(self, n: u32) -> u8 {
        self >> n
    }

    open spec fn spec_unsigned(self) -> nat {
        self as u8 as nat
    }

    open spec fn spec_is_signed() -> bool {
        false
    }

    proof fn lemma_width() {
    }

    proof fn lemma_le_is_reversed_be(bytes: Seq<u8>) {
        lemma_le_value_is_reversed_be_value(bytes);
    }

    proof fn lemma_bytes_roundtrip(x: u8) {
        lemma_be_bytes_value(x.spec_unsigned(), 1);
        lemma_le_bytes_value(x.spec_unsigned(), 1);
        reveal_with_fuel(pow256, 2);
        assert(pow256(1) == 0x100) by {
            reveal_with_fuel(pow256, 2);
        }
    }

    proof fn lemma_shift_zero(x: u8) {
        assert(x >> 0u32 == x) by (bit_vector);
    }

    proof fn lemma_be_is_value(bytes: Seq<u8>) {
        lemma_be_value_bound(bytes);
        lemma_pow256_monotone(bytes.len(), 16);
        lemma_pow256_16();
    }

    fn from_be_bytes(bytes: [u8; 1]) -> (r: u8) {
        be_u128(bytes.as_slice()) as u8
    }

    fn from_le_bytes(bytes: [u8; 1]) -> (r: u8) {
        le_u128(bytes.as_slice()) as u8
    }

    fn from_u128(v: u128) -> (r: u8) {
        v as u8
    }

    fn shift_right(self, n: u32) -> (r: u8) {
        self >> n
    }

    fn is_signed() -> (r: bool) {
        false
    }
}

impl FromEndianBytes<2> for u16 {
    open spec fn spec_from_be_bytes(bytes: Seq<u8>) -> u16 {
        be_value(bytes) as u16
    }

    open spec fn spec_from_le_bytes(bytes: Seq<u8>) -> u16 {
        le_value(bytes) as u16
    }

    open spec fn spec_from_u128(v: u128) -> u16 {
        v as u16
    }

    open spec fn spec_shift_right(self, n: u32) -> u16 {
        self >> n
    }

    open spec fn spec_unsigned(self) -> nat {
        self as u16 as nat
    }

    open spec fn spec_is_signed() -> bool {
        false
    }

    proof fn lemma_width() {
    }

    proof fn lemma_le_is_reversed_be(bytes: Seq<u8>) {
        lemma_le_value_is_reversed_be_value(bytes);
    }

    proof fn lemma_bytes_roundtrip(x: u16) {
        lemma_be_bytes_value(x.spec_unsigned(), 2);
        lemma_le_bytes_value(x.spec_unsigned(), 2);
        reveal_with_fuel(pow256, 3);
        assert(pow256(2) == 0x10000) by {
            reveal_with_fuel(pow256, 3);
        }
    }

    proof fn lemma_shift_zero(x: u16) {
        assert(x >> 0u32 == x) by (bit_vector);
    }

    proof fn lemma_be_is_value(bytes: Seq<u8>) {
        lemma_be_value_bound(bytes);
        lemma_pow256_monotone(bytes.len(), 16);
        lemma_pow256_16();
    }

    fn from_be_bytes(bytes: [u8; 2]) -> (r: u16) {
        be_u128(bytes.as_slice()) as u16
    }

    fn from_le_bytes(bytes: [u8; 2]) -> (r: u16) {
        le_u128(bytes.as_slice()) as u16
    }

    fn from_u128(v: u128) -> (r: u16) {
        v as u16
    }

    fn shift_right(self, n: u32) -> (r: u16) {
        self >> n
    }

    fn is_signed() -> (r: bool) {
        false
    }
}

impl FromEndianBytes<4> for u32 {
    open spec fn spec_from_be_bytes(bytes: Seq<u8>) -> u32 {
        be_value(bytes) as u32
    }

    open spec fn spec_from_le_bytes(bytes: Seq<u8>) -> u32 {
        le_value(bytes) as u32
    }

    open spec fn spec_from_u128(v: u128) -> u32 {
        v as u32
    }

    open spec fn spec_shift_right(self, n: u32) -> u32 {
        self >> n
    }

    open spec fn spec_unsigned(self) -> nat {
        self as u32 as nat
    }

    open spec fn spec_is_signed() -> bool {
        false
    }

    proof fn lemma_width() {
    }

    proof fn lemma_le_is_reversed_be(bytes: Seq<u8>) {
        lemma_le_value_is_reversed_be_value(bytes);
    }

    proof fn lemma_bytes_roundtrip(x: u32) {
        lemma_be_bytes_value(x.spec_unsigned(), 4);
        lemma_le_bytes_value(x.spec_unsigned(), 4);
        reveal_with_fuel(pow256, 5);
        assert(pow256(4) == 0x100000000) by {
            reveal_with_fuel(pow256, 5);
        }
    }

    proof fn lemma_shift_zero(x: u32) {
        assert(x >> 0u32 == x) by (bit_vector);
    }

    proof fn lemma_be_is_value(bytes: Seq<u8>) {
        lemma_be_value_bound(bytes);
        lemma_pow256_monotone(bytes.len(), 16);
        lemma_pow256_16();
    }

    fn from_be_bytes(bytes: [u8; 4]) -> (r: u32) {
        be_u128(bytes.as_slice()) as u32
    }

    fn from_le_bytes(bytes: [u8; 4]) -> (r: u32) {
        le_u128(bytes.as_slice()) as u32
    }

    fn from_u128(v: u128) -> (r: u32) {
        v as u32
    }

    fn shift_right(self, n: u32) -> (r: u32) {
        self >> n
    }

    fn is_signed() -> (r: bool) {
        false
    }
}

impl FromEndianBytes<8> for u64 {
    open spec fn spec_from_be_bytes(bytes: Seq<u8>) -> u64 {
        be_value(bytes) as u64
    }

    open spec fn spec_from_le_bytes(bytes: Seq<u8>) -> u64 {
        le_value(bytes) as u64
    }

    open spec fn spec_from_u128(v: u128) -> u64 {
        v as u64
    }

    open spec fn spec_shift_right(self, n: u32) -> u64 {
        self >> n
    }

    open spec fn spec_unsigned(self) -> nat {
        self as u64 as nat
    }

    open spec fn spec_is_signed() -> bool {
        false
    }

    proof fn lemma_width() {
    }

    proof fn lemma_le_is_reversed_be(bytes: Seq<u8>) {
        lemma_le_value_is_reversed_be_value(bytes);
    }

    proof fn lemma_bytes_roundtrip(x: u64) {
        lemma_be_bytes_value(x.spec_unsigned(), 8);
        lemma_le_bytes_value(x.spec_unsigned(), 8);
        reveal_with_fuel(pow256, 9);
        assert(pow256(8) == 0x10000000000000000) by {
            reveal_with_fuel(pow256, 9);
        }
    }

    proof fn lemma_shift_zero(x: u64) {
        assert(x >> 0u32 == x) by (bit_vector);
    }

    proof fn lemma_be_is_value(bytes: Seq<u8>) {
        lemma_be_value_bound(bytes);
        lemma_pow256_monotone(bytes.len(), 16);
        lemma_pow256_16();
    }

    fn from_be_bytes(bytes: [u8; 8]) -> (r: u64) {
        be_u128(bytes.as_slice()) as u64
    }

    fn from_le_bytes(bytes: [u8; 8]) -> (r: u64) {
        le_u128(bytes.as_slice()) as u64
    }

    fn from_u128(v: u128) -> (r: u64) {
        v as u64
    }

    fn shift_right(self, n: u32) -> (r: u64) {
        self >> n
    }

    fn is_signed() -> (r: bool) {
        false
    }
}

impl FromEndianBytes<16> for u128 {
    open spec fn spec_from_be_bytes(bytes: Seq<u8>) -> u128 {
        be_value(bytes) as u128
    }

    open spec fn spec_from_le_bytes(bytes: Seq<u8>) -> u128 {
        le_value(bytes) as u128
    }

    open spec fn spec_from_u128(v: u128) -> u128 {
        v as u128
    }

    open spec fn spec_shift_right(self, n: u32) -> u128 {
        self >> n
    }

    open spec fn spec_unsigned(self) -> nat {
        self as u128 as nat
    }

    open spec fn spec_is_signed() -> bool {
        false
    }

    proof fn lemma_width() {
    }

    proof fn lemma_le_is_reversed_be(bytes: Seq<u8>) {
        lemma_le_value_is_reversed_be_value(bytes);
    }

    proof fn lemma_bytes_roundtrip(x: u128) {
        lemma_be_bytes_value(x.spec_unsigned(), 16);
        lemma_le_bytes_value(x.spec_unsigned(), 16);
        lemma_pow256_16();
        lemma_pow256_monotone(16, 16);
        assert(pow256(16) == 0x100000000000000000000000000000000) by {
            reveal_with_fuel(pow256, 17);
        }
    }

    proof fn lemma_shift_zero(x: u128) {
        assert(x >> 0u32 == x) by (bit_vector);
    }

    proof fn lemma_be_is_value(bytes: Seq<u8>) {
        lemma_be_value_bound(bytes);
        lemma_pow256_monotone(bytes.len(), 16);
        lemma_pow256_16();
    }

    fn from_be_bytes(bytes: [u8; 16]) -> (r: u128) {
        be_u128(bytes.as_slice()) as u128
    }

    fn from_le_bytes(bytes: [u8; 16]) -> (r: u128) {
        le_u128(bytes.as_slice()) as u128
    }

    fn from_u128(v: u128) -> (r: u128) {
        v as u128
    }

    fn shift_right(self, n: u32) -> (r: u128) {
        self >> n
    }

    fn is_signed() -> (r: bool) {
        false
    }
}

impl FromEndianBytes<1> for i8 {
    open spec fn spec_from_be_bytes(bytes: Seq<u8>) -> i8 {
        be_value(bytes) as i8
    }

    open spec fn spec_from_le_bytes(bytes: Seq<u8>) -> i8 {
        le_value(bytes) as i8
    }

    open spec fn spec_from_u128(v: u128) -> i8 {
        v as i8
    }

    open spec fn spec_shift_right(self, n: u32) -> i8 {
        self >> n
    }

    open spec fn spec_unsigned(self) -> nat {
        self as u8 as nat
    }

    open spec fn spec_is_signed() -> bool {
        true
    }

    proof fn lemma_width() {
    }

    proof fn lemma_le_is_reversed_be(bytes: Seq<u8>) {
        lemma_le_value_is_reversed_be_value(bytes);
    }

    proof fn lemma_bytes_roundtrip(x: i8) {
        lemma_be_bytes_value(x.spec_unsigned(), 1);
        lemma_le_bytes_value(x.spec_unsigned(), 1);
        reveal_with_fuel(pow256, 2);
        assert(pow256(1) == 0x100) by {
            reveal_with_fuel(pow256, 2);
        }
        assert(x as u8 as i8 == x) by (bit_vector);
    }

    proof fn lemma_shift_zero(x: i8) {
        assert(x >> 0u32 == x) by (bit_vector);
    }

    proof fn lemma_be_is_value(bytes: Seq<u8>) {
        lemma_be_value_bound(bytes);
        lemma_pow256_monotone(bytes.len(), 16);
        lemma_pow256_16();
    }

    fn from_be_bytes(bytes: [u8; 1]) -> (r: i8) {
        be_u128(bytes.as_slice()) as i8
    }

    fn from_le_bytes(bytes: [u8; 1]) -> (r: i8) {
        le_u128(bytes.as_slice()) as i8
    }

    fn from_u128(v: u128) -> (r: i8) {
        v as i8
    }

    fn shift_right(self, n: u32) -> (r: i8) {
        self >> n
    }

    fn is_signed() -> (r: bool) {
        true
    }
}

impl FromEndianBytes<2> for i16 {
    open spec fn spec_from_be_bytes(bytes: Seq<u8>) -> i16 {
        be_value(bytes) as i16
    }

    open spec fn spec_from_le_bytes(bytes: Seq<u8>) -> i16 {
        le_value(bytes) as i16
    }

    open spec fn spec_from_u128(v: u128) -> i16 {
        v as i16
    }

    open spec fn spec_shift_right(self, n: u32) -> i16 {
        self >> n
    }

    open spec fn spec_unsigned(self) -> nat {
        self as u16 as nat
    }

    open spec fn spec_is_signed() -> bool {
        true
    }

    proof fn lemma_width() {
    }

    proof fn lemma_le_is_reversed_be(bytes: Seq<u8>) {
        lemma_le_value_is_reversed_be_value(bytes);
    }

    proof fn lemma_bytes_roundtrip(x: i16) {
        lemma_be_bytes_value(x.spec_unsigned(), 2);
        lemma_le_bytes_value(x.spec_unsigned(), 2);
        reveal_with_fuel(pow256, 3);
        assert(pow256(2) == 0x10000) by {
            reveal_with_fuel(pow256, 3);
        }
        assert(x as u16 as i16 == x) by (bit_vector);
    }

    proof fn lemma_shift_zero(x: i16) {
        assert(x >> 0u32 == x) by (bit_vector);
    }

    proof fn lemma_be_is_value(bytes: Seq<u8>) {
        lemma_be_value_bound(bytes);
        lemma_pow256_monotone(bytes.len(), 16);
        lemma_pow256_16();
    }

    fn from_be_bytes(bytes: [u8; 2]) -> (r: i16) {
        be_u128(bytes.as_slice()) as i16
    }

    fn from_le_bytes(bytes: [u8; 2]) -> (r: i16) {
        le_u128(bytes.as_slice()) as i16
    }

    fn from_u128(v: u128) -> (r: i16) {
        v as i16
    }

    fn shift_right(self, n: u32) -> (r: i16) {
        self >> n
    }

    fn is_signed() -> (r: bool) {
        true
    }
}

impl FromEndianBytes<4> for i32 {
    open spec fn spec_from_be_bytes(bytes: Seq<u8>) -> i32 {
        be_value(bytes) as i32
    }

    open spec fn spec_from_le_bytes(bytes: Seq<u8>) -> i32 {
        le_value(bytes) as i32
    }

    open spec fn spec_from_u128(v: u128) -> i32 {
        v as i32
    }

    open spec fn spec_shift_right(self, n: u32) -> i32 {
        self >> n
    }

    open spec fn spec_unsigned(self) -> nat {
        self as u32 as nat
    }

    open spec fn spec_is_signed() -> bool {
        true
    }

    proof fn lemma_width() {
    }

    proof fn lemma_le_is_reversed_be(bytes: Seq<u8>) {
        lemma_le_value_is_reversed_be_value(bytes);
    }

    proof fn lemma_bytes_roundtrip(x: i32) {
        lemma_be_bytes_value(x.spec_unsigned(), 4);
        lemma_le_bytes_value(x.spec_unsigned(), 4);
        reveal_with_fuel(pow256, 5);
        assert(pow256(4) == 0x100000000) by {
            reveal_with_fuel(pow256, 5);
        }
        assert(x as u32 as i32 == x) by (bit_vector);
    }

    proof fn lemma_shift_zero(x: i32) {
        assert(x >> 0u32 == x) by (bit_vector);
    }

    proof fn lemma_be_is_value(bytes: Seq<u8>) {
        lemma_be_value_bound(bytes);
        lemma_pow256_monotone(bytes.len(), 16);
        lemma_pow256_16();
    }

    fn from_be_bytes(bytes: [u8; 4]) -> (r: i32) {
        be_u128(bytes.as_slice()) as i32
    }

    fn from_le_bytes(bytes: [u8; 4]) -> (r: i32) {
        le_u128(bytes.as_slice()) as i32
    }

    fn from_u128(v: u128) -> (r: i32) {
        v as i32
    }

    fn shift_right(self, n: u32) -> (r: i32) {
        self >> n
    }

    fn is_signed() -> (r: bool) {
        true
    }
}

impl FromEndianBytes<8> for i64 {
    open spec fn spec_from_be_bytes(bytes: Seq<u8>) -> i64 {
        be_value(bytes) as i64
    }

    open spec fn spec_from_le_bytes(bytes: Seq<u8>) -> i64 {
        le_value(bytes) as i64
    }

    open spec fn spec_from_u128(v: u128) -> i64 {
        v as i64
    }

    open spec fn spec_shift_right(self, n: u32) -> i64 {
        self >> n
    }

    open spec fn spec_unsigned(self) -> nat {
        self as u64 as nat
    }

    open spec fn spec_is_signed() -> bool {
        true
    }

    proof fn lemma_width() {
    }

    proof fn lemma_le_is_reversed_be(bytes: Seq<u8>) {
        lemma_le_value_is_reversed_be_value(bytes);
    }

    proof fn lemma_bytes_roundtrip(x: i64) {
        lemma_be_bytes_value(x.spec_unsigned(), 8);
        lemma_le_bytes_value(x.spec_unsigned(), 8);
        reveal_with_fuel(pow256, 9);
        assert(pow256(8) == 0x10000000000000000) by {
            reveal_with_fuel(pow256, 9);
        }
        assert(x as u64 as i64 == x) by (bit_vector);
    }

    proof fn lemma_shift_zero(x: i64) {
        assert(x >> 0u32 == x) by (bit_vector);
    }

    proof fn lemma_be_is_value(bytes: Seq<u8>) {
        lemma_be_value_bound(bytes);
        lemma_pow256_monotone(bytes.len(), 16);
        lemma_pow256_16();
    }

    fn from_be_bytes(bytes: [u8; 8]) -> (r: i64) {
        be_u128(bytes.as_slice()) as i64
    }

    fn from_le_bytes(bytes: [u8; 8]) -> (r: i64) {
        le_u128(bytes.as_slice()) as i64
    }

    fn from_u128(v: u128) -> (r: i64) {
        v as i64
    }

    fn shift_right(self, n: u32) -> (r: i64) {
        self >> n
    }

    fn is_signed() -> (r: bool) {
        true
    }
}

impl FromEndianBytes<16> for i128 {
    open spec fn spec_from_be_bytes(bytes: Seq<u8>) -> i128 {
        be_value(bytes) as i128
    }

    open spec fn spec_from_le_bytes(bytes: Seq<u8>) -> i128 {
        le_value(bytes) as i128
    }

    open spec fn spec_from_u128(v: u128) -> i128 {
        v as i128
    }

    open spec fn spec_shift_right(self, n: u32) -> i128 {
        self >> n
    }

    open spec fn spec_unsigned(self) -> nat {
        self as u128 as nat
    }

    open spec fn spec_is_signed() -> bool {
        true
    }

    proof fn lemma_width() {
    }

    proof fn lemma_le_is_reversed_be(bytes: Seq<u8>) {
        lemma_le_value_is_reversed_be_value(bytes);
    }

    proof fn lemma_bytes_roundtrip(x: i128) {
        lemma_be_bytes_value(x.spec_unsigned(), 16);
        lemma_le_bytes_value(x.spec_unsigned(), 16);
        lemma_pow256_16();
        lemma_pow256_monotone(16, 16);
        assert(pow256(16) == 0x100000000000000000000000000000000) by {
            reveal_with_fuel(pow256, 17);
        }
        assert(x as u128 as i128 == x) by (bit_vector);
    }

    proof fn lemma_shift_zero(x: i128) {
        assert(x >> 0u32 == x) by (bit_vector);
    }

    proof fn lemma_be_is_value(bytes: Seq<u8>) {
        lemma_be_value_bound(bytes);
        lemma_pow256_monotone(bytes.len(), 16);
        lemma_pow256_16();
    }

    fn from_be_bytes(bytes: [u8; 16]) -> (r: i128) {
        be_u128(bytes.as_slice()) as i128
    }

    fn from_le_bytes(bytes: [u8; 16]) -> (r: i128) {
        le_u128(bytes.as_slice()) as i128
    }

    fn from_u128(v: u128) -> (r: i128) {
        v as i128
    }

    fn shift_right(self, n: u32) -> (r: i128) {
        self >> n
    }

    fn is_signed() -> (r: bool) {
        true
    }
}

} // verus!
