use crate::bits::{bits_of, byte_at, bytes_needed, bytes_of, data_bit, drop_bits, get_byte_bit, lemma_partial_byte_bound, lemma_pow2_small, partial_byte, pow2};
use vstd::prelude::*;
use vstd::std_specs::cmp::PartialEqSpecImpl;

verus! {

/// Why a selection could not be made.
#[derive(Clone, Copy, Debug, PartialEq, Eq, Structural)]
pub enum SelectionError {
    /// The bit offset within the first selected byte is 8 or more.
    InvalidBitOffset,
    /// The count of significant bits in the last byte of the data is 0 or
    /// more than 8, or there is no last byte.
    InvalidTrailingBits,
    /// The requested bits reach past the end of the data.
    OutOfRange,
}

/// A window of `bit_size` bits over a byte slice, starting at an arbitrary bit.
///
/// Bits are numbered from the most significant bit of the first byte.
#[derive(Clone, Copy, Debug)]
pub struct Selection<'a> {
    data: &'a [u8],
    start: usize,
    bit_size: usize,
}

/// The number of bits that `len` bytes hold when only the `trailing` most
/// significant bits of the last byte count.
pub open spec fn capacity(len: nat, trailing: Option<u8>) -> int {
    match trailing {
        None => 8 * len as int,
        Some(t) => 8 * len as int - 8 + t as int,
    }
}

/// The error that [`Selection::new`] reports for its arguments, if any.
pub open spec fn selection_error(
    len: nat,
    byte_offset: int,
    bit_offset: int,
    trailing: Option<u8>,
    bit_size: int,
) -> Option<SelectionError> {
    if bit_offset >= 8 {
        Some(SelectionError::InvalidBitOffset)
    } else if trailing matches Some(t) && (t == 0 || t > 8 || len == 0) {
        Some(SelectionError::InvalidTrailingBits)
    } else if 8 * byte_offset + bit_offset + bit_size > capacity(len, trailing) {
        Some(SelectionError::OutOfRange)
    } else {
        None
    }
}

impl<'a> Selection<'a> {
    #[verifier::type_invariant]
    spec fn inv(self) -> bool {
        &&& self.start + self.bit_size <= self.data@.len() * 8
        &&& self.data@.len() * 8 <= usize::MAX
    }
}

impl<'a> View for Selection<'a> {
    type V = Seq<bool>;

    closed spec fn view(&self) -> Seq<bool> {
        bits_of(self.data@).subrange(self.start as int, self.start + self.bit_size)
    }
}

impl<'a> Selection<'a> {
    proof fn lemma_view(&self)
        requires
            self.inv(),
        ensures
            self@.len() == self.bit_size,
            forall|i: int|
                0 <= i < self.bit_size ==> #[trigger] self@[i] == data_bit(
                    self.data@,
                    self.start + i,
                ),
    {
    }

    /// Selects `bit_size` bits of `data`, starting `bit_offset` bits into
    /// byte `byte_offset`. Where `trailing_bits` is `Some(t)`, only the `t`
    /// most significant bits of the last byte of `data` can be selected.
    pub fn new(
        data: &'a [u8],
        byte_offset: usize,
        bit_offset: u8,
        trailing_bits: Option<u8>,
        bit_size: usize,
    ) -> (r: Result<Self, SelectionError>)
        requires
            data@.len() * 8 <= usize::MAX,
        ensures
            match r {
                Ok(s) => {
                    &&& selection_error(
                        data@.len(),
                        byte_offset as int,
                        bit_offset as int,
                        trailing_bits,
                        bit_size as int,
                    ) is None
                    &&& s@ == bits_of(data@).subrange(
                        8 * byte_offset + bit_offset,
                        8 * byte_offset + bit_offset + bit_size,
                    )
                },
                Err(e) => selection_error(
                    data@.len(),
                    byte_offset as int,
                    bit_offset as int,
                    trailing_bits,
                    bit_size as int,
                ) == Some(e),
            },
    {
        if bit_offset >= 8 {
            return Err(SelectionError::InvalidBitOffset);
        }
        let len = data.len();
        let cap: usize = match trailing_bits {
            None => len * 8,
            Some(t) => {
                if t == 0 || t > 8 || len == 0 {
                    return Err(SelectionError::InvalidTrailingBits);
                }
                len * 8 - 8 + t as usize
            },
        };
        if byte_offset > len {
            return Err(SelectionError::OutOfRange);
        }
        let base = byte_offset * 8;
        if base > cap || bit_offset as usize > cap - base || bit_size > cap - base
            - bit_offset as usize {
            return Err(SelectionError::OutOfRange);
        }
        let s = Selection { data, start: base + bit_offset as usize, bit_size };
        Ok(s)
    }

    /// Selects every bit of `data`.
    pub fn all(data: &'a [u8]) -> (r: Self)
        requires
            data@.len() * 8 <= usize::MAX,
        ensures
            r@ == bits_of(data@),
    {
        let r = Selection { data, start: 0, bit_size: data.len() * 8 };
        assert(r@ =~= bits_of(data@));
        r
    }

    /// The number of bits selected.
    pub fn bit_size(&self) -> (r: usize)
        ensures
            r == self@.len(),
    {
        proof {
            use_type_invariant(self);
        }
        self.bit_size
    }

    /// The number of bytes needed to hold the selected bits.
    pub fn byte_size(&self) -> (r: usize)
        ensures
            r == bytes_needed(self@.len() as int),
    {
        proof {
            use_type_invariant(self);
        }
        self.bit_size / 8 + if self.bit_size % 8 > 0 {
            1
        } else {
            0
        }
    }

    /// Whether the selection is a whole number of bytes.
    pub fn is_binary(&self) -> (r: bool)
        ensures
            r == (self@.len() % 8 == 0),
    {
        proof {
            use_type_invariant(self);
        }
        self.bit_size % 8 == 0
    }

    /// Bit `i` of the selection.
    pub fn get_bit(&self, i: usize) -> (r: bool)
        requires
            i < self@.len(),
        ensures
            r == self@[i as int],
    {
        proof {
            use_type_invariant(self);
            self.lemma_view();
        }
        let p = self.start + i;
        get_byte_bit(self.data[p / 8], (p % 8) as u8)
    }

    /// Byte `k` of the selection, or `None` past its end; a final partial
    /// byte is padded with zero bits.
    pub fn get(&self, k: usize) -> (r: Option<u8>)
        ensures
            r == if k < bytes_needed(self@.len() as int) {
                Some(byte_at(self@, k as int))
            } else {
                None::<u8>
            },
    {
        proof {
            use_type_invariant(self);
        }
        if k >= self.byte_size() {
            return None;
        }
        let rem = self.bit_size - 8 * k;
        let mut acc: u8 = 0;
        let mut j: usize = 0;
        while j < 8
            invariant
                j <= 8,
                k < bytes_needed(self@.len() as int),
                self@.len() <= usize::MAX,
                rem == self@.len() - 8 * k,
                acc == partial_byte(self@, k as int, j as nat),
            decreases 8 - j,
        {
            proof {
                lemma_partial_byte_bound(self@, k as int, j as nat);
                lemma_pow2_small();
                if j < 7 {
                    assert(pow2(j as nat) <= 64) by {
                        reveal_with_fuel(pow2, 8);
                    }
                } else {
                    assert(pow2(j as nat) == 128);
                }
            }
            let b = if j < rem {
                self.get_bit(8 * k + j)
            } else {
                false
            };
            acc = acc * 2 + if b {
                1
            } else {
                0
            };
            j = j + 1;
        }
        Some(acc)
    }

    /// The first `n` bits of the selection, or an error when it holds fewer.
    pub fn take(&self, n: usize) -> (r: Result<Self, SelectionError>)
        ensures
            match r {
                Ok(s) => n <= self@.len() && s@ == self@.take(n as int),
                Err(e) => n > self@.len() && e == SelectionError::OutOfRange,
            },
    {
        proof {
            use_type_invariant(self);
        }
        if n > self.bit_size {
            return Err(SelectionError::OutOfRange);
        }
        let s = Selection { data: self.data, start: self.start, bit_size: n };
        assert(s@ =~= self@.take(n as int));
        Ok(s)
    }

    /// The selection without its first `n` bits; empty when it holds fewer.
    pub fn shrink_front(&self, n: usize) -> (r: Self)
        ensures
            r@ == drop_bits(self@, n as int),
    {
        proof {
            use_type_invariant(self);
        }
        if n > self.bit_size {
            let s = Selection { data: self.data, start: self.start + self.bit_size, bit_size: 0 };
            assert(s@ =~= drop_bits(self@, n as int));
            s
        } else {
            let s = Selection {
                data: self.data,
                start: self.start + n,
                bit_size: self.bit_size - n,
            };
            assert(s@ =~= drop_bits(self@, n as int));
            s
        }
    }

    /// The selected bits as bytes; a final partial byte is padded with zero bits.
    pub fn to_bytes(&self) -> (r: Vec<u8>)
        ensures
            r@ == bytes_of(self@),
    {
        let n = self.byte_size();
        let mut out: Vec<u8> = Vec::new();
        let mut k: usize = 0;
        while k < n
            invariant
                k <= n,
                n == bytes_needed(self@.len() as int),
                out@ =~= bytes_of(self@).take(k as int),
            decreases n - k,
        {
            let b = self.get(k);
            match b {
                Some(v) => out.push(v),
                None => {},
            }
            k = k + 1;
        }
        out
    }
}

impl<'a> PartialEq for Selection<'a> {
    /// Two selections are equal when they hold the same bits.
    fn eq(&self, other: &Self) -> (r: bool) {
        let n = self.bit_size();
        if n != other.bit_size() {
            return false;
        }
        let mut i: usize = 0;
        while i < n
            invariant
                i <= n,
                n == self@.len(),
                n == other@.len(),
                forall|j: int| 0 <= j < i ==> self@[j] == other@[j],
            decreases n - i,
        {
            if self.get_bit(i) != other.get_bit(i) {
                return false;
            }
            i = i + 1;
        }
        assert(self@ =~= other@);
        true
    }
}

impl<'a> PartialEqSpecImpl for Selection<'a> {
    open spec fn obeys_eq_spec() -> bool {
        true
    }

    open spec fn eq_spec(&self, other: &Self) -> bool {
        self@ == other@
    }
}

impl<'a, 'b, const N: usize> PartialEq<&'b [u8; N]> for Selection<'a> {
    /// A selection equals a byte array when it holds exactly the array's bits.
    fn eq(&self, other: &&'b [u8; N]) -> (r: bool) {
        let n = self.bit_size();
        if n % 8 != 0 || n / 8 != N {
            return false;
        }
        let bytes: &[u8] = other.as_slice();
        let mut i: usize = 0;
        while i < n
            invariant
                i <= n,
                n == self@.len(),
                n == bytes@.len() * 8,
                bytes@ == other@,
                forall|j: int| 0 <= j < i ==> self@[j] == bits_of(bytes@)[j],
            decreases n - i,
        {
            if self.get_bit(i) != get_byte_bit(bytes[i / 8], (i % 8) as u8) {
                return false;
            }
            i = i + 1;
        }
        assert(self@ =~= bits_of(other@));
        true
    }
}

impl<'a, 'b, const N: usize> PartialEqSpecImpl<&'b [u8; N]> for Selection<'a> {
    open spec fn obeys_eq_spec() -> bool {
        true
    }

    open spec fn eq_spec(&self, other: &&'b [u8; N]) -> bool {
        self@ == bits_of(other@)
    }
}

} // verus!
