//! A byte buffer that can be read as a buffer of wider integer words.

use crate::codec::pow256;
use vstd::prelude::*;

verus! {

/// The number whose base-256 digits, least significant first, are `bytes`.
pub open spec fn le_value(bytes: Seq<u8>) -> nat
    decreases bytes.len(),
{
    if bytes.len() == 0 {
        0
    } else {
        bytes[0] as nat + 256 * le_value(bytes.drop_first())
    }
}

/// A number written on `n` digits is less than 256 to the power `n`.
pub proof fn lemma_le_value_bound(bytes: Seq<u8>)
    ensures
        le_value(bytes) < pow256(bytes.len()),
    decreases bytes.len(),
{
    if bytes.len() > 0 {
        lemma_le_value_bound(bytes.drop_first());
    }
}

proof fn lemma_pow256_up_to_16(n: nat)
    requires
        n <= 16,
    ensures
        pow256(n) <= 0x1_0000_0000_0000_0000_0000_0000_0000_0000,
        n <= 15 ==> pow256(n) <= 0x100_0000_0000_0000_0000_0000_0000_0000,
        pow256(1) == 0x100,
        pow256(2) == 0x1_0000,
        pow256(4) == 0x1_0000_0000,
        pow256(8) == 0x1_0000_0000_0000_0000,
        pow256(16) == 0x1_0000_0000_0000_0000_0000_0000_0000_0000,
{
    reveal_with_fuel(pow256, 17);
}

/// Reads the number that `width` bytes of `bytes` from `at` on stand for,
/// least significant byte first.
pub fn read_le(bytes: &[u8], at: usize, width: usize) -> (value: u128)
    requires
        width <= 16,
        at + width <= bytes@.len(),
    ensures
        value == le_value(bytes@.subrange(at as int, at + width)),
{
    let mut value: u128 = 0;
    let mut i: usize = 0;
    assert(bytes@.subrange(at + width, at + width).len() == 0);
    while i < width
        invariant
            i <= width <= 16,
            at + width <= bytes.len(),
            value == le_value(bytes@.subrange(at + width - i, at + width)),
        decreases width - i,
    {
        proof {
            let read = bytes@.subrange(at + width - i, at + width);
            let next = bytes@.subrange(at + width - i - 1, at + width);
            lemma_le_value_bound(read);
            lemma_pow256_up_to_16(i as nat);
            assert(next.drop_first() =~= read);
            assert(next[0] == bytes@[at + width - i - 1]);
        }
        value = value * 256 + bytes[at + width - i - 1] as u128;
        i += 1;
    }
    value
}

/// An integer type that a buffer can be read as.
pub trait Word: Sized + Copy {
    /// Number of bytes of one word.
    spec fn byte_width() -> nat;

    /// The word that `bytes` stand for, least significant byte first; for a
    /// signed type, in two's complement.
    spec fn from_le(bytes: Seq<u8>) -> Self;

    /// Number of bytes of one word.
    fn width() -> (width: usize)
        ensures
            width == Self::byte_width(),
            1 <= width <= 16,
    ;

    /// Reads the word that stands at `at` in `bytes`.
    fn read(bytes: &[u8], at: usize) -> (word: Self)
        requires
            at + Self::byte_width() <= bytes@.len(),
        ensures
            word == Self::from_le(bytes@.subrange(at as int, at + Self::byte_width())),
    ;
}

impl Word for u8 {
    open spec fn byte_width() -> nat {
        1
    }

    open spec fn from_le(bytes: Seq<u8>) -> u8 {
        le_value(bytes) as u8
    }

    fn width() -> (width: usize) {
        1
    }

    fn read(bytes: &[u8], at: usize) -> (word: u8) {
        let value = read_le(bytes, at, 1);
        proof {
            lemma_le_value_bound(bytes@.subrange(at as int, at + 1));
            lemma_pow256_up_to_16(1);
        }
        value as u8
    }
}

impl Word for u16 {
    open spec fn byte_width() -> nat {
        2
    }

    open spec fn from_le(bytes: Seq<u8>) -> u16 {
        le_value(bytes) as u16
    }

    fn width() -> (width: usize) {
        2
    }

    fn read(bytes: &[u8], at: usize) -> (word: u16) {
        let value = read_le(bytes, at, 2);
        proof {
            lemma_le_value_bound(bytes@.subrange(at as int, at + 2));
            lemma_pow256_up_to_16(2);
        }
        value as u16
    }
}

impl Word for u32 {
    open spec fn byte_width() -> nat {
        4
    }

    open spec fn from_le(bytes: Seq<u8>) -> u32 {
        le_value(bytes) as u32
    }

    fn width() -> (width: usize) {
        4
    }

    fn read(bytes: &[u8], at: usize) -> (word: u32) {
        let value = read_le(bytes, at, 4);
        proof {
            lemma_le_value_bound(bytes@.subrange(at as int, at + 4));
            lemma_pow256_up_to_16(4);
        }
        value as u32
    }
}

impl Word for u64 {
    open spec fn byte_width() -> nat {
        8
    }

    open spec fn from_le(bytes: Seq<u8>) -> u64 {
        le_value(bytes) as u64
    }

    fn width() -> (width: usize) {
        8
    }

    fn read(bytes: &[u8], at: usize) -> (word: u64) {
        let value = read_le(bytes, at, 8);
        proof {
            lemma_le_value_bound(bytes@.subrange(at as int, at + 8));
            lemma_pow256_up_to_16(8);
        }
        value as u64
    }
}

impl Word for u128 {
    open spec fn byte_width() -> nat {
        16
    }

    open spec fn from_le(bytes: Seq<u8>) -> u128 {
        le_value(bytes) as u128
    }

    fn width() -> (width: usize) {
        16
    }

    fn read(bytes: &[u8], at: usize) -> (word: u128) {
        let value = read_le(bytes, at, 16);
        proof {
            lemma_le_value_bound(bytes@.subrange(at as int, at + 16));
            lemma_pow256_up_to_16(16);
        }
        value as u128
    }
}

impl Word for usize {
    open spec fn byte_width() -> nat {
        (usize::BITS / 8) as nat
    }

    open spec fn from_le(bytes: Seq<u8>) -> usize {
        le_value(bytes) as usize
    }

    fn width() -> (width: usize) {
        (usize::BITS / 8) as usize
    }

    fn read(bytes: &[u8], at: usize) -> (word: usize) {
        let width = (usize::BITS / 8) as usize;
        let value = read_le(bytes, at, width);
        proof {
            lemma_le_value_bound(bytes@.subrange(at as int, at + width));
            lemma_pow256_up_to_16(width as nat);
        }
        value as usize
    }
}

impl Word for i8 {
    open spec fn byte_width() -> nat {
        1
    }

    open spec fn from_le(bytes: Seq<u8>) -> i8 {
        <u8 as Word>::from_le(bytes) as i8
    }

    fn width() -> (width: usize) {
        1
    }

    fn read(bytes: &[u8], at: usize) -> (word: i8) {
        let unsigned = <u8 as Word>::read(bytes, at);
        #[verifier::truncate]
        (unsigned as i8)
    }
}

impl Word for i16 {
    open spec fn byte_width() -> nat {
        2
    }

    open spec fn from_le(bytes: Seq<u8>) -> i16 {
        <u16 as Word>::from_le(bytes) as i16
    }

    fn width() -> (width: usize) {
        2
    }

    fn read(bytes: &[u8], at: usize) -> (word: i16) {
        let unsigned = <u16 as Word>::read(bytes, at);
        #[verifier::truncate]
        (unsigned as i16)
    }
}

impl Word for i32 {
    open spec fn byte_width() -> nat {
        4
    }

    open spec fn from_le(bytes: Seq<u8>) -> i32 {
        <u32 as Word>::from_le(bytes) as i32
    }

    fn width() -> (width: usize) {
        4
    }

    fn read(bytes: &[u8], at: usize) -> (word: i32) {
        let unsigned = <u32 as Word>::read(bytes, at);
        #[verifier::truncate]
        (unsigned as i32)
    }
}

impl Word for i64 {
    open spec fn byte_width() -> nat {
        8
    }

    open spec fn from_le(bytes: Seq<u8>) -> i64 {
        <u64 as Word>::from_le(bytes) as i64
    }

    fn width() -> (width: usize) {
        8
    }

    fn read(bytes: &[u8], at: usize) -> (word: i64) {
        let unsigned = <u64 as Word>::read(bytes, at);
        #[verifier::truncate]
        (unsigned as i64)
    }
}

impl Word for i128 {
    open spec fn byte_width() -> nat {
        16
    }

    open spec fn from_le(bytes: Seq<u8>) -> i128 {
        <u128 as Word>::from_le(bytes) as i128
    }

    fn width() -> (width: usize) {
        16
    }

    fn read(bytes: &[u8], at: usize) -> (word: i128) {
        let unsigned = <u128 as Word>::read(bytes, at);
        #[verifier::truncate]
        (unsigned as i128)
    }
}

impl Word for isize {
    open spec fn byte_width() -> nat {
        (usize::BITS / 8) as nat
    }

    open spec fn from_le(bytes: Seq<u8>) -> isize {
        <usize as Word>::from_le(bytes) as isize
    }

    fn width() -> (width: usize) {
        (usize::BITS / 8) as usize
    }

    fn read(bytes: &[u8], at: usize) -> (word: isize) {
        let unsigned = <usize as Word>::read(bytes, at);
        #[verifier::truncate]
        (unsigned as isize)
    }
}

/// A buffer of `SIZE` bytes that starts at a 16-byte boundary in memory, so
/// that it can stand for a buffer of any wider integer type as well.
#[derive(Clone, Eq, PartialEq, Debug, Hash)]
pub struct AlignedBuffer<const SIZE: usize> {
    /// Holds nothing; a `u128` is aligned to 16 bytes, and with it the buffer.
    align: [u128; 0],
    bytes: [u8; SIZE],
}

impl<const SIZE: usize> View for AlignedBuffer<SIZE> {
    type V = Seq<u8>;

    closed spec fn view(&self) -> Seq<u8> {
        self.bytes@
    }
}

impl<const SIZE: usize> AlignedBuffer<SIZE> {
    /// A buffer of `SIZE` zero bytes; `SIZE` is a multiple of 16.
    pub fn new() -> (buffer: Self)
        requires
            SIZE % 16 == 0,
        ensures
            buffer@.len() == SIZE,
            forall|i: int| 0 <= i < SIZE ==> buffer@[i] == 0,
    {
        AlignedBuffer { align: [], bytes: [0u8; SIZE] }
    }

    /// The bytes of the buffer.
    pub fn as_slice(&self) -> (bytes: &[u8])
        ensures
            bytes@ == self@,
    {
        self.bytes.as_slice()
    }

    /// The bytes of the buffer, to be written to.
    pub fn as_mut_slice(&mut self) -> (bytes: &mut [u8])
        ensures
            bytes@ == old(self)@,
            final(bytes)@ == final(self)@,
    {
        &mut self.bytes
    }

    /// The buffer read as words of type `T`, least significant byte first:
    /// as many words as fit, each from the bytes at its place.
    pub fn view_as<T: Word>(&self) -> (words: Vec<T>)
        ensures
            words@.len() == SIZE as int / T::byte_width() as int,
            forall|i: int|
                0 <= i < words@.len() ==> #[trigger] words@[i] == T::from_le(
                    self@.subrange(i * T::byte_width(), i * T::byte_width() + T::byte_width()),
                ),
    {
        let width = T::width();
        let count = SIZE / width;
        let bytes = self.bytes.as_slice();
        let mut words: Vec<T> = Vec::new();
        let mut i: usize = 0;
        let mut at: usize = 0;
        assert(count * width <= SIZE) by (nonlinear_arith)
            requires
                count == SIZE / width,
                width > 0,
        ;
        while i < count
            invariant
                width == T::byte_width(),
                1 <= width,
                count * width <= SIZE,
                bytes@ == self@,
                bytes@.len() == SIZE,
                i <= count,
                at == i * width,
                words@.len() == i,
                forall|j: int|
                    0 <= j < i ==> #[trigger] words@[j] == T::from_le(
                        self@.subrange(j * T::byte_width(), j * T::byte_width() + T::byte_width()),
                    ),
            decreases count - i,
        {
            assert((i + 1) * width <= count * width && (i + 1) * width == i * width + width)
                by (nonlinear_arith)
                requires
                    i < count,
                    width > 0,
            ;
            words.push(T::read(bytes, at));
            at = at + width;
            i += 1;
        }
        words
    }
}

} // verus!
