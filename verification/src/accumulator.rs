//! The accumulator descriptor: what the engine knows of a register that is
//! twice as wide as the words it sums.

use crate::model::{chunk_fits, is_max_chunk_size, register_max, triangle, words_within};
use vstd::arithmetic::power2::{lemma2_to64, pow2};
use vstd::prelude::*;

verus! {

/// An unsigned register of `2W` bits that accumulates words of `W` bits.
///
/// The three constants describe the width pair; the methods are the
/// operations that the engine performs on registers, each specified over the
/// number that the register holds.
pub trait FletcherAccumulator: Copy + Sized {
    /// The words that are summed, half as wide as the accumulator.
    type InputType: Copy;

    /// The most words that may be added between two reductions.
    const MAX_CHUNK_SIZE: usize;

    /// The largest word, `2^W - 1`: it selects the low half of a register
    /// and is the modulus of both sums.
    const BIT_MASK: Self;

    /// The word width `W`: the distance between the two halves of a register.
    const SHIFT_AMOUNT: u16;

    /// The number that a register holds.
    spec fn to_int(self) -> int;

    /// The number that a word holds.
    spec fn word_to_int(word: Self::InputType) -> int;

    /// The modulus of the two sums: the number that `BIT_MASK` holds.
    spec fn modulus() -> int;

    /// The constants belong together: the mask holds the modulus, which is
    /// `2^W - 1` for the shift amount `W`, and the chunk size is the longest
    /// that is safe.
    proof fn lemma_descriptor()
        ensures
            Self::BIT_MASK.to_int() == Self::modulus(),
            Self::modulus() + 1 == pow2(Self::SHIFT_AMOUNT as nat),
            is_max_chunk_size(Self::modulus(), Self::MAX_CHUNK_SIZE as int),
            chunk_fits(Self::modulus(), Self::MAX_CHUNK_SIZE as int),
    ;

    /// A register holds a number of `2W` bits.
    proof fn lemma_range(self)
        ensures
            0 <= self.to_int() <= register_max(Self::modulus()),
    ;

    /// A word holds a number of `W` bits.
    proof fn lemma_word_range(word: Self::InputType)
        ensures
            0 <= Self::word_to_int(word) <= Self::modulus(),
    ;

    /// The register that holds zero.
    fn zero() -> (r: Self)
        ensures
            r.to_int() == 0,
    ;

    /// Widens a word into a register; nothing is lost.
    fn widen(word: Self::InputType) -> (r: Self)
        ensures
            r.to_int() == Self::word_to_int(word),
    ;

    /// Narrows a register that holds no more than a word can.
    fn narrow(self) -> (word: Self::InputType)
        requires
            self.to_int() <= Self::modulus(),
        ensures
            Self::word_to_int(word) == self.to_int(),
    ;

    /// The sum of two registers, where it fits.
    fn plus(self, rhs: Self) -> (r: Self)
        requires
            self.to_int() + rhs.to_int() <= register_max(Self::modulus()),
        ensures
            r.to_int() == self.to_int() + rhs.to_int(),
    ;

    /// The difference of two registers, where it is not negative.
    fn minus(self, rhs: Self) -> (r: Self)
        requires
            rhs.to_int() <= self.to_int(),
        ensures
            r.to_int() == self.to_int() - rhs.to_int(),
    ;

    /// The low half of a register: the bits under `BIT_MASK`.
    fn low_half(self) -> (r: Self)
        ensures
            r.to_int() == self.to_int() % (Self::modulus() + 1),
    ;

    /// The high half of a register, moved down by `SHIFT_AMOUNT`.
    fn high_half(self) -> (r: Self)
        ensures
            r.to_int() == self.to_int() / (Self::modulus() + 1),
    ;

    /// Packs two word-sized values into one register: `lower` in the low
    /// half, `upper` moved up by `SHIFT_AMOUNT` into the high half.
    fn combine(lower: Self, upper: Self) -> (r: Self)
        requires
            lower.to_int() <= Self::modulus(),
            upper.to_int() <= Self::modulus(),
        ensures
            r.to_int() == lower.to_int() + upper.to_int() * (Self::modulus() + 1),
    ;

    /// Whether two registers hold the same number.
    fn equals(self, rhs: Self) -> (r: bool)
        ensures
            r == (self.to_int() == rhs.to_int()),
    ;
}

/// The numbers that a sequence of words holds.
pub open spec fn words<T: FletcherAccumulator>(data: Seq<T::InputType>) -> Seq<int> {
    Seq::new(data.len(), |i: int| T::word_to_int(data[i]))
}

/// The words of any input are at most the modulus.
pub proof fn lemma_words_within<T: FletcherAccumulator>(data: Seq<T::InputType>)
    ensures
        words_within(T::modulus(), words::<T>(data)),
{
    let input = words::<T>(data);
    assert forall|i: int| 0 <= i < input.len() implies 0 <= #[trigger] input[i]
        <= T::modulus() by {
        T::lemma_word_range(data[i]);
    }
}

/// Words of 8 bits in a register of 16.
impl FletcherAccumulator for u16 {
    type InputType = u8;

    const MAX_CHUNK_SIZE: usize = 21;

    const BIT_MASK: Self = 0x00ff;

    const SHIFT_AMOUNT: u16 = 8;

    open spec fn to_int(self) -> int {
        self as int
    }

    open spec fn word_to_int(word: u8) -> int {
        word as int
    }

    open spec fn modulus() -> int {
        0xff
    }

    proof fn lemma_descriptor() {
        lemma2_to64();
        lemma_register_max_u16();
        assert(triangle(21) == 231);
        assert(triangle(22) == 253);
        assert(0xffint * 231 == 58905);
        assert(0xffint * 253 == 64515);
    }

    proof fn lemma_range(self) {
        lemma_register_max_u16();
    }

    proof fn lemma_word_range(word: u8) {
    }

    fn zero() -> (r: u16) {
        0
    }

    fn widen(word: u8) -> (r: u16) {
        word as u16
    }

    fn narrow(self) -> (word: u8) {
        self as u8
    }

    fn plus(self, rhs: u16) -> (r: u16) {
        proof {
            lemma_register_max_u16();
        }
        self + rhs
    }

    fn minus(self, rhs: u16) -> (r: u16) {
        self - rhs
    }

    fn low_half(self) -> (r: u16) {
        assert(self & 0xff == self % 0x100) by (bit_vector);
        self & Self::BIT_MASK
    }

    fn high_half(self) -> (r: u16) {
        assert(self >> 8 == self / 0x100) by (bit_vector);
        self >> Self::SHIFT_AMOUNT
    }

    fn combine(lower: u16, upper: u16) -> (r: u16) {
        assert((lower | (upper << 8)) == lower + upper * 0x100) by (bit_vector)
            requires
                lower <= 0xff,
                upper <= 0xff,
        ;
        lower | (upper << Self::SHIFT_AMOUNT)
    }

    fn equals(self, rhs: u16) -> (r: bool) {
        self == rhs
    }
}

/// A register of 16 bits holds up to `0xffff`.
proof fn lemma_register_max_u16()
    ensures
        register_max(0xff) == 0xffff,
{
    assert(0xffint * 0xff == 0xfe01);
}

/// Words of 16 bits in a register of 32.
impl FletcherAccumulator for u32 {
    type InputType = u16;

    const MAX_CHUNK_SIZE: usize = 360;

    const BIT_MASK: Self = 0x0000_ffff;

    const SHIFT_AMOUNT: u16 = 16;

    open spec fn to_int(self) -> int {
        self as int
    }

    open spec fn word_to_int(word: u16) -> int {
        word as int
    }

    open spec fn modulus() -> int {
        0xffff
    }

    proof fn lemma_descriptor() {
        lemma2_to64();
        lemma_register_max_u32();
        assert(triangle(360) == 64980);
        assert(triangle(361) == 65341);
        assert(0xffffint * 64980 == 4258464300);
        assert(0xffffint * 65341 == 4282122435);
    }

    proof fn lemma_range(self) {
        lemma_register_max_u32();
    }

    proof fn lemma_word_range(word: u16) {
    }

    fn zero() -> (r: u32) {
        0
    }

    fn widen(word: u16) -> (r: u32) {
        word as u32
    }

    fn narrow(self) -> (word: u16) {
        self as u16
    }

    fn plus(self, rhs: u32) -> (r: u32) {
        proof {
            lemma_register_max_u32();
        }
        self + rhs
    }

    fn minus(self, rhs: u32) -> (r: u32) {
        self - rhs
    }

    fn low_half(self) -> (r: u32) {
        assert(self & 0xffff == self % 0x1_0000) by (bit_vector);
        self & Self::BIT_MASK
    }

    fn high_half(self) -> (r: u32) {
        assert(self >> 16 == self / 0x1_0000) by (bit_vector);
        self >> Self::SHIFT_AMOUNT
    }

    fn combine(lower: u32, upper: u32) -> (r: u32) {
        assert((lower | (upper << 16)) == lower + upper * 0x1_0000) by (bit_vector)
            requires
                lower <= 0xffff,
                upper <= 0xffff,
        ;
        lower | (upper << Self::SHIFT_AMOUNT)
    }

    fn equals(self, rhs: u32) -> (r: bool) {
        self == rhs
    }
}

/// A register of 32 bits holds up to `0xffff_ffff`.
proof fn lemma_register_max_u32()
    ensures
        register_max(0xffff) == 0xffff_ffff,
{
    assert(0xffffint * 0xffff == 0xfffe_0001);
}

/// Words of 32 bits in a register of 64.
impl FletcherAccumulator for u64 {
    type InputType = u32;

    const MAX_CHUNK_SIZE: usize = 92680;

    const BIT_MASK: Self = 0x0000_0000_ffff_ffff;

    const SHIFT_AMOUNT: u16 = 32;

    open spec fn to_int(self) -> int {
        self as int
    }

    open spec fn word_to_int(word: u32) -> int {
        word as int
    }

    open spec fn modulus() -> int {
        0xffff_ffff
    }

    proof fn lemma_descriptor() {
        lemma2_to64();
        lemma_register_max_u64();
        assert(triangle(92680) == 4294837540);
        assert(triangle(92681) == 4294930221);
        assert(0xffff_ffffint * 4294837540 == 18446186771638254300);
        assert(0xffff_ffffint * 4294930221 == 18446584833502122195);
    }

    proof fn lemma_range(self) {
        lemma_register_max_u64();
    }

    proof fn lemma_word_range(word: u32) {
    }

    fn zero() -> (r: u64) {
        0
    }

    fn widen(word: u32) -> (r: u64) {
        word as u64
    }

    fn narrow(self) -> (word: u32) {
        self as u32
    }

    fn plus(self, rhs: u64) -> (r: u64) {
        proof {
            lemma_register_max_u64();
        }
        self + rhs
    }

    fn minus(self, rhs: u64) -> (r: u64) {
        self - rhs
    }

    fn low_half(self) -> (r: u64) {
        assert(self & 0xffff_ffff == self % 0x1_0000_0000) by (bit_vector);
        self & Self::BIT_MASK
    }

    fn high_half(self) -> (r: u64) {
        assert(self >> 32 == self / 0x1_0000_0000) by (bit_vector);
        self >> Self::SHIFT_AMOUNT
    }

    fn combine(lower: u64, upper: u64) -> (r: u64) {
        assert((lower | (upper << 32)) == lower + upper * 0x1_0000_0000) by (bit_vector)
            requires
                lower <= 0xffff_ffff,
                upper <= 0xffff_ffff,
        ;
        lower | (upper << Self::SHIFT_AMOUNT)
    }

    fn equals(self, rhs: u64) -> (r: bool) {
        self == rhs
    }
}

/// A register of 64 bits holds up to `0xffff_ffff_ffff_ffff`.
proof fn lemma_register_max_u64()
    ensures
        register_max(0xffff_ffff) == 0xffff_ffff_ffff_ffff,
{
    assert(0xffff_ffffint * 0xffff_ffff == 0xffff_fffe_0000_0001);
}

} // verus!
