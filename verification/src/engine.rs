//! The checksum engine: two accumulators, fed in chunks.

use crate::accumulator::{lemma_words_within, words, FletcherAccumulator};
use crate::laws::lemma_updated_canonical;
use crate::lemmas::{
    lemma_absorb_all_concat, lemma_accumulate_residues, lemma_chunk, lemma_fold_small,
    lemma_halves, lemma_two_words_fit,
};
use crate::model::{accumulate, check_pair, chunk_fits, fold, pack, updated, words_within, Sums};
use vstd::prelude::*;

verus! {

/// The state of a Fletcher checksum in progress.
///
/// Feed it words with [`Fletcher::update`], as often as needed, and read the
/// checksum at any time with [`Fletcher::value`].
#[derive(Debug)]
pub struct Fletcher<T: FletcherAccumulator> {
    a: T,
    b: T,
}

/// A 16-bit checksum over 8-bit words.
pub type Fletcher16 = Fletcher<u16>;

/// A 32-bit checksum over 16-bit words.
pub type Fletcher32 = Fletcher<u32>;

/// A 64-bit checksum over 32-bit words.
pub type Fletcher64 = Fletcher<u64>;

impl<T: FletcherAccumulator> Fletcher<T> {
    /// The two sums as numbers.
    pub closed spec fn view(&self) -> Sums {
        Sums { a: self.a.to_int(), b: self.b.to_int() }
    }

    /// Between calls both accumulators hold no more than a word can.
    #[verifier::type_invariant]
    pub open spec fn reduced(&self) -> bool {
        self@.within(T::modulus())
    }

    /// A checksum with both sums at their default, the largest word.
    pub fn new() -> (r: Self)
        ensures
            r@ == (Sums { a: T::modulus(), b: T::modulus() }),
    {
        proof {
            T::lemma_descriptor();
        }
        Fletcher { a: T::BIT_MASK, b: T::BIT_MASK }
    }

    /// A checksum that starts from the given sums.
    pub fn with_initial_values(a: T::InputType, b: T::InputType) -> (r: Self)
        ensures
            r@ == (Sums { a: T::word_to_int(a), b: T::word_to_int(b) }),
    {
        proof {
            T::lemma_word_range(a);
            T::lemma_word_range(b);
        }
        Fletcher { a: T::widen(a), b: T::widen(b) }
    }

    /// Feeds `data` to the checksum, word by word in order.
    ///
    /// The words are added in chunks of at most `MAX_CHUNK_SIZE` with one
    /// reduction per chunk; the sums that result are those of reducing after
    /// every single addition.
    pub fn update(&mut self, data: &[T::InputType])
        ensures
            final(self)@ == updated(T::modulus(), old(self)@, words::<T>(data@)),
            final(self)@.canonical(T::modulus()),
    {
        let ghost m: int = T::modulus();
        let ghost n: int = T::MAX_CHUNK_SIZE as int;
        let ghost input = words::<T>(data@);
        let ghost s0 = self@;
        proof {
            use_type_invariant(&*self);
            T::lemma_descriptor();
            lemma_words_within::<T>(data@);
            lemma_updated_canonical(m, s0, input);
            assert(input.subrange(0, 0) =~= Seq::<int>::empty());
        }
        let mut a = self.a;
        let mut b = self.b;
        let mut start: usize = 0;
        while start < data.len()
            invariant
                start <= data.len(),
                m == T::modulus(),
                n == T::MAX_CHUNK_SIZE,
                input == words::<T>(data@),
                chunk_fits(m, n),
                words_within(m, input),
                0 <= a.to_int() <= m + n,
                0 <= b.to_int() <= 2 * m,
                (Sums { a: a.to_int(), b: b.to_int() }).residues(m) == updated(
                    m,
                    s0,
                    input.subrange(0, start as int),
                ),
            decreases data.len() - start,
        {
            let remaining: usize = data.len() - start;
            let len: usize = if remaining < T::MAX_CHUNK_SIZE {
                remaining
            } else {
                T::MAX_CHUNK_SIZE
            };
            let end: usize = start + len;
            let ghost before = Sums { a: a.to_int(), b: b.to_int() };
            let mut intermediate_a = a;
            let mut intermediate_b = b;
            let mut i: usize = start;
            proof {
                assert(input.subrange(start as int, start as int) =~= Seq::<int>::empty());
            }
            while i < end
                invariant
                    start <= i <= end <= data.len(),
                    end - start <= n,
                    m == T::modulus(),
                    input == words::<T>(data@),
                    chunk_fits(m, n),
                    words_within(m, input),
                    0 <= before.a <= m + n,
                    0 <= before.b <= 2 * m,
                    (Sums { a: intermediate_a.to_int(), b: intermediate_b.to_int() })
                        == accumulate(before, input.subrange(start as int, i as int)),
                decreases end - i,
            {
                proof {
                    let next = input.subrange(start as int, i + 1);
                    assert(next.drop_last() =~= input.subrange(start as int, i as int));
                    assert(next.last() == T::word_to_int(data@[i as int]));
                    lemma_chunk(m, n, before, next);
                }
                intermediate_a = intermediate_a.plus(T::widen(data[i]));
                intermediate_b = intermediate_b.plus(intermediate_a);
                i += 1;
            }
            a = Self::reduce(intermediate_a);
            b = Self::reduce(intermediate_b);
            proof {
                let chunk = input.subrange(start as int, end as int);
                let done = input.subrange(0, start as int);
                lemma_chunk(m, n, before, chunk);
                lemma_accumulate_residues(m, before, chunk);
                lemma_absorb_all_concat(m, s0.residues(m), done, chunk);
                assert(done + chunk =~= input.subrange(0, end as int));
            }
            start = end;
        }
        proof {
            assert(input.subrange(0, start as int) =~= input);
            lemma_fold_small(m, a.to_int());
            lemma_fold_small(m, b.to_int());
        }
        // The folds above may leave `a` and `b` one step short of their
        // least residues.
        self.a = Self::reduce(a);
        self.b = Self::reduce(b);
    }

    /// The checksum of the words fed so far: `a` in the low half, `b` in the
    /// high half.
    pub fn value(&self) -> (r: T)
        ensures
            r.to_int() == pack(T::modulus(), self@),
    {
        proof {
            use_type_invariant(self);
        }
        T::combine(self.a, self.b)
    }

    /// The two words that, fed next, bring the checksum to zero.
    pub fn check_values(&self) -> (r: [T::InputType; 2])
        ensures
            T::word_to_int(r[0]) == check_pair(T::modulus(), self@).0,
            T::word_to_int(r[1]) == check_pair(T::modulus(), self@).1,
    {
        let ghost m: int = T::modulus();
        proof {
            use_type_invariant(self);
            T::lemma_descriptor();
            lemma_two_words_fit(m);
            lemma_fold_small(m, self.a.to_int() + self.b.to_int());
        }
        let checksum_a = T::BIT_MASK.minus(Self::reduce(self.a.plus(self.b)));
        proof {
            lemma_fold_small(m, self.a.to_int() + checksum_a.to_int());
        }
        let checksum_b = T::BIT_MASK.minus(Self::reduce(self.a.plus(checksum_a)));
        [checksum_a.narrow(), checksum_b.narrow()]
    }

    /// Folds the high half of `value` onto its low half; a result of
    /// exactly `BIT_MASK`, the other zero of one's-complement arithmetic,
    /// becomes `0`.
    fn reduce(value: T) -> (r: T)
        ensures
            r.to_int() == fold(T::modulus(), value.to_int()),
    {
        let ghost m: int = T::modulus();
        proof {
            T::lemma_descriptor();
            value.lemma_range();
            lemma_halves(m, value.to_int());
            lemma_two_words_fit(m);
        }
        let lhs = value.low_half();
        let rhs = value.high_half();
        let result = lhs.plus(rhs);
        if result.equals(T::BIT_MASK) {
            T::zero()
        } else {
            result
        }
    }
}

impl<T: FletcherAccumulator> Clone for Fletcher<T> {
    fn clone(&self) -> (r: Self)
        ensures
            r == *self,
    {
        *self
    }
}

impl<T: FletcherAccumulator> Copy for Fletcher<T> {

}

impl<T: FletcherAccumulator> Default for Fletcher<T> {
    fn default() -> (r: Self)
        ensures
            r@ == (Sums { a: T::modulus(), b: T::modulus() }),
    {
        Self::new()
    }
}

} // verus!
