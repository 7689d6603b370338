//! The mathematics of Fletcher checksums.
//!
//! A Fletcher checksum over words of `W` bits keeps two sums modulo
//! `m = 2^W - 1`: `a`, the sum of the words, and `b`, the sum of the values
//! that `a` took after each word. Everything here is stated over unbounded
//! integers and over an arbitrary modulus `m >= 1`; the executable engine is
//! specified against these definitions.

use vstd::prelude::*;

verus! {

/// The two running sums of a Fletcher checksum.
pub struct Sums {
    /// Sum of the words seen so far.
    pub a: int,
    /// Sum of the values that `a` has taken.
    pub b: int,
}

impl Sums {
    /// Both sums fit in a word: they lie in `[0, m]`.
    pub open spec fn within(self, m: int) -> bool {
        0 <= self.a <= m && 0 <= self.b <= m
    }

    /// Both sums are least residues: they lie in `[0, m)`.
    pub open spec fn canonical(self, m: int) -> bool {
        0 <= self.a < m && 0 <= self.b < m
    }

    /// The least residues of both sums modulo `m`.
    pub open spec fn residues(self, m: int) -> Sums {
        Sums { a: self.a % m, b: self.b % m }
    }
}

/// The sums that stand for an empty input.
pub open spec fn zero_sums() -> Sums {
    Sums { a: 0, b: 0 }
}

/// One step of the one-word-at-a-time algorithm: add the word to `a`, add
/// the new `a` to `b`, and reduce each sum modulo `m` right away.
pub open spec fn absorb(m: int, s: Sums, word: int) -> Sums {
    let a = (s.a + word) % m;
    Sums { a, b: (s.b + a) % m }
}

/// The one-word-at-a-time algorithm over a whole input, left to right.
pub open spec fn absorb_all(m: int, s: Sums, words: Seq<int>) -> Sums
    decreases words.len(),
{
    if words.len() == 0 {
        s
    } else {
        absorb(m, absorb_all(m, s, words.drop_last()), words.last())
    }
}

/// The sums after `words` are fed to a checksum whose sums are `s`: the
/// least residues of `s`, then one word at a time.
pub open spec fn updated(m: int, s: Sums, words: Seq<int>) -> Sums {
    absorb_all(m, s.residues(m), words)
}

/// The sums of an input processed from the start.
pub open spec fn fletcher(m: int, words: Seq<int>) -> Sums {
    absorb_all(m, zero_sums(), words)
}

/// The checksum word that holds `s`: `a` in the low half, `b` in the high half.
pub open spec fn pack(m: int, s: Sums) -> int {
    s.a + s.b * (m + 1)
}

/// The sums that a checksum word holds, half by half.
pub open spec fn unpack(m: int, checksum: int) -> Sums {
    Sums { a: checksum % (m + 1), b: checksum / (m + 1) }
}

/// The checksum of an input processed from the start.
pub open spec fn checksum(m: int, words: Seq<int>) -> int {
    pack(m, fletcher(m, words))
}

/// The two words that, fed after the input that led to `s`, bring both sums
/// to zero.
pub open spec fn check_pair(m: int, s: Sums) -> (int, int) {
    let c1 = m - (s.a + s.b) % m;
    let c2 = m - (s.a + c1) % m;
    (c1, c2)
}

/// The one's-complement fold of a register value `v`: the low half plus the
/// high half, where a result of exactly `m` (one's-complement zero) counts
/// as `0`.
pub open spec fn fold(m: int, v: int) -> int {
    let r = v % (m + 1) + v / (m + 1);
    if r == m {
        0
    } else {
        r
    }
}

/// One step of the algorithm as it is run on registers: each addition is
/// followed by a fold.
pub open spec fn textbook_step(m: int, s: Sums, word: int) -> Sums {
    let a = fold(m, s.a + word);
    Sums { a, b: fold(m, s.b + a) }
}

/// The algorithm as it is run on registers, one word at a time, with no
/// chunking.
pub open spec fn textbook(m: int, s: Sums, words: Seq<int>) -> Sums
    decreases words.len(),
{
    if words.len() == 0 {
        s
    } else {
        textbook_step(m, textbook(m, s, words.drop_last()), words.last())
    }
}

/// The sums after feeding `words` with no reduction at all, as one chunk
/// does between two folds.
pub open spec fn accumulate(s: Sums, words: Seq<int>) -> Sums
    decreases words.len(),
{
    if words.len() == 0 {
        s
    } else {
        let p = accumulate(s, words.drop_last());
        let a = p.a + words.last();
        Sums { a, b: p.b + a }
    }
}

/// Every word lies in `[0, m]`.
pub open spec fn words_within(m: int, words: Seq<int>) -> bool {
    forall|i: int| 0 <= i < words.len() ==> 0 <= #[trigger] words[i] <= m
}

/// The largest value of a register twice as wide as a word: with
/// `m = 2^W - 1` this is `2^(2W) - 1`.
pub open spec fn register_max(m: int) -> int {
    m * m + 2 * m
}

/// `1 + 2 + ... + n`.
pub open spec fn triangle(n: int) -> int {
    n * (n + 1) / 2
}

/// The largest value that the second sum can reach when `n` words of at
/// most `m` are accumulated without reduction onto sums `a0` and `b0`.
pub open spec fn peak(m: int, a0: int, b0: int, n: int) -> int {
    b0 + n * a0 + m * triangle(n)
}

/// `n` is the longest chunk that cannot overflow a register when both sums
/// start from the largest word: `n` words fit, `n + 1` do not.
pub open spec fn is_max_chunk_size(m: int, n: int) -> bool {
    &&& 0 <= n
    &&& peak(m, m, m, n) <= register_max(m)
    &&& peak(m, m, m, n + 1) > register_max(m)
}

/// Chunks of `n` words stay in range even from the sums that a single fold
/// leaves behind, which may exceed `m`: `a` by up to `n`, `b` by up to `m`.
pub open spec fn chunk_fits(m: int, n: int) -> bool {
    &&& 1 <= n <= m
    &&& peak(m, m + n, 2 * m, n) <= register_max(m)
}

} // verus!
