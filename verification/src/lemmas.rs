//! Arithmetic facts that the engine's proofs rest on: what a fold does to a
//! register, and how far a chunk of unreduced additions can grow.

use crate::model::{
    absorb, absorb_all, accumulate, chunk_fits, fold, peak, register_max, triangle, words_within,
    Sums,
};
use vstd::arithmetic::div_mod::{
    lemma_add_mod_noop_right, lemma_fundamental_div_mod, lemma_fundamental_div_mod_converse,
    lemma_mod_bound, lemma_mod_multiples_vanish, lemma_mod_self_0, lemma_small_mod,
};
use vstd::prelude::*;

verus! {

/// A register holds the sum of any two words.
pub proof fn lemma_two_words_fit(m: int)
    requires
        m >= 0,
    ensures
        2 * m <= register_max(m),
{
    assert(m * m >= 0) by (nonlinear_arith);
}

/// The quotient and remainder of a register value by `m + 1` are both at
/// most `m`, and they add up to a number congruent to the value modulo `m`.
pub proof fn lemma_halves(m: int, v: int)
    requires
        m >= 1,
        0 <= v <= register_max(m),
    ensures
        0 <= v % (m + 1) <= m,
        0 <= v / (m + 1) <= m,
        (v % (m + 1) + v / (m + 1)) % m == v % m,
{
    let d = m + 1;
    let q = v / d;
    let r = v % d;
    lemma_fundamental_div_mod(v, d);
    lemma_mod_bound(v, d);
    assert(0 <= q <= m) by (nonlinear_arith)
        requires
            v == d * q + r,
            0 <= r < d,
            d == m + 1,
            m >= 1,
            0 <= v <= m * m + 2 * m,
    ;
    assert(v == m * q + (q + r)) by (nonlinear_arith)
        requires
            v == d * q + r,
            d == m + 1,
    ;
    lemma_mod_multiples_vanish(q, q + r, m);
}

/// A fold keeps the residue modulo `m` and leaves at most `2 * m`, and at
/// most `m` more than the high half of its argument.
pub proof fn lemma_fold(m: int, v: int)
    requires
        m >= 1,
        0 <= v <= register_max(m),
    ensures
        0 <= fold(m, v) <= 2 * m,
        fold(m, v) <= m + v / (m + 1),
        fold(m, v) % m == v % m,
{
    lemma_halves(m, v);
    lemma_mod_self_0(m);
    lemma_small_mod(0, m as nat);
}

/// On a value of at most `2 * m`, such as the sum of two words, a fold is
/// the least residue modulo `m`.
pub proof fn lemma_fold_small(m: int, v: int)
    requires
        m >= 1,
        0 <= v <= 2 * m,
    ensures
        fold(m, v) == v % m,
{
    let d = m + 1;
    if v < d {
        lemma_fundamental_div_mod_converse(v, d, 0, v);
    } else {
        lemma_fundamental_div_mod_converse(v, d, 1, v - d);
    }
    if v < m {
        lemma_fundamental_div_mod_converse(v, m, 0, v);
    } else if v < 2 * m {
        lemma_fundamental_div_mod_converse(v, m, 1, v - m);
    } else {
        lemma_fundamental_div_mod_converse(v, m, 2, 0);
    }
}

/// The triangular numbers grow by the next index.
pub proof fn lemma_triangle_step(n: int)
    requires
        n >= 0,
    ensures
        triangle(n + 1) == triangle(n) + n + 1,
        triangle(n) >= 0,
{
    assert((n + 1) * (n + 2) == n * (n + 1) + 2 * (n + 1)) by (nonlinear_arith);
    assert(n * (n + 1) >= 0) by (nonlinear_arith)
        requires
            n >= 0,
    ;
}

/// A shorter chunk peaks no higher than a longer one.
pub proof fn lemma_peak_monotonic(m: int, a0: int, b0: int, k: int, n: int)
    requires
        m >= 0,
        a0 >= 0,
        0 <= k <= n,
    ensures
        peak(m, a0, b0, k) <= peak(m, a0, b0, n),
    decreases n - k,
{
    if k < n {
        lemma_peak_monotonic(m, a0, b0, k + 1, n);
        lemma_triangle_step(k);
        assert(m * triangle(k + 1) >= m * triangle(k)) by (nonlinear_arith)
            requires
                m >= 0,
                triangle(k + 1) >= triangle(k),
        ;
        assert((k + 1) * a0 >= k * a0) by (nonlinear_arith)
            requires
                a0 >= 0,
        ;
    }
}

/// Unreduced sums of words in `[0, m]` stay below the linear bound for `a`
/// and below the peak for `b`.
pub proof fn lemma_accumulate_bounds(m: int, s: Sums, words: Seq<int>)
    requires
        m >= 0,
        0 <= s.a,
        0 <= s.b,
        words_within(m, words),
    ensures
        0 <= accumulate(s, words).a <= s.a + words.len() * m,
        0 <= accumulate(s, words).b <= peak(m, s.a, s.b, words.len() as int),
    decreases words.len(),
{
    if words.len() == 0 {
        assert(triangle(0) == 0);
    } else {
        let k = words.len() - 1;
        let front = words.drop_last();
        assert(words_within(m, front));
        lemma_accumulate_bounds(m, s, front);
        lemma_triangle_step(k);
        let p = accumulate(s, front);
        assert(0 <= words.last() <= m);
        assert(p.a + words.last() <= s.a + (k + 1) * m) by (nonlinear_arith)
            requires
                p.a <= s.a + k * m,
                words.last() <= m,
        ;
        assert(peak(m, s.a, s.b, k) + s.a + (k + 1) * m == peak(m, s.a, s.b, k + 1))
            by (nonlinear_arith)
            requires
                triangle(k + 1) == triangle(k) + k + 1,
                peak(m, s.a, s.b, k) == s.b + k * s.a + m * triangle(k),
                peak(m, s.a, s.b, k + 1) == s.b + (k + 1) * s.a + m * triangle(k + 1),
        ;
    }
}

/// Feeding two inputs in turn, one word at a time, is feeding their
/// concatenation.
pub proof fn lemma_absorb_all_concat(m: int, s: Sums, x: Seq<int>, y: Seq<int>)
    ensures
        absorb_all(m, absorb_all(m, s, x), y) == absorb_all(m, s, x + y),
    decreases y.len(),
{
    if y.len() == 0 {
        assert(x + y =~= x);
    } else {
        lemma_absorb_all_concat(m, s, x, y.drop_last());
        assert((x + y).drop_last() =~= x + y.drop_last());
        assert((x + y).last() == y.last());
    }
}

/// Reducing once at the end gives what reducing after every addition gives.
pub proof fn lemma_accumulate_residues(m: int, s: Sums, words: Seq<int>)
    requires
        m >= 1,
    ensures
        absorb_all(m, s.residues(m), words) == accumulate(s, words).residues(m),
    decreases words.len(),
{
    if words.len() > 0 {
        let front = words.drop_last();
        let w = words.last();
        lemma_accumulate_residues(m, s, front);
        let p = accumulate(s, front);
        let q = absorb(m, p.residues(m), w);
        lemma_add_mod_noop_right(w, p.a, m);
        assert(q.a == (p.a + w) % m);
        lemma_add_mod_noop_right(q.a, p.b, m);
        lemma_add_mod_noop_right(p.b, p.a + w, m);
        assert(q.b == (p.b + p.a + w) % m);
    }
}

/// What one chunk does to sums that a fold left behind: the additions stay
/// within a register, and the folds that follow leave sums of the same
/// residues that are again fit to start a chunk from.
pub proof fn lemma_chunk(m: int, n: int, s: Sums, words: Seq<int>)
    requires
        chunk_fits(m, n),
        0 <= s.a <= m + n,
        0 <= s.b <= 2 * m,
        words_within(m, words),
        words.len() <= n,
    ensures
        0 <= accumulate(s, words).a <= register_max(m),
        0 <= accumulate(s, words).b <= register_max(m),
        0 <= fold(m, accumulate(s, words).a) <= m + n,
        0 <= fold(m, accumulate(s, words).b) <= 2 * m,
        fold(m, accumulate(s, words).a) % m == accumulate(s, words).a % m,
        fold(m, accumulate(s, words).b) % m == accumulate(s, words).b % m,
{
    let k = words.len() as int;
    let t = accumulate(s, words);
    lemma_accumulate_bounds(m, s, words);
    lemma_peak_monotonic(m, s.a, s.b, k, n);
    lemma_triangle_step(n);
    assert(peak(m, s.a, s.b, n) <= peak(m, m + n, 2 * m, n)) by (nonlinear_arith)
        requires
            n >= 0,
            s.a <= m + n,
            s.b <= 2 * m,
            peak(m, s.a, s.b, n) == s.b + n * s.a + m * triangle(n),
            peak(m, m + n, 2 * m, n) == 2 * m + n * (m + n) + m * triangle(n),
    ;
    assert(t.a <= n * (m + 1) + m) by (nonlinear_arith)
        requires
            t.a <= s.a + k * m,
            s.a <= m + n,
            0 <= k <= n,
            m >= 0,
    ;
    assert(n * (m + 1) + m <= register_max(m)) by (nonlinear_arith)
        requires
            1 <= n <= m,
            register_max(m) == m * m + 2 * m,
    ;
    lemma_fold(m, t.a);
    lemma_fold(m, t.b);
    lemma_fundamental_div_mod(t.a, m + 1);
    lemma_mod_bound(t.a, m + 1);
    assert(t.a / (m + 1) <= n) by (nonlinear_arith)
        requires
            t.a == (m + 1) * (t.a / (m + 1)) + t.a % (m + 1),
            0 <= t.a % (m + 1),
            t.a <= n * (m + 1) + m,
            m >= 1,
    ;
}

} // verus!
