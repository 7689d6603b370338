//! What holds of the checksum whatever the input: the laws that callers may
//! rely on, proved over the definitions of [`crate::model`].

use crate::lemmas::{lemma_absorb_all_concat, lemma_fold_small};
use crate::model::{
    absorb, absorb_all, check_pair, checksum, fletcher, fold, pack, textbook, textbook_step,
    unpack, updated, words_within, zero_sums, Sums,
};
use vstd::arithmetic::div_mod::{
    lemma_add_mod_noop_right, lemma_fundamental_div_mod_converse, lemma_mod_bound,
    lemma_mod_equivalence, lemma_mod_self_0, lemma_small_mod,
};
use vstd::prelude::*;

verus! {

/// Whatever was fed, and from whatever sums, the sums that result are least
/// residues.
pub proof fn lemma_updated_canonical(m: int, s: Sums, words: Seq<int>)
    requires
        m >= 1,
    ensures
        updated(m, s, words).canonical(m),
    decreases words.len(),
{
    if words.len() == 0 {
        lemma_mod_bound(s.a, m);
        lemma_mod_bound(s.b, m);
    } else {
        let p = updated(m, s, words.drop_last());
        lemma_mod_bound(p.a + words.last(), m);
        lemma_mod_bound(p.b + (p.a + words.last()) % m, m);
    }
}

/// On sums and words that fit a word, adding modulo `m` is adding and
/// folding: a fold after every addition, as the algorithm runs on
/// registers, computes the one-word-at-a-time step of the model.
pub proof fn lemma_textbook_step(m: int, s: Sums, word: int)
    requires
        m >= 1,
        s.within(m),
        0 <= word <= m,
    ensures
        textbook_step(m, s, word) == absorb(m, s, word),
        textbook_step(m, s, word).canonical(m),
{
    lemma_fold_small(m, s.a + word);
    lemma_mod_bound(s.a + word, m);
    let a = (s.a + word) % m;
    lemma_fold_small(m, s.b + a);
    lemma_mod_bound(s.b + a, m);
}

/// Feeding words in chunks, with one reduction per chunk, gives the sums of
/// the unchunked algorithm that folds after every addition. The one input
/// on which the two differ is left out: nothing is fed, and a sum stands at
/// `m`, which the chunked engine takes to `0`.
pub proof fn lemma_update_is_textbook(m: int, s: Sums, words: Seq<int>)
    requires
        m >= 1,
        s.within(m),
        words_within(m, words),
        words.len() > 0 || s.canonical(m),
    ensures
        updated(m, s, words) == textbook(m, s, words),
    decreases words.len(),
{
    if words.len() == 0 {
        lemma_small_mod(s.a as nat, m as nat);
        lemma_small_mod(s.b as nat, m as nat);
    } else {
        let front = words.drop_last();
        let w = words.last();
        assert(words_within(m, front));
        assert(0 <= w <= m);
        if front.len() == 0 {
            let r = s.residues(m);
            lemma_add_mod_noop_right(w, s.a, m);
            let a = (s.a + w) % m;
            lemma_add_mod_noop_right(a, s.b, m);
            assert(absorb(m, r, w) == absorb(m, s, w));
            lemma_textbook_step(m, s, w);
        } else {
            lemma_update_is_textbook(m, s, front);
            lemma_updated_canonical(m, s, front);
            lemma_textbook_step(m, textbook(m, s, front), w);
        }
    }
}

/// Feeding nothing leaves the sums as they are exactly when they are least
/// residues, as they are after any earlier feeding. A sum that stands at
/// `m`, as both do in a new checksum, goes to `0`.
pub proof fn lemma_update_empty(m: int, s: Sums)
    requires
        m >= 1,
        s.within(m),
    ensures
        updated(m, s, Seq::<int>::empty()) == s <==> s.canonical(m),
        pack(m, updated(m, s, Seq::<int>::empty())) == pack(m, s) <==> s.canonical(m),
{
    lemma_mod_bound(s.a, m);
    lemma_mod_bound(s.b, m);
    lemma_mod_self_0(m);
    if s.a < m {
        lemma_small_mod(s.a as nat, m as nat);
    }
    if s.b < m {
        lemma_small_mod(s.b as nat, m as nat);
    }
    let r = updated(m, s, Seq::<int>::empty());
    assert(r.b * (m + 1) == r.b * m + r.b) by (nonlinear_arith);
    assert(s.b * (m + 1) == s.b * m + s.b) by (nonlinear_arith);
    if r.b < s.b {
        assert(r.b * m <= s.b * m - m) by (nonlinear_arith)
            requires
                r.b + 1 <= s.b,
                m >= 1,
        ;
    }
}

/// Feeding `x` and then `y` leaves the sums that feeding `x + y` at once
/// leaves.
pub proof fn lemma_update_twice(m: int, s: Sums, x: Seq<int>, y: Seq<int>)
    requires
        m >= 1,
    ensures
        updated(m, updated(m, s, x), y) == updated(m, s, x + y),
{
    let mid = updated(m, s, x);
    lemma_updated_canonical(m, s, x);
    lemma_small_mod(mid.a as nat, m as nat);
    lemma_small_mod(mid.b as nat, m as nat);
    lemma_absorb_all_concat(m, s.residues(m), x, y);
}

/// The check values are words, none of them zero, and feeding them brings
/// both sums to zero.
pub proof fn lemma_check_pair(m: int, s: Sums)
    requires
        m >= 1,
    ensures
        1 <= check_pair(m, s).0 <= m,
        1 <= check_pair(m, s).1 <= m,
        updated(m, s, seq![check_pair(m, s).0, check_pair(m, s).1]) == zero_sums(),
{
    let (c1, c2) = check_pair(m, s);
    let words = seq![c1, c2];
    lemma_mod_bound(s.a + s.b, m);
    lemma_mod_bound(s.a + c1, m);
    let r = s.residues(m);
    // The first check value takes `b` to zero.
    let a1 = (r.a + c1) % m;
    lemma_add_mod_noop_right(c1, s.a, m);
    assert(a1 == (s.a + c1) % m);
    let b1 = (r.b + a1) % m;
    lemma_add_mod_noop_right(a1, s.b, m);
    lemma_add_mod_noop_right(s.b, s.a + c1, m);
    assert(b1 == (s.b + s.a + c1) % m);
    let t = (s.a + s.b) % m;
    lemma_add_mod_noop_right(m - t, s.a + s.b, m);
    assert((m - t + t) % m == (m - t + s.a + s.b) % m);
    lemma_mod_self_0(m);
    assert(b1 == 0);
    // The second takes `a` to zero and leaves `b` there.
    assert(c2 == m - a1);
    assert((a1 + c2) % m == 0);
    lemma_small_mod(0, m as nat);
    assert(words.drop_last() =~= seq![c1]);
    assert(words.drop_last().drop_last() =~= Seq::<int>::empty());
    assert(absorb_all(m, r, words.drop_last().drop_last()) == r);
    assert(absorb_all(m, r, words.drop_last()) == absorb(m, r, c1));
    assert(absorb(m, r, c1) == (Sums { a: a1, b: b1 }));
}

/// On sums that fit a word, the check values are what the engine computes
/// with two folds: the mask less the fold of `a + b`, and the mask less the
/// fold of `a` plus the first check value.
pub proof fn lemma_check_pair_by_folds(m: int, s: Sums)
    requires
        m >= 1,
        s.within(m),
    ensures
        check_pair(m, s).0 == m - fold(m, s.a + s.b),
        check_pair(m, s).1 == m - fold(m, s.a + check_pair(m, s).0),
{
    lemma_fold_small(m, s.a + s.b);
    lemma_mod_bound(s.a + s.b, m);
    lemma_fold_small(m, s.a + check_pair(m, s).0);
}

/// An input followed by its check values has the checksum zero.
pub proof fn lemma_check_values_round_trip(m: int, words: Seq<int>)
    requires
        m >= 1,
    ensures
        checksum(
            m,
            words + seq![
                check_pair(m, fletcher(m, words)).0,
                check_pair(m, fletcher(m, words)).1,
            ],
        ) == 0,
{
    let s = fletcher(m, words);
    let tail = seq![check_pair(m, s).0, check_pair(m, s).1];
    lemma_small_mod(0, m as nat);
    assert(zero_sums().residues(m) == zero_sums());
    assert(s == updated(m, zero_sums(), words));
    lemma_update_twice(m, zero_sums(), words, tail);
    lemma_check_pair(m, s);
}

/// Words that are all `0` and words that are all `m`, the largest word, are
/// not told apart: an input of either kind, of any length, has the checksum
/// zero.
pub proof fn lemma_saturation(m: int, n: nat)
    requires
        m >= 1,
    ensures
        checksum(m, Seq::new(n, |i: int| 0int)) == 0,
        checksum(m, Seq::new(n, |i: int| m)) == 0,
    decreases n,
{
    let zeros = Seq::new(n, |i: int| 0int);
    let ones = Seq::new(n, |i: int| m);
    if n > 0 {
        lemma_saturation(m, (n - 1) as nat);
        assert(zeros.drop_last() =~= Seq::new((n - 1) as nat, |i: int| 0int));
        assert(ones.drop_last() =~= Seq::new((n - 1) as nat, |i: int| m));
        let p = fletcher(m, zeros.drop_last());
        let q = fletcher(m, ones.drop_last());
        lemma_updated_canonical(m, zero_sums(), zeros.drop_last());
        lemma_updated_canonical(m, zero_sums(), ones.drop_last());
        lemma_small_mod(0, m as nat);
        assert(zero_sums().residues(m) == zero_sums());
        lemma_unpack(m, p);
        lemma_unpack(m, q);
        assert(p == zero_sums());
        assert(q == zero_sums());
        lemma_mod_self_0(m);
    }
}

/// Words of the same residue are not told apart, a word of `0` and one of `m`
/// least of all: two inputs that agree word by word modulo `m` leave the
/// same sums.
pub proof fn lemma_congruent_words(m: int, s: Sums, x: Seq<int>, y: Seq<int>)
    requires
        m >= 1,
        x.len() == y.len(),
        forall|i: int| 0 <= i < x.len() ==> x[i] % m == y[i] % m,
    ensures
        updated(m, s, x) == updated(m, s, y),
    decreases x.len(),
{
    if x.len() > 0 {
        lemma_congruent_words(m, s, x.drop_last(), y.drop_last());
        let p = updated(m, s, x.drop_last());
        lemma_add_mod_noop_right(p.a, x.last(), m);
        lemma_add_mod_noop_right(p.a, y.last(), m);
    }
}

/// The two halves of a checksum are the sums that it was packed from.
pub proof fn lemma_unpack(m: int, s: Sums)
    requires
        m >= 1,
        s.within(m),
    ensures
        unpack(m, pack(m, s)) == s,
        pack(m, s) == 0 <==> s == zero_sums(),
{
    lemma_fundamental_div_mod_converse(pack(m, s), m + 1, s.b, s.a);
    assert(s.b * (m + 1) >= s.b && (s.b == 0 ==> s.b * (m + 1) == 0)) by (nonlinear_arith)
        requires
            s.b >= 0,
            m >= 1,
    ;
}

/// A checksum that starts from the two halves of an earlier checksum goes
/// on as the earlier one would have: fed `y`, it arrives at the sums of
/// `x + y` fed from the start.
pub proof fn lemma_resume_from_halves(m: int, x: Seq<int>, y: Seq<int>)
    requires
        m >= 1,
    ensures
        unpack(m, checksum(m, x)) == fletcher(m, x),
        unpack(m, checksum(m, x)).within(m),
        updated(m, unpack(m, checksum(m, x)), y) == fletcher(m, x + y),
{
    let s = fletcher(m, x);
    lemma_small_mod(0, m as nat);
    assert(zero_sums().residues(m) == zero_sums());
    lemma_updated_canonical(m, zero_sums(), x);
    lemma_unpack(m, s);
    lemma_update_twice(m, zero_sums(), x, y);
}

/// Two checksums that are fed the same words arrive at the same sums
/// exactly when they started from sums of the same residues: to go on as an
/// earlier checksum would have, a checksum has to start from its two halves,
/// where `m` may stand for `0`.
pub proof fn lemma_resume_same_start(m: int, s: Sums, t: Sums, y: Seq<int>)
    requires
        m >= 1,
    ensures
        updated(m, s, y) == updated(m, t, y) <==> s.residues(m) == t.residues(m),
    decreases y.len(),
{
    if y.len() > 0 {
        let front = y.drop_last();
        let w = y.last();
        lemma_resume_same_start(m, s, t, front);
        let p = updated(m, s, front);
        let q = updated(m, t, front);
        lemma_updated_canonical(m, s, front);
        lemma_updated_canonical(m, t, front);
        if absorb(m, p, w) == absorb(m, q, w) {
            lemma_same_residue(m, p.a, q.a, w);
            lemma_same_residue(m, p.b, q.b, (p.a + w) % m);
        }
    }
}

/// Adding the same number to two least residues gives the same residue only
/// if the two are equal.
proof fn lemma_same_residue(m: int, x: int, y: int, c: int)
    requires
        m >= 1,
        0 <= x < m,
        0 <= y < m,
        (x + c) % m == (y + c) % m,
    ensures
        x == y,
{
    lemma_mod_equivalence(x + c, y + c, m);
    if x > y {
        lemma_small_mod((x - y) as nat, m as nat);
    } else if y > x {
        lemma_mod_equivalence(y + c, x + c, m);
        lemma_small_mod((y - x) as nat, m as nat);
    }
}

} // verus!
