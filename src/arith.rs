//! Arithmetic facts about word positions shared by the bitmap and the layouts.
use vstd::prelude::*;

verus! {

/// Splitting an index into a word index and a bit offset.
pub proof fn lemma_div_mod_split(i: int, w: int)
    requires
        0 <= i,
        0 < w,
    ensures
        i == (i / w) * w + i % w,
        0 <= i % w < w,
        0 <= i / w,
{
    assert(i == (i / w) * w + i % w && 0 <= i % w < w) by (nonlinear_arith)
        requires
            0 <= i,
            0 < w,
    ;
    assert(0 <= i / w) by (nonlinear_arith)
        requires
            0 <= i,
            0 < w,
    ;
}

/// A word index and a bit offset name exactly one position.
pub proof fn lemma_compose(q: int, r: int, w: int)
    requires
        0 <= q,
        0 <= r < w,
    ensures
        (q * w + r) / w == q,
        (q * w + r) % w == r,
{
    vstd::arithmetic::div_mod::lemma_fundamental_div_mod_converse(q * w + r, w, q, r);
}

/// Two positions with the same word index and bit offset are equal.
pub proof fn lemma_same_position(i: int, j: int, w: int)
    requires
        0 <= i,
        0 <= j,
        0 < w,
        i / w == j / w,
        i % w == j % w,
    ensures
        i == j,
{
    lemma_div_mod_split(i, w);
    lemma_div_mod_split(j, w);
}

/// A position below `n * w` lies in one of the first `n` words.
pub proof fn lemma_word_below(i: int, w: int, n: int)
    requires
        0 <= i < n * w,
        0 < w,
    ensures
        i / w < n,
{
    lemma_div_mod_split(i, w);
    assert(i / w < n) by (nonlinear_arith)
        requires
            i == (i / w) * w + i % w,
            0 <= i % w,
            i < n * w,
            0 < w,
    ;
}

/// Positions ordered by word index are ordered.
pub proof fn lemma_word_order(i: int, q: int, w: int)
    requires
        0 <= i,
        0 < w,
        0 <= q,
        i / w < q,
    ensures
        i < q * w,
{
    lemma_div_mod_split(i, w);
    assert(i < q * w) by (nonlinear_arith)
        requires
            i == (i / w) * w + i % w,
            i % w < w,
            i / w < q,
            i / w >= 0,
            0 < w,
    ;
}

/// Positions at or past word `q` are at least `q * w`.
pub proof fn lemma_word_from(i: int, q: int, w: int)
    requires
        0 <= i,
        0 < w,
        0 <= q,
        q <= i / w,
    ensures
        q * w <= i,
{
    lemma_div_mod_split(i, w);
    assert(q * w <= i) by (nonlinear_arith)
        requires
            i == (i / w) * w + i % w,
            0 <= i % w,
            q <= i / w,
            0 < w,
    ;
}

} // verus!
