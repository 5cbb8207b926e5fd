//! Algebraic laws of the list operations, stated and proved over the
//! sequences and spec functions that the operations' contracts use:
//! a list's view is the sequence of its elements, prepending an
//! element `x` to a list viewed as `l` yields the view `seq![x] + l`,
//! and `filter`, `foldl` and `foldr` are described by `kept_elems`,
//! `foldl_rel` and `foldr_rel`.

use vstd::prelude::*;
use vstd::pervasive::cloned;
use crate::list::{kept_elems, seq_cloned, foldl_req, foldl_rel, foldr_req, foldr_rel};

verus! {

/// One step of `foldl_req`: a left fold over a non-empty sequence can
/// be run when `f` accepts the seed with the head and the fold of the
/// tail can be run from whatever `f` then returns.
pub proof fn lemma_foldl_req_step<T, F: Fn(T, &T) -> T>(f: F, s: Seq<T>, z: T)
    requires
        s.len() > 0,
        call_requires(f, (z, &s[0])),
        forall|m: T| #[trigger] call_ensures(f, (z, &s[0]), m) ==> foldl_req(f, s.drop_first(), m),
    ensures
        foldl_req(f, s, z),
{
}

/// A combining function that accepts every accumulator and element
/// lets the left fold run over any sequence from any seed.
pub proof fn lemma_foldl_req_total<T, F: Fn(T, &T) -> T>(f: F, s: Seq<T>, z: T)
    requires
        forall|acc: T, x: &T| #[trigger] call_requires(f, (acc, x)),
    ensures
        foldl_req(f, s, z),
    decreases s.len(),
{
    if s.len() > 0 {
        assert forall|m: T| #[trigger] call_ensures(f, (z, &s[0]), m) implies foldl_req(
            f,
            s.drop_first(),
            m,
        ) by {
            lemma_foldl_req_total(f, s.drop_first(), m);
        }
        lemma_foldl_req_step(f, s, z);
    }
}

/// A combining function that accepts every accumulator and element
/// lets the right fold run over any sequence from any seed.
pub proof fn lemma_foldr_req_total<T, F: Fn(T, &T) -> T>(f: F, s: Seq<T>, z: T)
    requires
        forall|acc: T, x: &T| #[trigger] call_requires(f, (acc, x)),
    ensures
        foldr_req(f, s, z),
    decreases s.len(),
{
    if s.len() > 0 {
        lemma_foldr_req_total(f, s.drop_first(), z);
    }
}

/// The left fold of the mathematical function `g` over `s` from `z`:
/// the accumulator starts at `z` and is replaced, head-to-tail, by
/// `g(accumulator, element)`.
pub open spec fn foldl_of<T>(s: Seq<T>, z: T, g: spec_fn(T, T) -> T) -> T
    decreases s.len(),
{
    if s.len() == 0 {
        z
    } else {
        foldl_of(s.drop_first(), g(z, s[0]), g)
    }
}

/// The right fold of the mathematical function `g` over `s` from `z`:
/// the tail is folded first, seeded with `z`, and the head is then
/// combined as `g(tail_result, head)`.
pub open spec fn foldr_of<T>(s: Seq<T>, z: T, g: spec_fn(T, T) -> T) -> T
    decreases s.len(),
{
    if s.len() == 0 {
        z
    } else {
        g(foldr_of(s.drop_first(), z, g), s[0])
    }
}

/// When the combining function returns exactly `g(accumulator,
/// element)`, the left fold has exactly one possible result: the left
/// fold of `g`. So `foldl` over `[21, 15, 9]` from `0` with addition
/// returns `45`, and with subtraction `((0 - 21) - 15) - 9`.
pub proof fn lemma_foldl_exact<T, F: Fn(T, &T) -> T>(
    f: F,
    g: spec_fn(T, T) -> T,
    s: Seq<T>,
    z: T,
    res: T,
)
    requires
        forall|acc: T, x: &T, r: T| call_ensures(f, (acc, x), r) ==> r == g(acc, *x),
        foldl_rel(f, s, z, res),
    ensures
        res == foldl_of(s, z, g),
    decreases s.len(),
{
    if s.len() > 0 {
        let m = choose|m: T|
            #[trigger] call_ensures(f, (z, &s[0]), m) && foldl_rel(f, s.drop_first(), m, res);
        assert(m == g(z, s[0]));
        lemma_foldl_exact(f, g, s.drop_first(), m, res);
    }
}

/// When the combining function returns exactly `g(accumulated,
/// element)`, the right fold has exactly one possible result: the
/// right fold of `g`. So `foldr` over `[21, 15, 9]` from `0` with
/// addition returns `45`.
pub proof fn lemma_foldr_exact<T, F: Fn(T, &T) -> T>(
    f: F,
    g: spec_fn(T, T) -> T,
    s: Seq<T>,
    z: T,
    res: T,
)
    requires
        forall|acc: T, x: &T, r: T| call_ensures(f, (acc, x), r) ==> r == g(acc, *x),
        foldr_rel(f, s, z, res),
    ensures
        res == foldr_of(s, z, g),
    decreases s.len(),
{
    if s.len() > 0 {
        let t = choose|t: T|
            foldr_rel(f, s.drop_first(), z, t) && #[trigger] call_ensures(f, (t, &s[0]), res);
        lemma_foldr_exact(f, g, s.drop_first(), z, t);
        assert(res == g(t, s[0]));
    }
}

/// Prepending one element grows the length by exactly one.
pub proof fn lemma_append_length<T>(l: Seq<T>, x: T)
    ensures
        (seq![x] + l).len() == l.len() + 1,
{
}

/// The empty list is empty, and a list onto which an element was just
/// prepended never is.
pub proof fn lemma_append_not_empty<T>(l: Seq<T>, x: T)
    ensures
        Seq::<T>::empty().len() == 0,
        (seq![x] + l).len() != 0,
{
}

/// The head of a list onto which an element was just prepended is that
/// element: the most recently prepended element comes first.
pub proof fn lemma_append_first<T>(l: Seq<T>, x: T)
    ensures
        (seq![x] + l).len() > 0,
        (seq![x] + l)[0] == x,
{
}

/// Removing the head of a list onto which an element was just
/// prepended gives back the original list.
pub proof fn lemma_append_tail<T>(l: Seq<T>, x: T)
    ensures
        (seq![x] + l).drop_first() == l,
{
    assert((seq![x] + l).drop_first() =~= l);
}

/// When every decision is to keep, the kept subsequence is the whole
/// sequence.
pub proof fn lemma_kept_elems_all_true<T>(s: Seq<T>, keep: Seq<bool>)
    requires
        keep.len() == s.len(),
        forall|i: int| 0 <= i < keep.len() ==> keep[i] == true,
    ensures
        kept_elems(s, keep) == s,
    decreases s.len(),
{
    if s.len() == 0 {
        assert(kept_elems(s, keep) =~= s);
    } else {
        assert forall|i: int| 0 <= i < keep.drop_first().len() implies keep.drop_first()[i]
            == true by {
            assert(keep.drop_first()[i] == keep[i + 1]);
        }
        lemma_kept_elems_all_true(s.drop_first(), keep.drop_first());
        assert(kept_elems(s, keep) =~= s);
    }
}

/// When every decision is to drop, the kept subsequence is empty.
pub proof fn lemma_kept_elems_all_false<T>(s: Seq<T>, keep: Seq<bool>)
    requires
        keep.len() == s.len(),
        forall|i: int| 0 <= i < keep.len() ==> keep[i] == false,
    ensures
        kept_elems(s, keep) == Seq::<T>::empty(),
    decreases s.len(),
{
    if s.len() == 0 {
        assert(kept_elems(s, keep) =~= Seq::<T>::empty());
    } else {
        assert forall|i: int| 0 <= i < keep.drop_first().len() implies keep.drop_first()[i]
            == false by {
            assert(keep.drop_first()[i] == keep[i + 1]);
        }
        lemma_kept_elems_all_false(s.drop_first(), keep.drop_first());
        assert(kept_elems(s, keep) =~= Seq::<T>::empty());
    }
}

/// Filtering with a predicate that can only answer true gives back the
/// input list, element for element: the hypotheses are exactly what
/// `filter`'s contract ensures of its result `r` on a receiver viewed
/// as `s`, plus that the predicate allows only true and that cloning
/// an element of `T` preserves its value.
pub proof fn lemma_filter_all_true<T: Clone, F: Fn(&T) -> bool>(
    f: F,
    s: Seq<T>,
    keep: Seq<bool>,
    r: Seq<T>,
)
    requires
        forall|x: &T, b: bool| call_ensures(f, (x,), b) ==> b == true,
        keep.len() == s.len(),
        forall|i: int| 0 <= i < s.len() ==> call_ensures(f, (&s[i],), #[trigger] keep[i]),
        seq_cloned(kept_elems(s, keep), r),
        forall|a: T, b: T| cloned::<T>(a, b) ==> a == b,
    ensures
        r == s,
{
    assert forall|i: int| 0 <= i < keep.len() implies keep[i] == true by {
        assert(call_ensures(f, (&s[i],), keep[i]));
    }
    lemma_kept_elems_all_true(s, keep);
    assert forall|i: int| 0 <= i < s.len() implies r[i] == s[i] by {
        assert(cloned::<T>(kept_elems(s, keep)[i], r[i]));
    }
    assert(r =~= s);
}

/// Filtering with a predicate that can only answer false gives the
/// empty list: the hypotheses are exactly what `filter`'s contract
/// ensures of its result `r` on a receiver viewed as `s`, plus that
/// the predicate allows only false.
pub proof fn lemma_filter_all_false<T: Clone, F: Fn(&T) -> bool>(
    f: F,
    s: Seq<T>,
    keep: Seq<bool>,
    r: Seq<T>,
)
    requires
        forall|x: &T, b: bool| call_ensures(f, (x,), b) ==> b == false,
        keep.len() == s.len(),
        forall|i: int| 0 <= i < s.len() ==> call_ensures(f, (&s[i],), #[trigger] keep[i]),
        seq_cloned(kept_elems(s, keep), r),
    ensures
        r == Seq::<T>::empty(),
{
    assert forall|i: int| 0 <= i < keep.len() implies keep[i] == false by {
        assert(call_ensures(f, (&s[i],), keep[i]));
    }
    lemma_kept_elems_all_false(s, keep);
    assert(r =~= Seq::<T>::empty());
}

/// The right fold combines the accumulated value first and the element
/// second: over a three-element sequence `[a, b, c]` its possible
/// results are exactly the values `f(f(f(z, c), b), a)`, where each
/// application may return anything `f`'s contract allows.
pub proof fn lemma_foldr_three<T, F: Fn(T, &T) -> T>(f: F, a: T, b: T, c: T, z: T, res: T)
    ensures
        foldr_rel(f, seq![a, b, c], z, res) <==> (exists|t1: T, t2: T|
            #[trigger] call_ensures(f, (z, &c), t1) && #[trigger] call_ensures(f, (t1, &b), t2)
                && call_ensures(f, (t2, &a), res)),
{
    let s = seq![a, b, c];
    assert(s.drop_first() =~= seq![b, c]);
    assert(seq![b, c].drop_first() =~= seq![c]);
    assert(seq![c].drop_first() =~= Seq::<T>::empty());
    assert(s[0] == a && seq![b, c][0] == b && seq![c][0] == c);
    assert forall|t: T| foldr_rel(f, seq![c], z, t) <==> call_ensures(f, (z, &c), t) by {
        reveal_with_fuel(foldr_rel, 2);
        if foldr_rel(f, seq![c], z, t) {
            let t0 = choose|t0: T|
                foldr_rel(f, seq![c].drop_first(), z, t0) && #[trigger] call_ensures(
                    f,
                    (t0, &seq![c][0]),
                    t,
                );
            assert(t0 == z);
        }
        if call_ensures(f, (z, &c), t) {
            assert(foldr_rel(f, Seq::<T>::empty(), z, z));
            assert(foldr_rel(f, seq![c], z, t));
        }
    }
    if foldr_rel(f, s, z, res) {
        let t2 = choose|t2: T| foldr_rel(f, seq![b, c], z, t2) && #[trigger] call_ensures(
            f,
            (t2, &a),
            res,
        );
        let t1 = choose|t1: T| foldr_rel(f, seq![c], z, t1) && #[trigger] call_ensures(
            f,
            (t1, &b),
            t2,
        );
        assert(call_ensures(f, (z, &c), t1) && call_ensures(f, (t1, &b), t2) && call_ensures(
            f,
            (t2, &a),
            res,
        ));
    }
    if exists|t1: T, t2: T|
        #[trigger] call_ensures(f, (z, &c), t1) && #[trigger] call_ensures(f, (t1, &b), t2)
            && call_ensures(f, (t2, &a), res) {
        let (t1, t2) = choose|t1: T, t2: T|
            #[trigger] call_ensures(f, (z, &c), t1) && #[trigger] call_ensures(f, (t1, &b), t2)
                && call_ensures(f, (t2, &a), res);
        assert(foldr_rel(f, seq![c], z, t1));
        assert(foldr_rel(f, seq![b, c], z, t2));
        assert(foldr_rel(f, s, z, res));
    }
}

} // verus!
