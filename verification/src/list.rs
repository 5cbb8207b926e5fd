//! The persistent list type and its operations.
//!
//! A `List<T>` is either `Nil` (the empty list) or `Cons(head, rest)`,
//! where `rest` is exclusively owned, so every list is a finite acyclic
//! chain ending in `Nil`. No operation mutates an existing list: each
//! transformation returns a fresh value. The view of a list is the
//! `Seq<T>` of its elements in head-to-tail order, and every contract
//! below speaks of that sequence.

use vstd::prelude::*;
use vstd::pervasive::cloned;

verus! {

/// The subsequence of `s` at the positions marked true in `keep`, in
/// their original order.
pub open spec fn kept_elems<T>(s: Seq<T>, keep: Seq<bool>) -> Seq<T>
    decreases s.len(),
{
    if s.len() == 0 {
        Seq::empty()
    } else {
        let rest = kept_elems(s.drop_first(), keep.drop_first());
        if keep.len() > 0 && keep[0] {
            seq![s[0]] + rest
        } else {
            rest
        }
    }
}

/// Each element of `b` is a clone (or a copy) of the element of `a` at
/// the same position.
pub open spec fn seq_cloned<T: Clone>(a: Seq<T>, b: Seq<T>) -> bool {
    b.len() == a.len() && forall|i: int| 0 <= i < a.len() ==> cloned::<T>(a[i], #[trigger] b[i])
}

/// The precondition of a left fold of `f` over `s` starting from `z`:
/// `f` accepts `z` together with the head, and, whatever value it may
/// then return, accepts that value together with the next element, and
/// so on down the sequence.
pub open spec fn foldl_req<T, F: Fn(T, &T) -> T>(f: F, s: Seq<T>, z: T) -> bool
    decreases s.len(),
{
    s.len() == 0 || (call_requires(f, (z, &s[0])) && (forall|m: T|
        #[trigger] call_ensures(f, (z, &s[0]), m) ==> foldl_req(f, s.drop_first(), m)))
}

/// `res` is a possible result of the left fold of `f` over `s` from
/// `z`: the accumulator starts at `z` and is replaced, head-to-tail,
/// by an output of `f` on the accumulator and the element, so for a
/// three-element sequence the result is `f(f(f(z, s[0]), s[1]), s[2])`.
pub open spec fn foldl_rel<T, F: Fn(T, &T) -> T>(f: F, s: Seq<T>, z: T, res: T) -> bool
    decreases s.len(),
{
    if s.len() == 0 {
        res == z
    } else {
        exists|m: T|
            #[trigger] call_ensures(f, (z, &s[0]), m) && foldl_rel(f, s.drop_first(), m, res)
    }
}

/// `res` is a possible result of the right fold of `f` over `s` from
/// `z`: the tail is folded first, seeded with `z`, and the head is then
/// combined into that result as `f(tail_result, head)`, so for a
/// three-element sequence the result is `f(f(f(z, s[2]), s[1]), s[0])`.
pub open spec fn foldr_rel<T, F: Fn(T, &T) -> T>(f: F, s: Seq<T>, z: T, res: T) -> bool
    decreases s.len(),
{
    if s.len() == 0 {
        res == z
    } else {
        exists|t: T|
            foldr_rel(f, s.drop_first(), z, t) && #[trigger] call_ensures(f, (t, &s[0]), res)
    }
}

/// The precondition of a right fold of `f` over `s` starting from `z`:
/// the fold of the tail can be run, and `f` accepts every value that
/// fold may produce together with the head.
pub open spec fn foldr_req<T, F: Fn(T, &T) -> T>(f: F, s: Seq<T>, z: T) -> bool
    decreases s.len(),
{
    s.len() == 0 || (foldr_req(f, s.drop_first(), z) && (forall|t: T|
        #[trigger] foldr_rel(f, s.drop_first(), z, t) ==> call_requires(f, (t, &s[0]))))
}

#[derive(PartialEq, Debug)]
pub enum List<T> {
    Cons(T, Box<List<T>>),
    Nil,
}

impl<T> List<T> {
    /// The elements of the list, head first, as a mathematical sequence.
    pub open spec fn elems(self) -> Seq<T>
        decreases self,
    {
        match self {
            List::Nil => Seq::empty(),
            List::Cons(x, rest) => seq![x] + rest.elems(),
        }
    }
}

impl<T> View for List<T> {
    type V = Seq<T>;

    open spec fn view(&self) -> Seq<T> {
        self.elems()
    }
}

impl<T> List<T> {
    /// The canonical empty list.
    pub fn empty() -> (r: List<T>)
        ensures
            r@ == Seq::<T>::empty(),
    {
        List::Nil
    }

    /// Consumes the list and an element, and returns a new list whose
    /// head is `x` and whose tail is the consumed list (a prepend).
    pub fn append(self, x: T) -> (r: List<T>)
        ensures
            r@ == seq![x] + self@,
    {
        List::Cons(x, Box::new(self))
    }

    /// True exactly when the list is empty.
    pub fn null(&self) -> (b: bool)
        ensures
            b <==> self@.len() == 0,
    {
        match self {
            List::Cons(_, _) => false,
            List::Nil => true,
        }
    }

    /// The number of elements in the list.
    pub fn len(&self) -> (n: usize)
        requires
            self@.len() <= usize::MAX,
        ensures
            n == self@.len(),
        decreases self,
    {
        match self {
            List::Cons(_, rest) => 1 + rest.len(),
            List::Nil => 0,
        }
    }

    /// A reference to the head element, or `None` if the list is empty.
    pub fn first(&self) -> (r: Option<&T>)
        ensures
            match r {
                Some(x) => self@.len() > 0 && *x == self@[0],
                None => self@.len() == 0,
            },
    {
        match self {
            List::Cons(x, _) => Some(x),
            List::Nil => None,
        }
    }

    /// A reference to the final element (the one adjacent to the
    /// terminal `Nil`), or `None` if the list is empty.
    pub fn last(&self) -> (r: Option<&T>)
        ensures
            match r {
                Some(x) => self@.len() > 0 && *x == self@.last(),
                None => self@.len() == 0,
            },
        decreases self,
    {
        match self {
            List::Cons(x, rest) => {
                if rest.null() {
                    Some(x)
                } else {
                    rest.last()
                }
            },
            List::Nil => None,
        }
    }

    /// A reference to the remainder of the list after its head; the
    /// tail of the empty list is the empty list itself, not an error.
    pub fn tail(&self) -> (r: &List<T>)
        ensures
            self@.len() == 0 ==> r@ == Seq::<T>::empty(),
            self@.len() > 0 ==> r@ == self@.drop_first(),
    {
        match self {
            List::Nil => self,
            List::Cons(_, rest) => {
                proof {
                    assert(rest@ =~= self@.drop_first());
                }
                &**rest
            },
        }
    }

    /// A new list of the same length whose element at each position is
    /// an output of `f` on the receiver's element at that position;
    /// `f` is applied to each element in head-to-tail order.
    pub fn map<U, F: Fn(&T) -> U>(&self, f: F) -> (r: List<U>)
        requires
            forall|i: int| 0 <= i < self@.len() ==> call_requires(f, (&self@[i],)),
        ensures
            r@.len() == self@.len(),
            forall|i: int|
                0 <= i < self@.len() ==> call_ensures(f, (&self@[i],), #[trigger] r@[i]),
        decreases self,
    {
        match self {
            List::Nil => List::Nil,
            List::Cons(x, rest) => {
                proof {
                    assert(call_requires(f, (&self@[0],)));
                    assert(*x == self@[0]);
                    assert forall|i: int| 0 <= i < rest@.len() implies call_requires(
                        f,
                        (&rest@[i],),
                    ) by {
                        assert(rest@[i] == self@[i + 1]);
                        assert(call_requires(f, (&self@[i + 1],)));
                    }
                }
                let y = f(x);
                let rest_mapped = rest.map(f);
                let ghost rest_mapped_view = rest_mapped@;
                let r = List::Cons(y, Box::new(rest_mapped));
                proof {
                    assert(r@ =~= seq![r@[0]] + rest_mapped_view);
                    assert forall|i: int| 0 <= i < self@.len() implies call_ensures(
                        f,
                        (&self@[i],),
                        #[trigger] r@[i],
                    ) by {
                        if i > 0 {
                            assert(r@[i] == rest_mapped_view[i - 1]);
                            assert(self@[i] == rest@[i - 1]);
                            assert(call_ensures(f, (&rest@[i - 1],), rest_mapped_view[i - 1]));
                        }
                    }
                }
                r
            },
        }
    }

    /// A reference to the first element, in head-to-tail order, on
    /// which `f` returns true, or `None` when no element satisfies `f`
    /// or the list is empty. `f` is not applied past the first match.
    pub fn find<F: Fn(&T) -> bool>(&self, f: F) -> (r: Option<&T>)
        requires
            forall|i: int| 0 <= i < self@.len() ==> call_requires(f, (&self@[i],)),
        ensures
            match r {
                Some(x) => exists|i: int|
                    0 <= i < self@.len() && *x == self@[i] && #[trigger] call_ensures(
                        f,
                        (&self@[i],),
                        true,
                    ) && (forall|j: int| 0 <= j < i ==> call_ensures(f, (&self@[j],), false)),
                None => forall|i: int|
                    0 <= i < self@.len() ==> call_ensures(f, (&self@[i],), false),
            },
        decreases self,
    {
        match self {
            List::Nil => None,
            List::Cons(x, rest) => {
                proof {
                    assert(call_requires(f, (&self@[0],)));
                    assert(*x == self@[0]);
                    assert forall|i: int| 0 <= i < rest@.len() implies call_requires(
                        f,
                        (&rest@[i],),
                    ) by {
                        assert(rest@[i] == self@[i + 1]);
                        assert(call_requires(f, (&self@[i + 1],)));
                    }
                }
                if f(x) {
                    Some(x)
                } else {
                    let r = rest.find(f);
                    proof {
                        match r {
                            Some(y) => {
                                let i = choose|i: int|
                                    0 <= i < rest@.len() && *y == rest@[i]
                                        && #[trigger] call_ensures(f, (&rest@[i],), true) && (
                                    forall|j: int|
                                        0 <= j < i ==> call_ensures(f, (&rest@[j],), false));
                                assert(self@[i + 1] == rest@[i]);
                                assert forall|j: int| 0 <= j < i + 1 implies call_ensures(
                                    f,
                                    (&self@[j],),
                                    false,
                                ) by {
                                    if j > 0 {
                                        assert(self@[j] == rest@[j - 1]);
                                        assert(call_ensures(f, (&rest@[j - 1],), false));
                                    }
                                }
                                assert(0 <= i + 1 < self@.len() && *y == self@[i + 1]
                                    && call_ensures(f, (&self@[i + 1],), true));
                            },
                            None => {
                                assert forall|i: int| 0 <= i < self@.len() implies call_ensures(
                                    f,
                                    (&self@[i],),
                                    false,
                                ) by {
                                    if i > 0 {
                                        assert(self@[i] == rest@[i - 1]);
                                        assert(call_ensures(f, (&rest@[i - 1],), false));
                                    }
                                }
                            },
                        }
                    }
                    r
                }
            },
        }
    }

    /// Left-associative fold: the accumulator starts at `z` and is
    /// replaced, head-to-tail, by `f` applied to the accumulator and
    /// the element; the empty list returns `z` unchanged. The
    /// accumulation is iterative, so it takes constant stack space.
    pub fn foldl<F: Fn(T, &T) -> T>(&self, z: T, f: F) -> (r: T)
        requires
            foldl_req(f, self@, z),
        ensures
            foldl_rel(f, self@, z, r),
    {
        let mut acc = z;
        let mut cur = self;
        loop
            invariant
                foldl_req(f, cur@, acc),
                forall|res: T| foldl_rel(f, cur@, acc, res) ==> foldl_rel(f, self@, z, res),
            decreases cur@.len(),
        {
            match cur {
                List::Nil => {
                    proof {
                        assert(foldl_rel(f, cur@, acc, acc));
                    }
                    return acc;
                },
                List::Cons(x, rest) => {
                    proof {
                        assert(*x == cur@[0]);
                        assert(cur@.drop_first() =~= rest@);
                    }
                    let ghost prev = acc;
                    let ghost prev_cur = cur@;
                    acc = f(acc, x);
                    proof {
                        assert(call_ensures(f, (prev, &prev_cur[0]), acc));
                        assert(foldl_req(f, rest@, acc));
                        assert forall|res: T| foldl_rel(f, rest@, acc, res) implies foldl_rel(
                            f,
                            self@,
                            z,
                            res,
                        ) by {
                            assert(foldl_rel(f, prev_cur, prev, res));
                        }
                    }
                    cur = rest;
                },
            }
        }
    }

    /// Right-associative fold: the tail is folded first, seeded with
    /// `z`, and the head is then combined into that result as
    /// `f(tail_result, head)`; the empty list returns `z` unchanged.
    pub fn foldr<F: Fn(T, &T) -> T>(&self, z: T, f: F) -> (r: T)
        requires
            foldr_req(f, self@, z),
        ensures
            foldr_rel(f, self@, z, r),
    {
        self.foldr_ref(z, &f)
    }

    /// Recursive worker for `foldr`, taking the combining function by
    /// reference so that it can both recurse and combine with it.
    fn foldr_ref<F: Fn(T, &T) -> T>(&self, z: T, f: &F) -> (r: T)
        requires
            foldr_req(*f, self@, z),
        ensures
            foldr_rel(*f, self@, z, r),
        decreases self,
    {
        match self {
            List::Nil => z,
            List::Cons(x, rest) => {
                proof {
                    assert(*x == self@[0]);
                    assert(self@.drop_first() =~= rest@);
                }
                let t = rest.foldr_ref(z, f);
                proof {
                    assert(foldr_rel(*f, self@.drop_first(), z, t));
                }
                let r = f(t, x);
                proof {
                    assert(call_ensures(*f, (t, &self@[0]), r));
                }
                r
            },
        }
    }
}

impl<T: Clone> List<T> {
    /// A new list equal to the receiver with its last element removed;
    /// `init` of the empty list and of a single-element list is empty.
    /// Every retained element is duplicated with `T::clone`, so each
    /// element of the result is a clone of the element at the same
    /// position of the receiver.
    pub fn init(&self) -> (r: List<T>)
        ensures
            self@.len() <= 1 ==> r@ == Seq::<T>::empty(),
            self@.len() > 1 ==> r@.len() == self@.len() - 1,
            forall|i: int| 0 <= i < r@.len() ==> cloned::<T>(self@[i], #[trigger] r@[i]),
        decreases self,
    {
        match self {
            List::Nil => List::Nil,
            List::Cons(x, rest) => {
                if rest.null() {
                    List::Nil
                } else {
                    let xc = x.clone();
                    let rest_init = rest.init();
                    let ghost rest_init_view = rest_init@;
                    let r = List::Cons(xc, Box::new(rest_init));
                    proof {
                        assert(r@ =~= seq![r@[0]] + rest_init_view);
                    }
                    r
                }
            },
        }
    }

    /// A new list holding, in their original order, clones of exactly
    /// those elements of the receiver on which `f` returned true.
    pub fn filter<F: Fn(&T) -> bool>(&self, f: F) -> (r: List<T>)
        requires
            forall|i: int| 0 <= i < self@.len() ==> call_requires(f, (&self@[i],)),
        ensures
            exists|keep: Seq<bool>|
                {
                    &&& keep.len() == self@.len()
                    &&& (forall|i: int|
                        0 <= i < self@.len() ==> call_ensures(f, (&self@[i],), #[trigger] keep[i]))
                    &&& seq_cloned(#[trigger] kept_elems(self@, keep), r@)
                },
        decreases self,
    {
        match self {
            List::Nil => {
                proof {
                    let keep = Seq::<bool>::empty();
                    assert(kept_elems(self@, keep) =~= Seq::<T>::empty());
                    assert(seq_cloned(kept_elems(self@, keep), Seq::<T>::empty()));
                }
                List::Nil
            },
            List::Cons(x, rest) => {
                proof {
                    assert(call_requires(f, (&self@[0],)));
                    assert(*x == self@[0]);
                    assert forall|i: int| 0 <= i < rest@.len() implies call_requires(
                        f,
                        (&rest@[i],),
                    ) by {
                        assert(rest@[i] == self@[i + 1]);
                        assert(call_requires(f, (&self@[i + 1],)));
                    }
                }
                let b = f(x);
                let rest_filtered = rest.filter(f);
                let ghost rest_filtered_view = rest_filtered@;
                let ghost rest_view = rest@;
                let ghost keep_t = choose|keep: Seq<bool>|
                    {
                        &&& keep.len() == rest_view.len()
                        &&& (forall|i: int|
                            0 <= i < rest_view.len() ==> call_ensures(
                                f,
                                (&rest_view[i],),
                                #[trigger] keep[i],
                            ))
                        &&& seq_cloned(#[trigger] kept_elems(rest_view, keep), rest_filtered_view)
                    };
                let ghost keep = seq![b] + keep_t;
                proof {
                    assert(keep.drop_first() =~= keep_t);
                    assert(self@.drop_first() =~= rest_view);
                    assert forall|i: int| 0 <= i < self@.len() implies call_ensures(
                        f,
                        (&self@[i],),
                        #[trigger] keep[i],
                    ) by {
                        if i > 0 {
                            assert(self@[i] == rest_view[i - 1]);
                            assert(call_ensures(f, (&rest_view[i - 1],), keep_t[i - 1]));
                        }
                    }
                }
                if b {
                    let xc = x.clone();
                    let r = List::Cons(xc, Box::new(rest_filtered));
                    proof {
                        assert(r@ =~= seq![r@[0]] + rest_filtered_view);
                        assert(kept_elems(self@, keep) =~= seq![self@[0]] + kept_elems(
                            rest_view,
                            keep_t,
                        ));
                        assert(seq_cloned(kept_elems(self@, keep), r@));
                    }
                    r
                } else {
                    proof {
                        assert(kept_elems(self@, keep) =~= kept_elems(rest_view, keep_t));
                        assert(seq_cloned(kept_elems(self@, keep), rest_filtered_view));
                    }
                    rest_filtered
                }
            },
        }
    }
}

/// The three-element sample list holding 9, 15 and 21 in head-to-tail
/// order, built by prepending 21, then 15, then 9 onto the empty list.
pub fn test_list() -> (r: List<i64>)
    ensures
        r@ == seq![9i64, 15i64, 21i64],
{
    let r = List::empty().append(21).append(15).append(9);
    proof {
        assert(r@ =~= seq![9i64, 15i64, 21i64]);
    }
    r
}

} // verus!
