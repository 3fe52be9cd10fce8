//! The merge engine and its optional-right variant.
//!
//! [`MergePair`] merges two sorted pair sequences lazily: each call of
//! `next` peeks at most one key on each side, consumes one pair (or, on a
//! key collision, one from each side) and produces one output pair. The
//! contracts relate every step to [`merge_model`]. [`MergePairs`] adds the
//! optional right input: when it is absent, `next` forwards to the left
//! sequence and the combining function is never invoked.

use vstd::prelude::*;

use crate::lookahead::Lookahead;
use crate::model::MergeSource;
use crate::model::all_combine_ok;
use crate::model::merge_model;
use crate::model::pass_through_model;
use crate::model::source_combine_ok;
use crate::model::value_matches;
use crate::order::Cmp;
use crate::order::lt;
use crate::order::TotalOrdered;
use crate::source::SortedPairs;

verus! {

/// The two-input merge engine.
///
/// Pulls from two lookahead-wrapped pair sequences, assumed each sorted in
/// strictly ascending key order, and produces the merged sequence pair by
/// pair. Keys present in both inputs are reduced by the combining function,
/// invoked with the left value as its first argument.
#[verifier::reject_recursive_types(V)]
pub struct MergePair<K, V, F> where K: TotalOrdered, F: Fn(V, V) -> V {
    left: Lookahead<K, V>,
    right: Lookahead<K, V>,
    merge_value: F,
}

impl<K, V, F> MergePair<K, V, F> where K: TotalOrdered, F: Fn(V, V) -> V {
    /// The pairs of the left input not yet consumed.
    pub closed spec fn left_view(self) -> Seq<(K, V)> {
        self.left.remaining()
    }

    /// The pairs of the right input not yet consumed.
    pub closed spec fn right_view(self) -> Seq<(K, V)> {
        self.right.remaining()
    }

    /// The combining function.
    pub closed spec fn func(self) -> F {
        self.merge_value
    }

    /// The model of the output still to be produced.
    pub open spec fn pending(self) -> Seq<(K, MergeSource<V>)> {
        merge_model(self.left_view(), self.right_view())
    }

    /// Binds the two inputs and the combining function. Nothing is consumed
    /// until `next` is called.
    pub fn merge(left: Vec<(K, V)>, right: Vec<(K, V)>, merge_value: F) -> (m: Self)
        ensures
            m.left_view() == left@,
            m.right_view() == right@,
            m.func() == merge_value,
    {
        MergePair {
            left: Lookahead::new(SortedPairs::new(left)),
            right: Lookahead::new(SortedPairs::new(right)),
            merge_value,
        }
    }

    /// Produces the next merged pair, or `None` once both inputs are
    /// exhausted. The pair's key and the origin of its value are those of
    /// the head of the pending model, which shrinks by exactly that entry.
    pub fn next(&mut self) -> (r: Option<(K, V)>)
        requires
            old(self).pending().len() > 0 ==> source_combine_ok(
                old(self).pending()[0].1,
                old(self).func(),
            ),
        ensures
            final(self).func() == old(self).func(),
            match r {
                Option::None => {
                    &&& old(self).pending().len() == 0
                    &&& final(self).pending() == old(self).pending()
                },
                Option::Some(p) => {
                    &&& old(self).pending().len() > 0
                    &&& p.0 == old(self).pending()[0].0
                    &&& value_matches(old(self).pending()[0].1, p.1, old(self).func())
                    &&& final(self).pending() == old(self).pending().drop_first()
                },
            },
    {
        let ghost l = old(self).left_view();
        let ghost rv = old(self).right_view();

        // Left input exhausted: drain the remainder of the right.
        if self.left.peek().is_none() {
            let r = self.right.next();
            proof {
                if rv.len() > 0 {
                    assert(old(self).pending() =~= seq![(rv[0].0, MergeSource::RightOnly(rv[0].1))]
                        + merge_model(l, rv.drop_first()));
                    assert(self.pending() =~= old(self).pending().drop_first());
                }
            }
            return r;
        }
        // Right input exhausted: drain the remainder of the left.
        if self.right.peek().is_none() {
            let r = self.left.next();
            proof {
                assert(old(self).pending() =~= seq![(l[0].0, MergeSource::LeftOnly(l[0].1))]
                    + merge_model(l.drop_first(), rv));
                assert(self.pending() =~= old(self).pending().drop_first());
            }
            return r;
        }
        // Both inputs have a pair: compare the peeked keys.
        let c = {
            let lp = self.left.peek().unwrap();
            let rp = self.right.peek().unwrap();
            lp.0.compare(&rp.0)
        };
        match c {
            Cmp::Less => {
                let r = self.left.next();
                proof {
                    assert(old(self).pending() =~= seq![(l[0].0, MergeSource::LeftOnly(l[0].1))]
                        + merge_model(l.drop_first(), rv));
                    assert(self.pending() =~= old(self).pending().drop_first());
                }
                r
            },
            Cmp::Greater => {
                let r = self.right.next();
                proof {
                    if lt(l[0].0, rv[0].0) {
                        K::antisymmetric(l[0].0, rv[0].0);
                    }
                    assert(old(self).pending() =~= seq![(rv[0].0, MergeSource::RightOnly(rv[0].1))]
                        + merge_model(l, rv.drop_first()));
                    assert(self.pending() =~= old(self).pending().drop_first());
                }
                r
            },
            Cmp::Equal => {
                proof {
                    assert(old(self).pending() =~= seq![(l[0].0, MergeSource::Both(
                        l[0].1,
                        rv[0].1,
                    ))] + merge_model(l.drop_first(), rv.drop_first()));
                }
                let (k, left_value) = self.left.next().unwrap();
                let (_, right_value) = self.right.next().unwrap();
                let v = (self.merge_value)(left_value, right_value);
                proof {
                    assert(self.pending() =~= old(self).pending().drop_first());
                }
                Some((k, v))
            },
        }
    }

    /// Drives the merge to the end and collects the whole output. Each
    /// output pair carries the key of the corresponding model entry and a
    /// value that matches the entry's origin.
    pub fn into_vec(self) -> (out: Vec<(K, V)>)
        requires
            all_combine_ok(self.pending(), self.func()),
        ensures
            out@.len() == self.pending().len(),
            forall|i: int|
                0 <= i < out@.len() ==> (#[trigger] out@[i]).0 == self.pending()[i].0
                    && value_matches(self.pending()[i].1, out@[i].1, self.func()),
    {
        let ghost orig = self.pending();
        let ghost f = self.func();
        let mut m = self;
        let mut out: Vec<(K, V)> = Vec::new();
        proof {
            assert(m.pending() =~= orig.skip(0));
        }
        loop
            invariant
                m.func() == f,
                out@.len() <= orig.len(),
                m.pending() == orig.skip(out@.len() as int),
                all_combine_ok(orig, f),
                forall|i: int|
                    0 <= i < out@.len() ==> (#[trigger] out@[i]).0 == orig[i].0 && value_matches(
                        orig[i].1,
                        out@[i].1,
                        f,
                    ),
            ensures
                out@.len() == orig.len(),
                forall|i: int|
                    0 <= i < out@.len() ==> (#[trigger] out@[i]).0 == orig[i].0 && value_matches(
                        orig[i].1,
                        out@[i].1,
                        f,
                    ),
            decreases orig.len() - out@.len(),
        {
            let ghost n = out@.len() as int;
            proof {
                if m.pending().len() > 0 {
                    assert(m.pending()[0] == orig[n]);
                }
            }
            match m.next() {
                Option::None => {
                    proof {
                        assert(orig.skip(n).len() == 0);
                    }
                    break ;
                },
                Option::Some(p) => {
                    proof {
                        assert(m.pending() =~= orig.skip(n + 1));
                    }
                    out.push(p);
                },
            }
        }
        out
    }
}

/// The merge engine with an optional right input.
///
/// With a right input present this behaves exactly as [`MergePair`]; with
/// the right input absent every `next` forwards to the left sequence
/// unchanged and the combining function is never invoked.
#[verifier::reject_recursive_types(V)]
pub struct MergePairs<K, V, F> where K: TotalOrdered, F: Fn(V, V) -> V {
    left: Lookahead<K, V>,
    right: Option<Lookahead<K, V>>,
    merge_value: F,
}

impl<K, V, F> MergePairs<K, V, F> where K: TotalOrdered, F: Fn(V, V) -> V {
    /// The pairs of the left input not yet consumed.
    pub closed spec fn left_view(self) -> Seq<(K, V)> {
        self.left.remaining()
    }

    /// The pairs of the right input not yet consumed, or `None` when the
    /// right input was declared absent.
    pub closed spec fn right_view(self) -> Option<Seq<(K, V)>> {
        match self.right {
            Option::Some(r) => Option::Some(r.remaining()),
            Option::None => Option::None,
        }
    }

    /// The combining function.
    pub closed spec fn func(self) -> F {
        self.merge_value
    }

    /// The model of the output still to be produced: the merged model of
    /// both inputs, or the left input passed through when the right input
    /// is absent.
    pub open spec fn pending(self) -> Seq<(K, MergeSource<V>)> {
        match self.right_view() {
            Option::Some(rv) => merge_model(self.left_view(), rv),
            Option::None => pass_through_model(self.left_view()),
        }
    }

    /// Binds the left input, the optional right input and the combining
    /// function. Nothing is consumed until `next` is called.
    pub fn merge(left: Vec<(K, V)>, right: Option<Vec<(K, V)>>, merge_value: F) -> (m: Self)
        ensures
            m.left_view() == left@,
            m.func() == merge_value,
            match right {
                Option::Some(rv) => m.right_view() == Option::Some(rv@),
                Option::None => m.right_view() is None,
            },
    {
        let right_look = match right {
            Option::Some(rv) => Option::Some(Lookahead::new(SortedPairs::new(rv))),
            Option::None => Option::None,
        };
        MergePairs { left: Lookahead::new(SortedPairs::new(left)), right: right_look, merge_value }
    }

    /// Binds a single sequence, for the degenerate merge with nothing: the
    /// right input is declared absent.
    pub fn single(left: Vec<(K, V)>, merge_value: F) -> (m: Self)
        ensures
            m.left_view() == left@,
            m.func() == merge_value,
            m.right_view() is None,
    {
        MergePairs { left: Lookahead::new(SortedPairs::new(left)), right: None, merge_value }
    }

    /// Produces the next merged pair, or `None` once the inputs are
    /// exhausted. With the right input absent this forwards to the left
    /// sequence; otherwise it performs the same step as [`MergePair::next`].
    pub fn next(&mut self) -> (r: Option<(K, V)>)
        requires
            old(self).pending().len() > 0 ==> source_combine_ok(
                old(self).pending()[0].1,
                old(self).func(),
            ),
        ensures
            final(self).func() == old(self).func(),
            match r {
                Option::None => {
                    &&& old(self).pending().len() == 0
                    &&& final(self).pending() == old(self).pending()
                },
                Option::Some(p) => {
                    &&& old(self).pending().len() > 0
                    &&& p.0 == old(self).pending()[0].0
                    &&& value_matches(old(self).pending()[0].1, p.1, old(self).func())
                    &&& final(self).pending() == old(self).pending().drop_first()
                },
            },
    {
        let ghost l = old(self).left_view();
        match &mut self.right {
            Option::None => {
                // Absent right input: pass the left sequence through; the
                // comparison logic and the combining function are skipped.
                let r = self.left.next();
                proof {
                    if l.len() > 0 {
                        assert(self.pending() =~= old(self).pending().drop_first());
                    }
                }
                r
            },
            Option::Some(right) => {
                let ghost rv = right.remaining();
                // Left input exhausted: drain the remainder of the right.
                if self.left.peek().is_none() {
                    let r = right.next();
                    proof {
                        if rv.len() > 0 {
                            assert(old(self).pending() =~= seq![(rv[0].0, MergeSource::RightOnly(
                                rv[0].1,
                            ))] + merge_model(l, rv.drop_first()));
                            assert(self.pending() =~= old(self).pending().drop_first());
                        }
                    }
                    return r;
                }
                // Right input exhausted: drain the remainder of the left.
                if right.peek().is_none() {
                    let r = self.left.next();
                    proof {
                        assert(old(self).pending() =~= seq![(l[0].0, MergeSource::LeftOnly(
                            l[0].1,
                        ))] + merge_model(l.drop_first(), rv));
                        assert(self.pending() =~= old(self).pending().drop_first());
                    }
                    return r;
                }
                // Both inputs have a pair: compare the peeked keys.
                let c = {
                    let lp = self.left.peek().unwrap();
                    let rp = right.peek().unwrap();
                    lp.0.compare(&rp.0)
                };
                match c {
                    Cmp::Less => {
                        let r = self.left.next();
                        proof {
                            assert(old(self).pending() =~= seq![(l[0].0, MergeSource::LeftOnly(
                                l[0].1,
                            ))] + merge_model(l.drop_first(), rv));
                            assert(self.pending() =~= old(self).pending().drop_first());
                        }
                        r
                    },
                    Cmp::Greater => {
                        let r = right.next();
                        proof {
                            if lt(l[0].0, rv[0].0) {
                                K::antisymmetric(l[0].0, rv[0].0);
                            }
                            assert(old(self).pending() =~= seq![(rv[0].0, MergeSource::RightOnly(
                                rv[0].1,
                            ))] + merge_model(l, rv.drop_first()));
                            assert(self.pending() =~= old(self).pending().drop_first());
                        }
                        r
                    },
                    Cmp::Equal => {
                        proof {
                            assert(old(self).pending() =~= seq![(l[0].0, MergeSource::Both(
                                l[0].1,
                                rv[0].1,
                            ))] + merge_model(l.drop_first(), rv.drop_first()));
                        }
                        let (k, left_value) = self.left.next().unwrap();
                        let (_, right_value) = right.next().unwrap();
                        let v = (self.merge_value)(left_value, right_value);
                        proof {
                            assert(self.pending() =~= old(self).pending().drop_first());
                        }
                        Some((k, v))
                    },
                }
            },
        }
    }

    /// Drives the merge to the end and collects the whole output. Each
    /// output pair carries the key of the corresponding model entry and a
    /// value that matches the entry's origin.
    pub fn into_vec(self) -> (out: Vec<(K, V)>)
        requires
            all_combine_ok(self.pending(), self.func()),
        ensures
            out@.len() == self.pending().len(),
            forall|i: int|
                0 <= i < out@.len() ==> (#[trigger] out@[i]).0 == self.pending()[i].0
                    && value_matches(self.pending()[i].1, out@[i].1, self.func()),
    {
        let ghost orig = self.pending();
        let ghost f = self.func();
        let mut m = self;
        let mut out: Vec<(K, V)> = Vec::new();
        proof {
            assert(m.pending() =~= orig.skip(0));
        }
        loop
            invariant
                m.func() == f,
                out@.len() <= orig.len(),
                m.pending() == orig.skip(out@.len() as int),
                all_combine_ok(orig, f),
                forall|i: int|
                    0 <= i < out@.len() ==> (#[trigger] out@[i]).0 == orig[i].0 && value_matches(
                        orig[i].1,
                        out@[i].1,
                        f,
                    ),
            ensures
                out@.len() == orig.len(),
                forall|i: int|
                    0 <= i < out@.len() ==> (#[trigger] out@[i]).0 == orig[i].0 && value_matches(
                        orig[i].1,
                        out@[i].1,
                        f,
                    ),
            decreases orig.len() - out@.len(),
        {
            let ghost n = out@.len() as int;
            proof {
                if m.pending().len() > 0 {
                    assert(m.pending()[0] == orig[n]);
                }
            }
            match m.next() {
                Option::None => {
                    proof {
                        assert(orig.skip(n).len() == 0);
                    }
                    break ;
                },
                Option::Some(p) => {
                    proof {
                        assert(m.pending() =~= orig.skip(n + 1));
                    }
                    out.push(p);
                },
            }
        }
        out
    }
}

} // verus!
