//! A pull-based producer of `(key, value)` pairs.
//!
//! [`SortedPairs`] is the concrete sequence the merge engine consumes: it is
//! built from a vector of pairs and hands them out one at a time, front to
//! back, through `next`. The pairs are stored in reverse so that each pull
//! is a single pop from the end of the vector.

use vstd::prelude::*;

verus! {

/// A sequence of pairs, consumed destructively from the front by `next`.
///
/// The name records the caller-enforced contract that successive keys are
/// strictly ascending; nothing here checks it, and the contracts of `next`
/// do not depend on it.
pub struct SortedPairs<K, V> {
    /// The pairs not yet produced, in reverse order: the next pair to hand
    /// out is the last element.
    stack: Vec<(K, V)>,
}

impl<K, V> SortedPairs<K, V> {
    /// The pairs not yet produced, in the order they will be produced.
    pub closed spec fn remaining(self) -> Seq<(K, V)> {
        self.stack@.reverse()
    }

    /// Wraps a vector of pairs as a producer that yields them front to back.
    pub fn new(items: Vec<(K, V)>) -> (s: Self)
        ensures
            s.remaining() == items@,
    {
        let ghost orig = items@;
        let mut items = items;
        let mut stack: Vec<(K, V)> = Vec::new();
        proof {
            assert(items@ =~= orig.take(items@.len() as int));
            assert(stack@ =~= orig.skip(items@.len() as int).reverse());
        }
        while items.len() > 0
            invariant
                items@.len() <= orig.len(),
                items@ == orig.take(items@.len() as int),
                stack@ == orig.skip(items@.len() as int).reverse(),
            decreases items@.len(),
        {
            let ghost pre = items@;
            let p = items.pop().unwrap();
            stack.push(p);
            proof {
                let n = items@.len() as int;
                assert(pre.len() == n + 1);
                assert(p == pre[n]);
                assert(pre[n] == orig.take(n + 1)[n]);
                assert(items@ =~= orig.take(n));
                assert(stack@ =~= orig.skip(n).reverse());
            }
        }
        proof {
            assert(stack@.reverse() =~= orig);
        }
        SortedPairs { stack }
    }

    /// Consumes and returns the next pair, or `None` when exhausted.
    pub fn next(&mut self) -> (r: Option<(K, V)>)
        ensures
            match r {
                Option::None => {
                    &&& old(self).remaining().len() == 0
                    &&& final(self).remaining() == old(self).remaining()
                },
                Option::Some(p) => {
                    &&& old(self).remaining().len() > 0
                    &&& p == old(self).remaining()[0]
                    &&& final(self).remaining() == old(self).remaining().drop_first()
                },
            },
    {
        let r = self.stack.pop();
        proof {
            let o = old(self).stack@;
            if o.len() > 0 {
                assert(o.reverse()[0] == o[o.len() - 1]);
                assert(self.remaining() =~= old(self).remaining().drop_first());
            } else {
                assert(self.remaining() =~= old(self).remaining());
            }
        }
        r
    }
}

} // verus!
