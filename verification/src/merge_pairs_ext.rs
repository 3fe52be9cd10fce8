//! Method-style sugar for invoking the merge.
//!
//! A sorted pair sequence that implements [`MergePairsExt`] gains a `merge`
//! method with exactly the semantics of [`MergePairs::merge`]; it adds no
//! behaviour of its own.

use vstd::prelude::*;

use crate::merge::MergePairs;
use crate::order::TotalOrdered;

verus! {

/// Lets a sorted pair sequence invoke the merge as a method, with itself as
/// the left input.
pub trait MergePairsExt<K, V>: Sized where K: TotalOrdered {
    /// The pairs the sequence produces, in order.
    spec fn pairs_view(self) -> Seq<(K, V)>;

    /// Merges `self`, as the left input, with an optional right input,
    /// delegating to [`MergePairs::merge`].
    fn merge<F: Fn(V, V) -> V>(self, right: Option<Self>, merge_value: F) -> (m: MergePairs<
        K,
        V,
        F,
    >)
        ensures
            m.left_view() == self.pairs_view(),
            m.func() == merge_value,
            match right {
                Option::Some(r) => m.right_view() == Option::Some(r.pairs_view()),
                Option::None => m.right_view() is None,
            },
    ;
}

impl<K: TotalOrdered, V> MergePairsExt<K, V> for Vec<(K, V)> {
    open spec fn pairs_view(self) -> Seq<(K, V)> {
        self@
    }

    fn merge<F: Fn(V, V) -> V>(self, right: Option<Self>, merge_value: F) -> (m: MergePairs<
        K,
        V,
        F,
    >) {
        MergePairs::merge(self, right, merge_value)
    }
}

} // verus!
