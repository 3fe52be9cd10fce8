//! The mathematical model of the merge.
//!
//! [`merge_model`] says, for two input sequences, which key each output
//! position carries and where its value comes from: the left input only, the
//! right input only, or both (a collision, to be reduced by the combining
//! function). The engine's contracts relate every produced pair to this
//! model; the laws about sortedness, key sets and value provenance are
//! proved of the model here.

use vstd::prelude::*;

use crate::order::TotalOrdered;
use crate::order::lt;
use crate::order::lemma_lt_le;

verus! {

/// Where the value of one output pair comes from.
pub enum MergeSource<V> {
    /// The key was present only in the left input, with this value.
    LeftOnly(V),
    /// The key was present only in the right input, with this value.
    RightOnly(V),
    /// The key was present in both inputs; the fields are the left and the
    /// right value, in that order.
    Both(V, V),
}

/// The merged sequence of two inputs, keyed and annotated with the origin
/// of each value: the three-way comparison of the head keys decides which
/// input advances, and equal keys advance both and record a collision.
pub open spec fn merge_model<K: TotalOrdered, V>(l: Seq<(K, V)>, r: Seq<(K, V)>) -> Seq<
    (K, MergeSource<V>),
>
    decreases l.len() + r.len(),
{
    if l.len() == 0 && r.len() == 0 {
        Seq::empty()
    } else if r.len() == 0 {
        seq![(l[0].0, MergeSource::LeftOnly(l[0].1))] + merge_model(l.drop_first(), r)
    } else if l.len() == 0 {
        seq![(r[0].0, MergeSource::RightOnly(r[0].1))] + merge_model(l, r.drop_first())
    } else if lt(l[0].0, r[0].0) {
        seq![(l[0].0, MergeSource::LeftOnly(l[0].1))] + merge_model(l.drop_first(), r)
    } else if lt(r[0].0, l[0].0) {
        seq![(r[0].0, MergeSource::RightOnly(r[0].1))] + merge_model(l, r.drop_first())
    } else {
        seq![(l[0].0, MergeSource::Both(l[0].1, r[0].1))] + merge_model(
            l.drop_first(),
            r.drop_first(),
        )
    }
}

/// The model of merging a sequence with an absent right input: every pair
/// passes through as a left-only entry.
pub open spec fn pass_through_model<K, V>(l: Seq<(K, V)>) -> Seq<(K, MergeSource<V>)> {
    l.map(|i: int, p: (K, V)| (p.0, MergeSource::LeftOnly(p.1)))
}

/// Whether an output value is the right one for its origin: a value present
/// in exactly one input passes through unchanged, and a collision's value is
/// an output of the combining function on (left value, right value).
pub open spec fn value_matches<V, F: Fn(V, V) -> V>(src: MergeSource<V>, out: V, f: F) -> bool {
    match src {
        MergeSource::LeftOnly(v) => out == v,
        MergeSource::RightOnly(v) => out == v,
        MergeSource::Both(a, b) => call_ensures(f, (a, b), out),
    }
}

/// Whether the combining function may be invoked on the values of a
/// collision entry; non-collision entries never invoke it.
pub open spec fn source_combine_ok<V, F: Fn(V, V) -> V>(src: MergeSource<V>, f: F) -> bool {
    match src {
        MergeSource::LeftOnly(v) => true,
        MergeSource::RightOnly(v) => true,
        MergeSource::Both(a, b) => call_requires(f, (a, b)),
    }
}

/// Whether the combining function may be invoked on every collision of a
/// merged model.
pub open spec fn all_combine_ok<K, V, F: Fn(V, V) -> V>(
    model: Seq<(K, MergeSource<V>)>,
    f: F,
) -> bool {
    forall|i: int| 0 <= i < model.len() ==> source_combine_ok(#[trigger] model[i].1, f)
}

/// Whether the keys of a sequence of pairs are strictly ascending.
pub open spec fn keys_ascending<K: TotalOrdered, X>(s: Seq<(K, X)>) -> bool {
    forall|i: int, j: int| #![trigger s[i], s[j]] 0 <= i < j < s.len() ==> lt(s[i].0, s[j].0)
}

/// The set of keys of a sequence of pairs.
pub open spec fn key_set<K, X>(s: Seq<(K, X)>) -> Set<K> {
    Set::new(|k: K| exists|i: int| 0 <= i < s.len() && (#[trigger] s[i]).0 == k)
}

/// Emptiness law: merging two empty inputs yields an empty output.
pub proof fn lemma_empty_inputs<K: TotalOrdered, V>()
    ensures
        merge_model(Seq::<(K, V)>::empty(), Seq::<(K, V)>::empty()) == Seq::<
            (K, MergeSource<V>),
        >::empty(),
{
}

/// Absence-identity law: an output whose pairs match the pass-through model
/// of a sequence is that sequence itself, unchanged; and no entry of that
/// model is a collision, so the combining function is never invoked.
pub proof fn lemma_absence_identity<K, V, F: Fn(V, V) -> V>(l: Seq<(K, V)>, out: Seq<(K, V)>, f: F)
    requires
        out.len() == pass_through_model(l).len(),
        forall|i: int|
            0 <= i < out.len() ==> (#[trigger] out[i]).0 == pass_through_model(l)[i].0
                && value_matches(pass_through_model(l)[i].1, out[i].1, f),
    ensures
        out == l,
        forall|i: int|
            0 <= i < pass_through_model(l).len() ==> !((#[trigger] pass_through_model(l)[i]).1
                is Both),
{
    assert(out =~= l) by {
        assert forall|i: int| 0 <= i < out.len() implies out[i] == l[i] by {
            assert(pass_through_model(l)[i] == (l[i].0, MergeSource::LeftOnly(l[i].1)));
            assert(out[i].0 == l[i].0 && out[i].1 == l[i].1);
        }
    }
}

/// The keys of a sorted sequence stay sorted when the first pair is
/// dropped.
proof fn lemma_ascending_drop_first<K: TotalOrdered, X>(s: Seq<(K, X)>)
    requires
        keys_ascending(s),
        s.len() > 0,
    ensures
        keys_ascending(s.drop_first()),
{
    let t = s.drop_first();
    assert forall|i: int, j: int| 0 <= i < j < t.len() implies lt(t[i].0, t[j].0) by {
        assert(t[i] == s[i + 1]);
        assert(t[j] == s[j + 1]);
    }
}

/// In a sorted sequence, the head key is less than or equal to every key.
proof fn lemma_sorted_head_le<K: TotalOrdered, X>(s: Seq<(K, X)>, i: int)
    requires
        keys_ascending(s),
        0 <= i < s.len(),
    ensures
        s[0].0.le(s[i].0),
{
    if i == 0 {
        K::reflexive(s[0].0);
    } else {
        assert(lt(s[0].0, s[i].0));
    }
}

/// Ascending-output property: for two inputs each sorted in strictly
/// ascending key order, the keys of the merged model are strictly
/// ascending. The second conclusion carries the induction: every output
/// key is bounded below by the head key of one of the inputs.
pub proof fn lemma_ascending<K: TotalOrdered, V>(l: Seq<(K, V)>, r: Seq<(K, V)>)
    requires
        keys_ascending(l),
        keys_ascending(r),
    ensures
        keys_ascending(merge_model(l, r)),
        forall|j: int|
            0 <= j < merge_model(l, r).len() ==> (l.len() > 0 && l[0].0.le(
                (#[trigger] merge_model(l, r)[j]).0,
            )) || (r.len() > 0 && r[0].0.le(merge_model(l, r)[j].0)),
    decreases l.len() + r.len(),
{
    let m = merge_model(l, r);
    if l.len() == 0 && r.len() == 0 {
    } else if r.len() == 0 || (l.len() > 0 && lt(l[0].0, r[0].0)) {
        // The head comes from the left input.
        let h = l[0].0;
        let t = merge_model(l.drop_first(), r);
        lemma_ascending_drop_first(l);
        lemma_ascending(l.drop_first(), r);
        assert(m == seq![(l[0].0, MergeSource::LeftOnly(l[0].1))] + t);
        assert forall|j: int| 0 <= j < t.len() implies lt(h, t[j].0) by {
            if l.drop_first().len() > 0 && l.drop_first()[0].0.le(t[j].0) {
                assert(l.drop_first()[0] == l[1]);
                assert(lt(h, l[1].0));
                lemma_lt_le(h, l[1].0, t[j].0);
            } else {
                lemma_lt_le(h, r[0].0, t[j].0);
            }
        }
        assert forall|i: int, j: int| 0 <= i < j < m.len() implies lt(m[i].0, m[j].0) by {
            assert(m[j] == t[j - 1]);
            if i > 0 {
                assert(m[i] == t[i - 1]);
            }
        }
        assert forall|j: int| 0 <= j < m.len() implies l[0].0.le((#[trigger] m[j]).0) by {
            if j == 0 {
                K::reflexive(h);
            } else {
                assert(m[j] == t[j - 1]);
            }
        }
    } else if l.len() == 0 || (r.len() > 0 && lt(r[0].0, l[0].0)) {
        // The head comes from the right input.
        let h = r[0].0;
        let t = merge_model(l, r.drop_first());
        lemma_ascending_drop_first(r);
        lemma_ascending(l, r.drop_first());
        assert(m == seq![(r[0].0, MergeSource::RightOnly(r[0].1))] + t);
        assert forall|j: int| 0 <= j < t.len() implies lt(h, t[j].0) by {
            if l.len() > 0 && l[0].0.le(t[j].0) {
                lemma_lt_le(h, l[0].0, t[j].0);
            } else {
                assert(r.drop_first()[0] == r[1]);
                assert(lt(h, r[1].0));
                lemma_lt_le(h, r[1].0, t[j].0);
            }
        }
        assert forall|i: int, j: int| 0 <= i < j < m.len() implies lt(m[i].0, m[j].0) by {
            assert(m[j] == t[j - 1]);
            if i > 0 {
                assert(m[i] == t[i - 1]);
            }
        }
        assert forall|j: int| 0 <= j < m.len() implies r[0].0.le((#[trigger] m[j]).0) by {
            if j == 0 {
                K::reflexive(h);
            } else {
                assert(m[j] == t[j - 1]);
            }
        }
    } else {
        // A collision: the heads of both inputs carry the same key.
        let h = l[0].0;
        lemma_heads_equal_on_collision(l[0].0, r[0].0);
        let t = merge_model(l.drop_first(), r.drop_first());
        lemma_ascending_drop_first(l);
        lemma_ascending_drop_first(r);
        lemma_ascending(l.drop_first(), r.drop_first());
        assert(m == seq![(l[0].0, MergeSource::Both(l[0].1, r[0].1))] + t);
        assert forall|j: int| 0 <= j < t.len() implies lt(h, t[j].0) by {
            if l.drop_first().len() > 0 && l.drop_first()[0].0.le(t[j].0) {
                assert(l.drop_first()[0] == l[1]);
                assert(lt(h, l[1].0));
                lemma_lt_le(h, l[1].0, t[j].0);
            } else {
                assert(r.drop_first()[0] == r[1]);
                assert(lt(r[0].0, r[1].0));
                lemma_lt_le(r[0].0, r[1].0, t[j].0);
            }
        }
        assert forall|i: int, j: int| 0 <= i < j < m.len() implies lt(m[i].0, m[j].0) by {
            assert(m[j] == t[j - 1]);
            if i > 0 {
                assert(m[i] == t[i - 1]);
            }
        }
        assert forall|j: int| 0 <= j < m.len() implies l[0].0.le((#[trigger] m[j]).0) by {
            if j == 0 {
                K::reflexive(h);
            } else {
                assert(m[j] == t[j - 1]);
            }
        }
    }
}

/// The key set of a nonempty sequence is its head key together with the
/// key set of the rest.
proof fn lemma_key_set_cons<K, X>(s: Seq<(K, X)>)
    requires
        s.len() > 0,
    ensures
        key_set(s) == key_set(s.drop_first()).insert(s[0].0),
{
    let t = s.drop_first();
    assert(key_set(s) =~= key_set(t).insert(s[0].0)) by {
        assert forall|k: K| key_set(s).contains(k) implies key_set(t).insert(s[0].0).contains(
            k,
        ) by {
            let i = choose|i: int| 0 <= i < s.len() && (#[trigger] s[i]).0 == k;
            if i > 0 {
                assert(t[i - 1] == s[i]);
                assert(key_set(t).contains(k));
            }
        }
        assert forall|k: K| key_set(t).insert(s[0].0).contains(k) implies key_set(s).contains(
            k,
        ) by {
            if key_set(t).contains(k) {
                let i = choose|i: int| 0 <= i < t.len() && (#[trigger] t[i]).0 == k;
                assert(s[i + 1] == t[i]);
            } else {
                assert(s[0].0 == k);
            }
        }
    }
}

/// Union-of-keys property: the set of output keys of the merged model is
/// the union of the two input key sets.
pub proof fn lemma_union_of_keys<K: TotalOrdered, V>(l: Seq<(K, V)>, r: Seq<(K, V)>)
    ensures
        key_set(merge_model(l, r)) == key_set(l).union(key_set(r)),
    decreases l.len() + r.len(),
{
    let m = merge_model(l, r);
    if l.len() == 0 && r.len() == 0 {
        assert(key_set(m) =~= key_set(l).union(key_set(r)));
    } else if r.len() == 0 || (l.len() > 0 && lt(l[0].0, r[0].0)) {
        let t = merge_model(l.drop_first(), r);
        lemma_union_of_keys(l.drop_first(), r);
        assert(m == seq![(l[0].0, MergeSource::LeftOnly(l[0].1))] + t);
        assert(m.drop_first() =~= t);
        lemma_key_set_cons(m);
        lemma_key_set_cons(l);
        assert(key_set(m) =~= key_set(l).union(key_set(r)));
    } else if l.len() == 0 || (r.len() > 0 && lt(r[0].0, l[0].0)) {
        let t = merge_model(l, r.drop_first());
        lemma_union_of_keys(l, r.drop_first());
        assert(m == seq![(r[0].0, MergeSource::RightOnly(r[0].1))] + t);
        assert(m.drop_first() =~= t);
        lemma_key_set_cons(m);
        lemma_key_set_cons(r);
        assert(key_set(m) =~= key_set(l).union(key_set(r)));
    } else {
        lemma_heads_equal_on_collision(l[0].0, r[0].0);
        let t = merge_model(l.drop_first(), r.drop_first());
        lemma_union_of_keys(l.drop_first(), r.drop_first());
        assert(m == seq![(l[0].0, MergeSource::Both(l[0].1, r[0].1))] + t);
        assert(m.drop_first() =~= t);
        lemma_key_set_cons(m);
        lemma_key_set_cons(l);
        lemma_key_set_cons(r);
        assert(key_set(m) =~= key_set(l).union(key_set(r)));
    }
}

/// Where one entry of the merged model takes its value from: a left-only
/// or right-only entry carries a pair of the one input, key not present in
/// the other; a collision entry carries the left and the right value of a
/// key present in both.
pub open spec fn provenance_ok<K, V>(
    l: Seq<(K, V)>,
    r: Seq<(K, V)>,
    e: (K, MergeSource<V>),
) -> bool {
    match e.1 {
        MergeSource::LeftOnly(v) => l.contains((e.0, v)) && !key_set(r).contains(e.0),
        MergeSource::RightOnly(v) => r.contains((e.0, v)) && !key_set(l).contains(e.0),
        MergeSource::Both(a, b) => l.contains((e.0, a)) && r.contains((e.0, b)),
    }
}

/// Membership in a sequence's tail lifts to the sequence.
proof fn lemma_contains_drop_first<T>(s: Seq<T>, x: T)
    requires
        s.len() > 0,
        s.drop_first().contains(x),
    ensures
        s.contains(x),
{
    let i = choose|i: int| 0 <= i < s.drop_first().len() && s.drop_first()[i] == x;
    assert(s[i + 1] == s.drop_first()[i]);
}

/// In a sorted sequence, the head key is less than or equal to the key of
/// every contained pair.
proof fn lemma_head_le_contained_key<K: TotalOrdered, V>(s: Seq<(K, V)>, p: (K, V))
    requires
        keys_ascending(s),
        s.contains(p),
    ensures
        s.len() > 0,
        s[0].0.le(p.0),
{
    let i = choose|i: int| 0 <= i < s.len() && s[i] == p;
    lemma_sorted_head_le(s, i);
}

/// Pass-through and combine-on-collision properties: in the merged model
/// of two sorted inputs, every entry's key and value come from the inputs
/// as [`provenance_ok`] states — a key present in exactly one input keeps
/// that input's value, and a key present in both carries the left and the
/// right value for the combining function.
pub proof fn lemma_provenance<K: TotalOrdered, V>(l: Seq<(K, V)>, r: Seq<(K, V)>)
    requires
        keys_ascending(l),
        keys_ascending(r),
    ensures
        forall|j: int|
            0 <= j < merge_model(l, r).len() ==> provenance_ok(
                l,
                r,
                #[trigger] merge_model(l, r)[j],
            ),
    decreases l.len() + r.len(),
{
    let m = merge_model(l, r);
    if l.len() == 0 && r.len() == 0 {
    } else if r.len() == 0 || (l.len() > 0 && lt(l[0].0, r[0].0)) {
        let t = merge_model(l.drop_first(), r);
        lemma_ascending_drop_first(l);
        lemma_provenance(l.drop_first(), r);
        assert(m == seq![(l[0].0, MergeSource::LeftOnly(l[0].1))] + t);
        assert forall|j: int| 0 <= j < m.len() implies provenance_ok(l, r, #[trigger] m[j]) by {
            if j == 0 {
                assert((l[0].0, l[0].1) == l[0]);
                assert(l.contains(l[0]));
                if key_set(r).contains(l[0].0) {
                    let i = choose|i: int| 0 <= i < r.len() && (#[trigger] r[i]).0 == l[0].0;
                    lemma_sorted_head_le(r, i);
                    lemma_lt_le(l[0].0, r[0].0, r[i].0);
                }
            } else {
                assert(m[j] == t[j - 1]);
                assert(provenance_ok(l.drop_first(), r, t[j - 1]));
                lift_provenance_left(l, r, t[j - 1]);
            }
        }
    } else if l.len() == 0 || (r.len() > 0 && lt(r[0].0, l[0].0)) {
        let t = merge_model(l, r.drop_first());
        lemma_ascending_drop_first(r);
        lemma_provenance(l, r.drop_first());
        assert(m == seq![(r[0].0, MergeSource::RightOnly(r[0].1))] + t);
        assert forall|j: int| 0 <= j < m.len() implies provenance_ok(l, r, #[trigger] m[j]) by {
            if j == 0 {
                assert((r[0].0, r[0].1) == r[0]);
                assert(r.contains(r[0]));
                if key_set(l).contains(r[0].0) {
                    let i = choose|i: int| 0 <= i < l.len() && (#[trigger] l[i]).0 == r[0].0;
                    lemma_sorted_head_le(l, i);
                    lemma_lt_le(r[0].0, l[0].0, l[i].0);
                }
            } else {
                assert(m[j] == t[j - 1]);
                assert(provenance_ok(l, r.drop_first(), t[j - 1]));
                lift_provenance_right(l, r, t[j - 1]);
            }
        }
    } else {
        lemma_heads_equal_on_collision(l[0].0, r[0].0);
        let t = merge_model(l.drop_first(), r.drop_first());
        lemma_ascending_drop_first(l);
        lemma_ascending_drop_first(r);
        lemma_provenance(l.drop_first(), r.drop_first());
        assert(m == seq![(l[0].0, MergeSource::Both(l[0].1, r[0].1))] + t);
        assert forall|j: int| 0 <= j < m.len() implies provenance_ok(l, r, #[trigger] m[j]) by {
            if j == 0 {
                assert((l[0].0, l[0].1) == l[0]);
                assert(l.contains(l[0]));
                assert((l[0].0, r[0].1) == r[0]);
                assert(r.contains(r[0]));
            } else {
                assert(m[j] == t[j - 1]);
                assert(provenance_ok(l.drop_first(), r.drop_first(), t[j - 1]));
                lift_provenance_both(l, r, t[j - 1]);
            }
        }
    }
}

/// Lifts provenance over `(l.drop_first(), r)` to `(l, r)`, in the step
/// where the left head key is below every key of the right input.
proof fn lift_provenance_left<K: TotalOrdered, V>(
    l: Seq<(K, V)>,
    r: Seq<(K, V)>,
    e: (K, MergeSource<V>),
)
    requires
        keys_ascending(l),
        keys_ascending(r),
        l.len() > 0,
        r.len() > 0 ==> lt(l[0].0, r[0].0),
        provenance_ok(l.drop_first(), r, e),
    ensures
        provenance_ok(l, r, e),
{
    match e.1 {
        MergeSource::LeftOnly(v) => {
            lemma_contains_drop_first(l, (e.0, v));
        },
        MergeSource::RightOnly(v) => {
            if key_set(l).contains(e.0) {
                let i = choose|i: int| 0 <= i < l.len() && (#[trigger] l[i]).0 == e.0;
                if i == 0 {
                    // The entry's key is a key of the right input, so it is
                    // at or above the right head, while the left head is
                    // strictly below it.
                    lemma_head_le_contained_key(r, (e.0, v));
                    lemma_lt_le(l[0].0, r[0].0, e.0);
                } else {
                    assert(l.drop_first()[i - 1] == l[i]);
                    assert(key_set(l.drop_first()).contains(e.0));
                }
            }
        },
        MergeSource::Both(a, b) => {
            lemma_contains_drop_first(l, (e.0, a));
        },
    }
}

/// Lifts provenance over `(l, r.drop_first())` to `(l, r)`, in the step
/// where the right head key is below every key of the left input.
proof fn lift_provenance_right<K: TotalOrdered, V>(
    l: Seq<(K, V)>,
    r: Seq<(K, V)>,
    e: (K, MergeSource<V>),
)
    requires
        keys_ascending(l),
        keys_ascending(r),
        r.len() > 0,
        l.len() > 0 ==> lt(r[0].0, l[0].0),
        provenance_ok(l, r.drop_first(), e),
    ensures
        provenance_ok(l, r, e),
{
    match e.1 {
        MergeSource::LeftOnly(v) => {
            if key_set(r).contains(e.0) {
                let i = choose|i: int| 0 <= i < r.len() && (#[trigger] r[i]).0 == e.0;
                if i == 0 {
                    lemma_head_le_contained_key(l, (e.0, v));
                    lemma_lt_le(r[0].0, l[0].0, e.0);
                } else {
                    assert(r.drop_first()[i - 1] == r[i]);
                    assert(key_set(r.drop_first()).contains(e.0));
                }
            }
        },
        MergeSource::RightOnly(v) => {
            lemma_contains_drop_first(r, (e.0, v));
        },
        MergeSource::Both(a, b) => {
            lemma_contains_drop_first(r, (e.0, b));
        },
    }
}

/// Lifts provenance over `(l.drop_first(), r.drop_first())` to `(l, r)`,
/// in the collision step where the two head keys are equal.
proof fn lift_provenance_both<K: TotalOrdered, V>(
    l: Seq<(K, V)>,
    r: Seq<(K, V)>,
    e: (K, MergeSource<V>),
)
    requires
        keys_ascending(l),
        keys_ascending(r),
        l.len() > 0,
        r.len() > 0,
        l[0].0 == r[0].0,
        provenance_ok(l.drop_first(), r.drop_first(), e),
    ensures
        provenance_ok(l, r, e),
{
    match e.1 {
        MergeSource::LeftOnly(v) => {
            lemma_contains_drop_first(l, (e.0, v));
            if key_set(r).contains(e.0) {
                let i = choose|i: int| 0 <= i < r.len() && (#[trigger] r[i]).0 == e.0;
                if i == 0 {
                    // The entry's key comes from behind the left head, so
                    // it lies strictly above it, hence above the equal
                    // right head as well.
                    lemma_head_le_contained_key(l.drop_first(), (e.0, v));
                    assert(l.drop_first()[0] == l[1]);
                    assert(lt(l[0].0, l[1].0));
                    lemma_lt_le(l[0].0, l[1].0, e.0);
                } else {
                    assert(r.drop_first()[i - 1] == r[i]);
                    assert(key_set(r.drop_first()).contains(e.0));
                }
            }
        },
        MergeSource::RightOnly(v) => {
            lemma_contains_drop_first(r, (e.0, v));
            if key_set(l).contains(e.0) {
                let i = choose|i: int| 0 <= i < l.len() && (#[trigger] l[i]).0 == e.0;
                if i == 0 {
                    lemma_head_le_contained_key(r.drop_first(), (e.0, v));
                    assert(r.drop_first()[0] == r[1]);
                    assert(lt(r[0].0, r[1].0));
                    lemma_lt_le(r[0].0, r[1].0, e.0);
                } else {
                    assert(l.drop_first()[i - 1] == l[i]);
                    assert(key_set(l.drop_first()).contains(e.0));
                }
            }
        },
        MergeSource::Both(a, b) => {
            lemma_contains_drop_first(l, (e.0, a));
            lemma_contains_drop_first(r, (e.0, b));
        },
    }
}

/// A contained pair's key is in the key set.
proof fn lemma_contains_key<K, V>(s: Seq<(K, V)>, p: (K, V))
    requires
        s.contains(p),
    ensures
        key_set(s).contains(p.0),
{
    let i = choose|i: int| 0 <= i < s.len() && s[i] == p;
    assert((#[trigger] s[i]).0 == p.0);
}

/// A model entry whose key is absent from the right input passes a left
/// value through: it is a left-only entry, never a collision.
pub proof fn lemma_only_left_is_pass_through<K: TotalOrdered, V>(l: Seq<(K, V)>, r: Seq<(K, V)>, j: int)
    requires
        keys_ascending(l),
        keys_ascending(r),
        0 <= j < merge_model(l, r).len(),
        !key_set(r).contains(merge_model(l, r)[j].0),
    ensures
        merge_model(l, r)[j].1 is LeftOnly,
{
    lemma_provenance(l, r);
    let e = merge_model(l, r)[j];
    match e.1 {
        MergeSource::LeftOnly(v) => {},
        MergeSource::RightOnly(v) => {
            lemma_contains_key(r, (e.0, v));
        },
        MergeSource::Both(a, b) => {
            lemma_contains_key(r, (e.0, b));
        },
    }
}

/// A model entry whose key is absent from the left input passes a right
/// value through: it is a right-only entry, never a collision.
pub proof fn lemma_only_right_is_pass_through<K: TotalOrdered, V>(
    l: Seq<(K, V)>,
    r: Seq<(K, V)>,
    j: int,
)
    requires
        keys_ascending(l),
        keys_ascending(r),
        0 <= j < merge_model(l, r).len(),
        !key_set(l).contains(merge_model(l, r)[j].0),
    ensures
        merge_model(l, r)[j].1 is RightOnly,
{
    lemma_provenance(l, r);
    let e = merge_model(l, r)[j];
    match e.1 {
        MergeSource::LeftOnly(v) => {
            lemma_contains_key(l, (e.0, v));
        },
        MergeSource::RightOnly(v) => {},
        MergeSource::Both(a, b) => {
            lemma_contains_key(l, (e.0, a));
        },
    }
}

/// A model entry whose key is present in both inputs is a collision entry,
/// carrying the left and the right value for the combining function.
pub proof fn lemma_collision_is_combined<K: TotalOrdered, V>(l: Seq<(K, V)>, r: Seq<(K, V)>, j: int)
    requires
        keys_ascending(l),
        keys_ascending(r),
        0 <= j < merge_model(l, r).len(),
        key_set(l).contains(merge_model(l, r)[j].0),
        key_set(r).contains(merge_model(l, r)[j].0),
    ensures
        merge_model(l, r)[j].1 is Both,
{
    lemma_provenance(l, r);
}

/// For sorted inputs, an output whose keys match the merged model position
/// by position — as the collected output of the engine does — has strictly
/// ascending keys, and its key set is the union of the input key sets.
pub proof fn lemma_output_keys<K: TotalOrdered, V, X>(
    l: Seq<(K, V)>,
    r: Seq<(K, V)>,
    out: Seq<(K, X)>,
)
    requires
        keys_ascending(l),
        keys_ascending(r),
        out.len() == merge_model(l, r).len(),
        forall|i: int| 0 <= i < out.len() ==> (#[trigger] out[i]).0 == merge_model(l, r)[i].0,
    ensures
        keys_ascending(out),
        key_set(out) == key_set(l).union(key_set(r)),
{
    let m = merge_model(l, r);
    lemma_ascending(l, r);
    lemma_union_of_keys(l, r);
    assert forall|i: int, j: int| 0 <= i < j < out.len() implies lt(out[i].0, out[j].0) by {
        assert(lt(m[i].0, m[j].0));
    }
    assert(key_set(out) =~= key_set(m)) by {
        assert forall|k: K| key_set(out).contains(k) implies key_set(m).contains(k) by {
            let i = choose|i: int| 0 <= i < out.len() && (#[trigger] out[i]).0 == k;
            assert(m[i].0 == k);
        }
        assert forall|k: K| key_set(m).contains(k) implies key_set(out).contains(k) by {
            let i = choose|i: int| 0 <= i < m.len() && (#[trigger] m[i]).0 == k;
            assert(out[i].0 == k);
        }
    }
}

/// When neither head key is strictly below the other, the two are equal.
proof fn lemma_heads_equal_on_collision<K: TotalOrdered>(a: K, b: K)
    requires
        !lt(a, b),
        !lt(b, a),
    ensures
        a == b,
{
    K::total(a, b);
    if a != b {
        assert(!a.le(b) && !b.le(a));
    }
}

} // verus!
