//! A total order on key types, with an executable three-way comparison.
//!
//! The merge engine only needs to compare keys, so the requirements on a key
//! type are collected in the [`TotalOrdered`] trait: a specification-level
//! ordering relation `le`, proofs that it is a total order, and an executable
//! `compare` whose result agrees with `le`.

use vstd::prelude::*;

verus! {

/// The outcome of a three-way comparison of two keys.
pub enum Cmp {
    Less,
    Equal,
    Greater,
}

/// A key type with a total order.
///
/// `le` is the specification-level "less than or equal" relation; the proof
/// methods oblige every implementation to show that it really is a total
/// order, and `compare` is the executable comparison the merge engine calls.
pub trait TotalOrdered: Sized {
    spec fn le(self, other: Self) -> bool;

    proof fn reflexive(x: Self)
        ensures
            Self::le(x, x),
    ;

    proof fn transitive(x: Self, y: Self, z: Self)
        requires
            Self::le(x, y),
            Self::le(y, z),
        ensures
            Self::le(x, z),
    ;

    proof fn antisymmetric(x: Self, y: Self)
        requires
            Self::le(x, y),
            Self::le(y, x),
        ensures
            x == y,
    ;

    proof fn total(x: Self, y: Self)
        ensures
            Self::le(x, y) || Self::le(y, x),
    ;

    fn compare(&self, other: &Self) -> (c: Cmp)
        ensures
            match c {
                Cmp::Less => self.le(*other) && self != other,
                Cmp::Equal => self == other,
                Cmp::Greater => other.le(*self) && self != other,
            },
    ;
}

/// Strict "less than" derived from the trait's `le`.
pub open spec fn lt<K: TotalOrdered>(a: K, b: K) -> bool {
    a.le(b) && a != b
}

/// If `a < b` and `b <= c` then `a < c`.
pub proof fn lemma_lt_le<K: TotalOrdered>(a: K, b: K, c: K)
    requires
        lt(a, b),
        b.le(c),
    ensures
        lt(a, c),
{
    K::transitive(a, b, c);
    if a == c {
        K::antisymmetric(b, c);
    }
}

impl TotalOrdered for i32 {
    open spec fn le(self, other: Self) -> bool {
        self <= other
    }

    proof fn reflexive(x: Self) {
    }

    proof fn transitive(x: Self, y: Self, z: Self) {
    }

    proof fn antisymmetric(x: Self, y: Self) {
    }

    proof fn total(x: Self, y: Self) {
    }

    fn compare(&self, other: &Self) -> (c: Cmp) {
        if *self < *other {
            Cmp::Less
        } else if *self == *other {
            Cmp::Equal
        } else {
            Cmp::Greater
        }
    }
}

impl TotalOrdered for u64 {
    open spec fn le(self, other: Self) -> bool {
        self <= other
    }

    proof fn reflexive(x: Self) {
    }

    proof fn transitive(x: Self, y: Self, z: Self) {
    }

    proof fn antisymmetric(x: Self, y: Self) {
    }

    proof fn total(x: Self, y: Self) {
    }

    fn compare(&self, other: &Self) -> (c: Cmp) {
        if *self < *other {
            Cmp::Less
        } else if *self == *other {
            Cmp::Equal
        } else {
            Cmp::Greater
        }
    }
}

} // verus!
