use vstd::prelude::*;

verus! {

/// Keys of the ordered maps: each key has an integer rank, and keys are ordered by rank.
/// Distinct keys have distinct ranks.
pub trait OrderedKey: Sized + Copy {
    /// The position of the key on the integer line.
    spec fn rank(&self) -> int;

    /// Keys of equal rank are equal.
    proof fn lemma_rank_injective(a: Self, b: Self)
        ensures
            a.rank() == b.rank() ==> a == b,
    ;

    /// Whether `self` is ordered strictly before `other`.
    fn key_lt(&self, other: &Self) -> (r: bool)
        ensures
            r == (self.rank() < other.rank()),
    ;
}

impl OrderedKey for i32 {
    open spec fn rank(&self) -> int {
        *self as int
    }

    proof fn lemma_rank_injective(a: Self, b: Self) {
    }

    fn key_lt(&self, other: &Self) -> (r: bool) {
        *self < *other
    }
}

impl OrderedKey for u64 {
    open spec fn rank(&self) -> int {
        *self as int
    }

    proof fn lemma_rank_injective(a: Self, b: Self) {
    }

    fn key_lt(&self, other: &Self) -> (r: bool) {
        *self < *other
    }
}

/// Whether two keys are equal, decided by their order.
pub fn key_eq<K: OrderedKey>(a: &K, b: &K) -> (r: bool)
    ensures
        r == (*a == *b),
{
    proof {
        K::lemma_rank_injective(*a, *b);
    }
    !a.key_lt(b) && !b.key_lt(a)
}

} // verus!

verus! {

/// A clone of `v`, known to Verus as such.
pub fn clone_value<V: Clone>(v: &V) -> (r: V)
    ensures
        cloned(*v, r),
{
    let clone_fn = V::clone;
    clone_fn(v)
}

} // verus!
