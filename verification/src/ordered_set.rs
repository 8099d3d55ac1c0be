use vstd::prelude::*;

use crate::key::OrderedKey;
use crate::ordered_map::OrderedMap;

verus! {

/// An ordered set of keys.
pub struct OrderedSet<K> {
    items: OrderedMap<K, ()>,
}

impl<K: OrderedKey> View for OrderedSet<K> {
    type V = Set<K>;

    closed spec fn view(&self) -> Set<K> {
        self.items@.dom()
    }
}

impl<K: OrderedKey> OrderedSet<K> {
    /// Internal consistency of the set.
    pub closed spec fn well_formed(&self) -> bool {
        self.items.well_formed()
    }

    /// The set is finite.
    pub proof fn lemma_finite(&self)
        requires
            self.well_formed(),
        ensures
            self@.finite(),
    {
        self.items.lemma_len();
    }

    /// A copy of the set.
    pub fn copied(&self) -> (r: Self)
        requires
            self.well_formed(),
        ensures
            r.well_formed(),
            r@ == self@,
    {
        OrderedSet { items: self.items.copied() }
    }

    /// An empty set.
    pub fn new() -> (s: Self)
        ensures
            s.well_formed(),
            s@ == Set::<K>::empty(),
    {
        let s = OrderedSet { items: OrderedMap::new() };
        assert(s@ =~= Set::<K>::empty());
        s
    }

    /// Whether `item` is in the set.
    pub fn contains_item(&self, item: &K) -> (r: bool)
        requires
            self.well_formed(),
        ensures
            r == self@.contains(*item),
    {
        self.items.contains_key(item)
    }

    /// Adds `item` to the set.
    pub fn add_item(&mut self, item: K)
        requires
            old(self).well_formed(),
        ensures
            final(self).well_formed(),
            final(self)@ == old(self)@.insert(item),
    {
        self.items.insert(item, ());
        assert(self@ =~= old(self)@.insert(item));
    }

    /// Removes `item` from the set.
    pub fn remove_item(&mut self, item: &K)
        requires
            old(self).well_formed(),
        ensures
            final(self).well_formed(),
            final(self)@ == old(self)@.remove(*item),
    {
        self.items.remove(item);
        assert(self@ =~= old(self)@.remove(*item));
    }

    /// Number of items.
    pub fn len(&self) -> (n: usize)
        requires
            self.well_formed(),
        ensures
            n == self@.len(),
    {
        self.items.len()
    }

    /// Whether the set has no item.
    pub fn is_empty(&self) -> (r: bool)
        requires
            self.well_formed(),
        ensures
            r == (self@.len() == 0),
    {
        self.items.is_empty()
    }

    /// The items, in increasing order.
    pub fn to_vec(&self) -> (v: Vec<K>)
        requires
            self.well_formed(),
        ensures
            v@.to_set() == self@,
            v@.no_duplicates(),
            v@.len() == self@.len(),
            forall|i: int, j: int| 0 <= i < j < v@.len() ==> v@[i].rank() < v@[j].rank(),
    {
        let n = self.items.entries.len();
        let mut v: Vec<K> = Vec::new();
        let ghost s = self.items.entries@;
        proof {
            self.items.lemma_repr();
        }
        let mut i: usize = 0;
        while i < n
            invariant
                self.well_formed(),
                s == self.items.entries@,
                n == s.len(),
                i <= n,
                v@.len() == i,
                forall|j: int| 0 <= j < i ==> v@[j] == (#[trigger] s[j]).0,
                crate::ordered_map::sorted_by_rank(s),
            decreases n - i,
        {
            v.push(self.items.entries[i].0);
            i = i + 1;
        }
        proof {
            self.items.lemma_repr();
            assert forall|x: K| #[trigger] v@.to_set().contains(x) == self@.contains(x) by {
                if self@.contains(x) {
                    let j = crate::ordered_map::seq_key_index(s, x);
                    assert(0 <= j < s.len() && s[j].0 == x);
                    assert(v@[j] == x);
                }
                if v@.to_set().contains(x) {
                    let j = choose|j: int| 0 <= j < v@.len() && v@[j] == x;
                    crate::ordered_map::lemma_key_index(s, j);
                }
            }
            assert(v@.to_set() =~= self@);
            assert forall|i: int, j: int| 0 <= i < j < v@.len() implies v@[i].rank() < v@[j].rank() by {
                assert(s[i].0.rank() < s[j].0.rank());
            }
            assert forall|i: int, j: int| 0 <= i < v@.len() && 0 <= j < v@.len() && i != j implies v@[i]
                != v@[j] by {
                if i < j {
                    assert(s[i].0.rank() < s[j].0.rank());
                } else {
                    assert(s[j].0.rank() < s[i].0.rank());
                }
            }
            v@.unique_seq_to_set();
        }
        v
    }

    /// Adds each item of `items` that is not in the set yet; returns those items, in the
    /// order of their first occurrence in `items`.
    pub fn add_items(&mut self, items: &[K]) -> (added: Vec<K>)
        requires
            old(self).well_formed(),
        ensures
            final(self).well_formed(),
            final(self)@ == old(self)@.union(items@.to_set()),
            added@ == items_added(old(self)@, items@),
    {
        let ghost start = self@;
        let mut added: Vec<K> = Vec::new();
        let mut i: usize = 0;
        while i < items.len()
            invariant
                i <= items.len(),
                self.well_formed(),
                self@ == start.union(items@.take(i as int).to_set()),
                added@ == items_added(start, items@.take(i as int)),
            decreases items.len() - i,
        {
            let item = items[i];
            proof {
                lemma_take_step(items@, i as int);
            }
            if !self.contains_item(&item) {
                self.add_item(item);
                added.push(item);
            }
            proof {
                let next = items@.take(i + 1);
                assert(next.drop_last() =~= items@.take(i as int));
                assert(self@ =~= start.union(next.to_set()));
            }
            i += 1;
        }
        assert(items@.take(items.len() as int) =~= items@);
        added
    }

    /// Removes each item of `items` that is in the set; returns those items, in the order of
    /// their first occurrence in `items`.
    pub fn remove_items(&mut self, items: &[K]) -> (removed: Vec<K>)
        requires
            old(self).well_formed(),
        ensures
            final(self).well_formed(),
            final(self)@ == old(self)@.difference(items@.to_set()),
            removed@ == items_removed(old(self)@, items@),
    {
        let ghost start = self@;
        let mut removed: Vec<K> = Vec::new();
        let mut i: usize = 0;
        while i < items.len()
            invariant
                i <= items.len(),
                self.well_formed(),
                self@ == start.difference(items@.take(i as int).to_set()),
                removed@ == items_removed(start, items@.take(i as int)),
            decreases items.len() - i,
        {
            let item = items[i];
            proof {
                lemma_take_step(items@, i as int);
            }
            if self.contains_item(&item) {
                self.remove_item(&item);
                removed.push(item);
            }
            proof {
                let next = items@.take(i + 1);
                assert(next.drop_last() =~= items@.take(i as int));
                assert(self@ =~= start.difference(next.to_set()));
            }
            i += 1;
        }
        assert(items@.take(items.len() as int) =~= items@);
        removed
    }
}

/// The items of `items` that are neither in `present` nor earlier in `items`, in order.
pub open spec fn items_added<K>(present: Set<K>, items: Seq<K>) -> Seq<K>
    decreases items.len(),
{
    if items.len() == 0 {
        Seq::empty()
    } else {
        let earlier = items.drop_last();
        let rest = items_added(present, earlier);
        if present.contains(items.last()) || earlier.contains(items.last()) {
            rest
        } else {
            rest.push(items.last())
        }
    }
}

/// The items of `items` that are in `present`, each at its first occurrence, in order.
pub open spec fn items_removed<K>(present: Set<K>, items: Seq<K>) -> Seq<K>
    decreases items.len(),
{
    if items.len() == 0 {
        Seq::empty()
    } else {
        let earlier = items.drop_last();
        let rest = items_removed(present, earlier);
        if present.contains(items.last()) && !earlier.contains(items.last()) {
            rest.push(items.last())
        } else {
            rest
        }
    }
}

/// Taking one more item of `s` adds that item.
proof fn lemma_take_step<K>(s: Seq<K>, i: int)
    requires
        0 <= i < s.len(),
    ensures
        s.take(i + 1).drop_last() == s.take(i),
        s.take(i + 1).last() == s[i],
        s.take(i + 1).len() == i + 1,
        forall|x: K| #[trigger] s.take(i + 1).to_set().contains(x) <==> (s.take(i).to_set().contains(
            x,
        ) || x == s[i]),
{
    let next = s.take(i + 1);
    assert(next.drop_last() =~= s.take(i));
    assert forall|x: K| #[trigger] next.to_set().contains(x) <==> (s.take(i).to_set().contains(x)
        || x == s[i]) by {
        if next.contains(x) {
            let j = choose|j: int| 0 <= j < next.len() && next[j] == x;
            if j < i {
                assert(s.take(i)[j] == x);
            }
        }
        if x == s[i] {
            assert(next[i] == x);
        }
        if s.take(i).contains(x) {
            let j = choose|j: int| 0 <= j < i && s.take(i)[j] == x;
            assert(next[j] == x);
        }
    }
}

/// The items reported as added are exactly the items that were not present, each once.
pub proof fn law_items_added(present: Set<u64>, items: Seq<u64>)
    ensures
        items_added(present, items).to_set() == items.to_set().difference(present),
        items_added(present, items).no_duplicates(),
    decreases items.len(),
{
    if items.len() > 0 {
        let earlier = items.drop_last();
        law_items_added(present, earlier);
        let rest = items_added(present, earlier);
        let x = items.last();
        assert forall|y: u64| #[trigger] items.to_set().contains(y) <==> (earlier.to_set().contains(
            y,
        ) || y == x) by {
            if items.contains(y) {
                let j = choose|j: int| 0 <= j < items.len() && items[j] == y;
                if j < items.len() - 1 {
                    assert(earlier[j] == y);
                }
            }
            if y == x {
                assert(items[items.len() - 1] == y);
            }
            if earlier.contains(y) {
                let j = choose|j: int| 0 <= j < earlier.len() && earlier[j] == y;
                assert(items[j] == y);
            }
        }
        if !(present.contains(x) || earlier.contains(x)) {
            assert forall|y: u64| #[trigger] rest.push(x).to_set().contains(y) <==> (
            rest.to_set().contains(y) || y == x) by {
                if rest.push(x).contains(y) {
                    let j = choose|j: int| 0 <= j < rest.len() + 1 && rest.push(x)[j] == y;
                    if j < rest.len() {
                        assert(rest[j] == y);
                    }
                }
                if y == x {
                    assert(rest.push(x)[rest.len() as int] == y);
                }
                if rest.contains(y) {
                    let j = choose|j: int| 0 <= j < rest.len() && rest[j] == y;
                    assert(rest.push(x)[j] == y);
                }
            }
            assert(!rest.to_set().contains(x));
            assert(rest.push(x).to_set() =~= items.to_set().difference(present));
        } else {
            assert(rest.to_set() =~= items.to_set().difference(present));
        }
    } else {
        assert(items.to_set() =~= Set::<u64>::empty());
        assert(items_added(present, items).to_set() =~= Set::<u64>::empty());
    }
}

/// The items reported as removed are exactly the items that were present, each once.
pub proof fn law_items_removed(present: Set<u64>, items: Seq<u64>)
    ensures
        items_removed(present, items).to_set() == items.to_set().intersect(present),
        items_removed(present, items).no_duplicates(),
    decreases items.len(),
{
    if items.len() > 0 {
        let earlier = items.drop_last();
        law_items_removed(present, earlier);
        let rest = items_removed(present, earlier);
        let x = items.last();
        assert forall|y: u64| #[trigger] items.to_set().contains(y) <==> (earlier.to_set().contains(
            y,
        ) || y == x) by {
            if items.contains(y) {
                let j = choose|j: int| 0 <= j < items.len() && items[j] == y;
                if j < items.len() - 1 {
                    assert(earlier[j] == y);
                }
            }
            if y == x {
                assert(items[items.len() - 1] == y);
            }
            if earlier.contains(y) {
                let j = choose|j: int| 0 <= j < earlier.len() && earlier[j] == y;
                assert(items[j] == y);
            }
        }
        if present.contains(x) && !earlier.contains(x) {
            assert forall|y: u64| #[trigger] rest.push(x).to_set().contains(y) <==> (
            rest.to_set().contains(y) || y == x) by {
                if rest.push(x).contains(y) {
                    let j = choose|j: int| 0 <= j < rest.len() + 1 && rest.push(x)[j] == y;
                    if j < rest.len() {
                        assert(rest[j] == y);
                    }
                }
                if y == x {
                    assert(rest.push(x)[rest.len() as int] == y);
                }
                if rest.contains(y) {
                    let j = choose|j: int| 0 <= j < rest.len() && rest[j] == y;
                    assert(rest.push(x)[j] == y);
                }
            }
            assert(!rest.to_set().contains(x));
            assert(rest.push(x).to_set() =~= items.to_set().intersect(present));
        } else {
            assert(rest.to_set() =~= items.to_set().intersect(present));
        }
    } else {
        assert(items.to_set() =~= Set::<u64>::empty());
        assert(items_removed(present, items).to_set() =~= Set::<u64>::empty());
    }
}

/// Removing items right after adding them, when none of them was present, gives the set
/// back as it was.
pub proof fn law_remove_undoes_add(present: Set<u64>, items: Seq<u64>)
    requires
        forall|j: int| 0 <= j < items.len() ==> !(#[trigger] present.contains(items[j])),
    ensures
        present.union(items.to_set()).difference(items.to_set()) == present,
{
    assert forall|x: u64| #[trigger] present.contains(x) implies !items.to_set().contains(x) by {
        if items.contains(x) {
            let j = choose|j: int| 0 <= j < items.len() && items[j] == x;
            assert(!present.contains(items[j]));
        }
    }
    assert(present.union(items.to_set()).difference(items.to_set()) =~= present);
}

} // verus!
