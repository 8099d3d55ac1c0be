use vstd::prelude::*;

use crate::error::Result;
use crate::key::{clone_value, key_eq, OrderedKey};

verus! {

/// Position of a key to look up in an ordered map.
#[derive(Clone, Copy, Debug)]
pub enum KeyAt<K> {
    /// The smallest key.
    Min,
    /// The largest key.
    Max,
    /// The smallest key strictly above the given one.
    Above(K),
    /// The largest key strictly below the given one.
    Below(K),
}

impl<K: OrderedKey> KeyAt<K> {
    /// Whether the lookup walks upwards (looks for the smallest admitted key).
    pub open spec fn ascending(self) -> bool {
        self is Min || self is Above
    }

    /// Whether key `x` lies in the region that the lookup considers.
    pub open spec fn admits(self, x: K) -> bool {
        match self {
            KeyAt::Min => true,
            KeyAt::Max => true,
            KeyAt::Above(b) => b.rank() < x.rank(),
            KeyAt::Below(b) => x.rank() < b.rank(),
        }
    }

    /// Whether `x` is at least as close to the lookup position as `y`.
    pub open spec fn prefers(self, x: K, y: K) -> bool {
        if self.ascending() {
            x.rank() <= y.rank()
        } else {
            y.rank() <= x.rank()
        }
    }

    /// Exec-mode twin of `ascending`.
    pub fn is_ascending(&self) -> (r: bool)
        ensures
            r == self.ascending(),
    {
        match self {
            KeyAt::Min => true,
            KeyAt::Above(_) => true,
            KeyAt::Max => false,
            KeyAt::Below(_) => false,
        }
    }
}

/// `found` is the key of `dom` that the lookup `at` designates: the closest admitted key,
/// or `None` when `dom` has no admitted key.
pub open spec fn is_key_at<K: OrderedKey>(dom: Set<K>, at: KeyAt<K>, found: Option<K>) -> bool {
    match found {
        None => forall|x: K| #[trigger] dom.contains(x) ==> !at.admits(x),
        Some(k) => {
            &&& dom.contains(k)
            &&& at.admits(k)
            &&& forall|x: K| #[trigger] dom.contains(x) && at.admits(x) ==> at.prefers(k, x)
        },
    }
}

/// The key designated by a lookup is unique.
pub proof fn lemma_key_at_unique<K: OrderedKey>(dom: Set<K>, at: KeyAt<K>, a: Option<K>, b: Option<K>)
    requires
        is_key_at(dom, at, a),
        is_key_at(dom, at, b),
    ensures
        a == b,
{
    match (a, b) {
        (Some(x), Some(y)) => {
            assert(at.prefers(x, y));
            assert(at.prefers(y, x));
            K::lemma_rank_injective(x, y);
        },
        (Some(x), None) => {
            assert(dom.contains(x));
        },
        (None, Some(y)) => {
            assert(dom.contains(y));
        },
        (None, None) => {},
    }
}

/// The key of `dom` that the lookup `at` designates, if there is one.
pub open spec fn key_at<K: OrderedKey>(dom: Set<K>, at: KeyAt<K>) -> Option<K> {
    if exists|k: K| is_key_at(dom, at, Some(k)) {
        Some(choose|k: K| is_key_at(dom, at, Some(k)))
    } else {
        None
    }
}

/// Whatever key a lookup is shown to designate is the one `key_at` names.
pub proof fn lemma_key_at<K: OrderedKey>(dom: Set<K>, at: KeyAt<K>, found: Option<K>)
    requires
        is_key_at(dom, at, found),
    ensures
        key_at(dom, at) == found,
{
    match found {
        Some(k) => {
            assert(is_key_at(dom, at, Some(k)));
            let c = choose|c: K| is_key_at(dom, at, Some(c));
            lemma_key_at_unique(dom, at, Some(k), Some(c));
        },
        None => {
            if exists|k: K| is_key_at(dom, at, Some(k)) {
                let c = choose|c: K| is_key_at(dom, at, Some(c));
                lemma_key_at_unique(dom, at, None, Some(c));
            }
        },
    }
}

/// Entries are sorted by strictly increasing key rank.
pub open spec fn sorted_by_rank<K: OrderedKey, V>(s: Seq<(K, V)>) -> bool {
    forall|i: int, j: int| 0 <= i < j < s.len() ==> (#[trigger] s[i]).0.rank() < (#[trigger] s[j]).0.rank()
}

/// Whether some entry of `s` has key `k`.
pub open spec fn seq_has_key<K, V>(s: Seq<(K, V)>, k: K) -> bool {
    exists|i: int| 0 <= i < s.len() && (#[trigger] s[i]).0 == k
}

/// An index of an entry of `s` with key `k`.
pub open spec fn seq_key_index<K, V>(s: Seq<(K, V)>, k: K) -> int {
    choose|i: int| 0 <= i < s.len() && (#[trigger] s[i]).0 == k
}

/// The map that a sequence of entries describes.
pub open spec fn seq_to_map<K, V>(s: Seq<(K, V)>) -> Map<K, V> {
    Map::new(|k: K| seq_has_key(s, k), |k: K| s[seq_key_index(s, k)].1)
}

/// The keys of a sequence of entries, in order.
pub open spec fn seq_keys<K, V>(s: Seq<(K, V)>) -> Seq<K> {
    s.map_values(|e: (K, V)| e.0)
}

/// In a sorted sequence the entry with a given key is unique.
pub proof fn lemma_key_index<K: OrderedKey, V>(s: Seq<(K, V)>, i: int)
    requires
        sorted_by_rank(s),
        0 <= i < s.len(),
    ensures
        seq_has_key(s, s[i].0),
        seq_key_index(s, s[i].0) == i,
        seq_to_map(s).contains_key(s[i].0),
        seq_to_map(s)[s[i].0] == s[i].1,
{
    let k = s[i].0;
    assert(seq_has_key(s, k));
    let j = seq_key_index(s, k);
    if j < i {
        assert(s[j].0.rank() < s[i].0.rank());
    } else if j > i {
        assert(s[i].0.rank() < s[j].0.rank());
    }
}

/// Inserting a new entry at its sorted position inserts it into the described map.
pub proof fn lemma_insert_new<K: OrderedKey, V>(s: Seq<(K, V)>, p: int, k: K, v: V)
    requires
        sorted_by_rank(s),
        0 <= p <= s.len(),
        forall|i: int| 0 <= i < p ==> (#[trigger] s[i]).0.rank() < k.rank(),
        forall|i: int| p <= i < s.len() ==> k.rank() < (#[trigger] s[i]).0.rank(),
    ensures
        sorted_by_rank(s.insert(p, (k, v))),
        seq_to_map(s.insert(p, (k, v))) == seq_to_map(s).insert(k, v),
        !seq_to_map(s).contains_key(k),
{
    let t = s.insert(p, (k, v));
    assert(sorted_by_rank(t)) by {
        assert forall|i: int, j: int| 0 <= i < j < t.len() implies (#[trigger] t[i]).0.rank() < (
        #[trigger] t[j]).0.rank() by {
            if j < p {
                assert(t[i] == s[i] && t[j] == s[j]);
            } else if j == p {
                assert(t[i] == s[i]);
            } else if i < p {
                assert(t[i] == s[i] && t[j] == s[j - 1]);
            } else if i == p {
                assert(t[j] == s[j - 1]);
            } else {
                assert(t[i] == s[i - 1] && t[j] == s[j - 1]);
            }
        }
    }
    assert(!seq_has_key(s, k)) by {
        if seq_has_key(s, k) {
            let i = seq_key_index(s, k);
            assert(s[i].0 == k);
        }
    }
    let m = seq_to_map(s);
    let mt = seq_to_map(t);
    assert forall|x: K| #[trigger] mt.contains_key(x) == m.insert(k, v).contains_key(x) by {
        if seq_has_key(t, x) {
            let i = seq_key_index(t, x);
            if i < p {
                assert(t[i] == s[i]);
            } else if i > p {
                assert(t[i] == s[i - 1]);
            }
        }
        if seq_has_key(s, x) {
            let i = seq_key_index(s, x);
            if i < p {
                assert(t[i] == s[i]);
            } else {
                assert(t[i + 1] == s[i]);
            }
        }
        if x == k {
            assert(t[p].0 == k);
        }
    }
    assert forall|x: K| #[trigger] mt.contains_key(x) implies mt[x] == m.insert(k, v)[x] by {
        if x == k {
            assert(t[p].0 == k);
            lemma_key_index(t, p);
        } else {
            let i = seq_key_index(t, x);
            if i < p {
                assert(t[i] == s[i]);
                lemma_key_index(t, i);
                lemma_key_index(s, i);
            } else {
                assert(i != p);
                assert(t[i] == s[i - 1]);
                lemma_key_index(t, i);
                lemma_key_index(s, i - 1);
            }
        }
    }
    assert(mt =~= m.insert(k, v));
}

/// Overwriting the value of an entry overwrites it in the described map.
pub proof fn lemma_update_value<K: OrderedKey, V>(s: Seq<(K, V)>, p: int, v: V)
    requires
        sorted_by_rank(s),
        0 <= p < s.len(),
    ensures
        sorted_by_rank(s.update(p, (s[p].0, v))),
        seq_to_map(s.update(p, (s[p].0, v))) == seq_to_map(s).insert(s[p].0, v),
        seq_to_map(s).contains_key(s[p].0),
{
    let k = s[p].0;
    let t = s.update(p, (k, v));
    lemma_key_index(s, p);
    assert(sorted_by_rank(t)) by {
        assert forall|i: int, j: int| 0 <= i < j < t.len() implies (#[trigger] t[i]).0.rank() < (
        #[trigger] t[j]).0.rank() by {
            assert(t[i].0 == s[i].0 && t[j].0 == s[j].0);
        }
    }
    let m = seq_to_map(s);
    let mt = seq_to_map(t);
    assert forall|x: K| #[trigger] mt.contains_key(x) == m.insert(k, v).contains_key(x) by {
        if seq_has_key(t, x) {
            let i = seq_key_index(t, x);
            assert(t[i].0 == s[i].0);
        }
        if seq_has_key(s, x) {
            let i = seq_key_index(s, x);
            assert(t[i].0 == s[i].0);
        }
    }
    assert forall|x: K| #[trigger] mt.contains_key(x) implies mt[x] == m.insert(k, v)[x] by {
        let i = seq_key_index(t, x);
        assert(t[i].0 == s[i].0);
        lemma_key_index(t, i);
        if i != p {
            lemma_key_index(s, i);
        }
    }
    assert(mt =~= m.insert(k, v));
}

/// Removing an entry removes its key from the described map.
pub proof fn lemma_remove_entry<K: OrderedKey, V>(s: Seq<(K, V)>, p: int)
    requires
        sorted_by_rank(s),
        0 <= p < s.len(),
    ensures
        sorted_by_rank(s.remove(p)),
        seq_to_map(s.remove(p)) == seq_to_map(s).remove(s[p].0),
        seq_to_map(s).contains_key(s[p].0),
{
    let k = s[p].0;
    let t = s.remove(p);
    lemma_key_index(s, p);
    assert(sorted_by_rank(t)) by {
        assert forall|i: int, j: int| 0 <= i < j < t.len() implies (#[trigger] t[i]).0.rank() < (
        #[trigger] t[j]).0.rank() by {
            if j < p {
                assert(t[i] == s[i] && t[j] == s[j]);
            } else if i < p {
                assert(t[i] == s[i] && t[j] == s[j + 1]);
            } else {
                assert(t[i] == s[i + 1] && t[j] == s[j + 1]);
            }
        }
    }
    let m = seq_to_map(s);
    let mt = seq_to_map(t);
    assert forall|x: K| #[trigger] mt.contains_key(x) == m.remove(k).contains_key(x) by {
        if seq_has_key(t, x) {
            let i = seq_key_index(t, x);
            if i < p {
                assert(t[i] == s[i]);
                assert(s[i].0.rank() < s[p].0.rank());
            } else {
                assert(t[i] == s[i + 1]);
                assert(s[p].0.rank() < s[i + 1].0.rank());
            }
        }
        if seq_has_key(s, x) && x != k {
            let i = seq_key_index(s, x);
            if i < p {
                assert(t[i] == s[i]);
            } else {
                assert(i != p);
                assert(t[i - 1] == s[i]);
            }
        }
    }
    assert forall|x: K| #[trigger] mt.contains_key(x) implies mt[x] == m.remove(k)[x] by {
        let i = seq_key_index(t, x);
        lemma_key_index(t, i);
        if i < p {
            assert(t[i] == s[i]);
            lemma_key_index(s, i);
        } else {
            assert(t[i] == s[i + 1]);
            lemma_key_index(s, i + 1);
        }
    }
    assert(mt =~= m.remove(k));
}

/// The described map has as many keys as the sequence has entries.
pub proof fn lemma_map_len<K: OrderedKey, V>(s: Seq<(K, V)>)
    requires
        sorted_by_rank(s),
    ensures
        seq_to_map(s).dom().finite(),
        seq_to_map(s).dom().len() == s.len(),
{
    let ks = seq_keys(s);
    assert(ks.no_duplicates()) by {
        assert forall|i: int, j: int| 0 <= i < ks.len() && 0 <= j < ks.len() && i != j implies ks[i]
            != ks[j] by {
            if i < j {
                assert(s[i].0.rank() < s[j].0.rank());
            } else {
                assert(s[j].0.rank() < s[i].0.rank());
            }
        }
    }
    ks.unique_seq_to_set();
    assert forall|x: K| #[trigger] seq_to_map(s).dom().contains(x) == ks.to_set().contains(x) by {
        if seq_has_key(s, x) {
            let i = seq_key_index(s, x);
            assert(ks[i] == x);
        }
        if ks.to_set().contains(x) {
            let i = choose|i: int| 0 <= i < ks.len() && ks[i] == x;
            assert(s[i].0 == x);
        }
    }
    assert(seq_to_map(s).dom() =~= ks.to_set());
}

/// An ordered map: entries kept sorted by key.
pub struct OrderedMap<K, V> {
    pub(crate) entries: Vec<(K, V)>,
}

impl<K: OrderedKey, V> View for OrderedMap<K, V> {
    type V = Map<K, V>;

    closed spec fn view(&self) -> Map<K, V> {
        seq_to_map(self.entries@)
    }
}

impl<K: OrderedKey, V: Copy> OrderedMap<K, V> {
    /// A copy of the map.
    pub fn copied(&self) -> (r: Self)
        requires
            self.well_formed(),
        ensures
            r.well_formed(),
            r@ == self@,
    {
        let mut entries: Vec<(K, V)> = Vec::new();
        let mut i: usize = 0;
        while i < self.entries.len()
            invariant
                i <= self.entries@.len(),
                entries@ == self.entries@.take(i as int),
            decreases self.entries@.len() - i,
        {
            entries.push(self.entries[i]);
            i += 1;
            assert(entries@ =~= self.entries@.take(i as int));
        }
        assert(entries@ =~= self.entries@);
        OrderedMap { entries }
    }
}

impl<K: OrderedKey, V> OrderedMap<K, V> {
    /// The entries are sorted by strictly increasing key.
    pub closed spec fn well_formed(&self) -> bool {
        sorted_by_rank(self.entries@)
    }

    /// The map is the one its sorted entries describe.
    pub(crate) proof fn lemma_repr(&self)
        requires
            self.well_formed(),
        ensures
            sorted_by_rank(self.entries@),
            self@ == seq_to_map(self.entries@),
    {
    }

    /// Number of entries; equals the number of keys of the map.
    pub closed spec fn spec_len(&self) -> nat {
        self.entries@.len()
    }

    /// The map has finitely many keys, as many as `spec_len` counts.
    pub proof fn lemma_len(&self)
        requires
            self.well_formed(),
        ensures
            self@.dom().finite(),
            self@.dom().len() == self.spec_len(),
    {
        lemma_map_len(self.entries@);
    }

    /// The entries of the map, sorted by key.
    pub closed spec fn entries_seq(&self) -> Seq<(K, V)> {
        self.entries@
    }

    /// The sorted entries describe the map, one entry for each key.
    pub proof fn lemma_entries(&self)
        requires
            self.well_formed(),
        ensures
            sorted_by_rank(self.entries_seq()),
            seq_to_map(self.entries_seq()) == self@,
            self.entries_seq().len() == self.spec_len(),
    {
    }

    /// The entry at index `i` of the entries sorted by key.
    pub fn entry_at_index(&self, i: usize) -> (r: (&K, &V))
        requires
            self.well_formed(),
            i < self.spec_len(),
        ensures
            (*r.0, *r.1) == self.entries_seq()[i as int],
    {
        let e = &self.entries[i];
        (&e.0, &e.1)
    }

    /// An empty map.
    pub fn new() -> (m: Self)
        ensures
            m.well_formed(),
            m@ == Map::<K, V>::empty(),
    {
        let m = OrderedMap { entries: Vec::new() };
        assert(m@ =~= Map::<K, V>::empty());
        m
    }

    /// Number of keys in the map.
    pub fn len(&self) -> (n: usize)
        requires
            self.well_formed(),
        ensures
            n == self@.dom().len(),
            n == self.spec_len(),
    {
        proof {
            lemma_map_len(self.entries@);
        }
        self.entries.len()
    }

    /// Whether the map has no key.
    pub fn is_empty(&self) -> (r: bool)
        requires
            self.well_formed(),
        ensures
            r == (self@.dom().len() == 0),
    {
        proof {
            lemma_map_len(self.entries@);
        }
        self.entries.len() == 0
    }

    /// Index of the first entry whose key is not below `k`.
    pub(crate) fn lower_bound(&self, k: &K) -> (p: usize)
        requires
            self.well_formed(),
        ensures
            p <= self.entries@.len(),
            forall|i: int| 0 <= i < p ==> (#[trigger] self.entries@[i]).0.rank() < k.rank(),
            forall|i: int|
                p <= i < self.entries@.len() ==> k.rank() <= (#[trigger] self.entries@[i]).0.rank(),
    {
        let mut lo: usize = 0;
        let mut hi: usize = self.entries.len();
        while lo < hi
            invariant
                self.well_formed(),
                lo <= hi <= self.entries@.len(),
                forall|i: int| 0 <= i < lo ==> (#[trigger] self.entries@[i]).0.rank() < k.rank(),
                forall|i: int|
                    hi <= i < self.entries@.len() ==> k.rank() <= (
                    #[trigger] self.entries@[i]).0.rank(),
            decreases hi - lo,
        {
            let mid = lo + (hi - lo) / 2;
            if self.entries[mid].0.key_lt(k) {
                assert forall|i: int| 0 <= i <= mid implies (#[trigger] self.entries@[i]).0.rank()
                    < k.rank() by {
                    if i < mid {
                        assert(self.entries@[i].0.rank() < self.entries@[mid as int].0.rank());
                    }
                }
                lo = mid + 1;
            } else {
                assert forall|i: int| mid <= i < self.entries@.len() implies k.rank() <= (
                #[trigger] self.entries@[i]).0.rank() by {
                    if i > mid {
                        assert(self.entries@[mid as int].0.rank() < self.entries@[i].0.rank());
                    }
                }
                hi = mid;
            }
        }
        lo
    }

    /// Index of the first entry whose key is above `k`.
    pub(crate) fn upper_bound(&self, k: &K) -> (p: usize)
        requires
            self.well_formed(),
        ensures
            p <= self.entries@.len(),
            forall|i: int| 0 <= i < p ==> (#[trigger] self.entries@[i]).0.rank() <= k.rank(),
            forall|i: int|
                p <= i < self.entries@.len() ==> k.rank() < (#[trigger] self.entries@[i]).0.rank(),
    {
        let mut lo: usize = 0;
        let mut hi: usize = self.entries.len();
        while lo < hi
            invariant
                self.well_formed(),
                lo <= hi <= self.entries@.len(),
                forall|i: int| 0 <= i < lo ==> (#[trigger] self.entries@[i]).0.rank() <= k.rank(),
                forall|i: int|
                    hi <= i < self.entries@.len() ==> k.rank() < (
                    #[trigger] self.entries@[i]).0.rank(),
            decreases hi - lo,
        {
            let mid = lo + (hi - lo) / 2;
            if !k.key_lt(&self.entries[mid].0) {
                assert forall|i: int| 0 <= i <= mid implies (#[trigger] self.entries@[i]).0.rank()
                    <= k.rank() by {
                    if i < mid {
                        assert(self.entries@[i].0.rank() < self.entries@[mid as int].0.rank());
                    }
                }
                lo = mid + 1;
            } else {
                assert forall|i: int| mid <= i < self.entries@.len() implies k.rank() < (
                #[trigger] self.entries@[i]).0.rank() by {
                    if i > mid {
                        assert(self.entries@[mid as int].0.rank() < self.entries@[i].0.rank());
                    }
                }
                hi = mid;
            }
        }
        lo
    }

    /// Index of the entry with key `k`, if any.
    fn find(&self, k: &K) -> (r: Option<usize>)
        requires
            self.well_formed(),
        ensures
            match r {
                Some(i) => i < self.entries@.len() && self.entries@[i as int].0 == *k,
                None => !self@.contains_key(*k),
            },
    {
        let p = self.lower_bound(k);
        if p < self.entries.len() && key_eq(&self.entries[p].0, k) {
            Some(p)
        } else {
            proof {
                if seq_has_key(self.entries@, *k) {
                    let i = seq_key_index(self.entries@, *k);
                    assert(self.entries@[i].0 == *k);
                }
            }
            None
        }
    }

    /// Whether the map has key `k`.
    pub fn contains_key(&self, k: &K) -> (r: bool)
        requires
            self.well_formed(),
        ensures
            r == self@.contains_key(*k),
    {
        match self.find(k) {
            Some(i) => {
                proof {
                    lemma_key_index(self.entries@, i as int);
                }
                true
            },
            None => false,
        }
    }

    /// The value at key `k`, if any.
    pub fn get(&self, k: &K) -> (r: Option<&V>)
        requires
            self.well_formed(),
        ensures
            match r {
                Some(v) => self@.contains_key(*k) && *v == self@[*k],
                None => !self@.contains_key(*k),
            },
    {
        match self.find(k) {
            Some(i) => {
                proof {
                    lemma_key_index(self.entries@, i as int);
                }
                Some(&self.entries[i].1)
            },
            None => None,
        }
    }

    /// Sets the value at key `k`; returns the value it replaces, if any.
    pub fn insert(&mut self, k: K, v: V) -> (old_value: Option<V>)
        requires
            old(self).well_formed(),
        ensures
            final(self).well_formed(),
            final(self)@ == old(self)@.insert(k, v),
            match old_value {
                Some(w) => old(self)@.contains_key(k) && w == old(self)@[k],
                None => !old(self)@.contains_key(k),
            },
    {
        let p = self.lower_bound(&k);
        if p < self.entries.len() && key_eq(&self.entries[p].0, &k) {
            proof {
                lemma_update_value(self.entries@, p as int, v);
                lemma_key_index(self.entries@, p as int);
            }
            let ghost s = self.entries@;
            let (_, w) = self.entries.remove(p);
            self.entries.insert(p, (k, v));
            assert(self.entries@ =~= s.update(p as int, (k, v)));
            Some(w)
        } else {
            proof {
                if p < self.entries@.len() {
                    K::lemma_rank_injective(k, self.entries@[p as int].0);
                }
                assert forall|i: int| p <= i < self.entries@.len() implies k.rank() < (
                #[trigger] self.entries@[i]).0.rank() by {
                    if i > p {
                        assert(self.entries@[p as int].0.rank() < self.entries@[i].0.rank());
                    }
                }
                lemma_insert_new(self.entries@, p as int, k, v);
            }
            self.entries.insert(p, (k, v));
            None
        }
    }

    /// Removes key `k`; returns the value it had, if any.
    pub fn remove(&mut self, k: &K) -> (old_value: Option<V>)
        requires
            old(self).well_formed(),
        ensures
            final(self).well_formed(),
            final(self)@ == old(self)@.remove(*k),
            match old_value {
                Some(w) => old(self)@.contains_key(*k) && w == old(self)@[*k],
                None => !old(self)@.contains_key(*k),
            },
    {
        match self.find(k) {
            Some(i) => {
                proof {
                    lemma_remove_entry(self.entries@, i as int);
                    lemma_key_index(self.entries@, i as int);
                }
                let (_, w) = self.entries.remove(i);
                Some(w)
            },
            None => {
                assert(old(self)@.remove(*k) =~= old(self)@);
                None
            },
        }
    }

    /// Removes all keys.
    pub fn clear(&mut self)
        ensures
            final(self).well_formed(),
            final(self)@ == Map::<K, V>::empty(),
    {
        self.entries.clear();
        assert(self@ =~= Map::<K, V>::empty());
    }

    /// Index of the entry that the lookup `at` designates, if any.
    fn index_at(&self, at: &KeyAt<K>) -> (r: Option<usize>)
        requires
            self.well_formed(),
        ensures
            match r {
                Some(i) => i < self.entries@.len() && is_key_at(
                    self@.dom(),
                    *at,
                    Some(self.entries@[i as int].0),
                ),
                None => is_key_at(self@.dom(), *at, None),
            },
    {
        let n = self.entries.len();
        let r = match at {
            KeyAt::Min => {
                if n > 0 {
                    Some(0)
                } else {
                    None
                }
            },
            KeyAt::Max => {
                if n > 0 {
                    Some(n - 1)
                } else {
                    None
                }
            },
            KeyAt::Above(b) => {
                let p = self.upper_bound(b);
                if p < n {
                    Some(p)
                } else {
                    None
                }
            },
            KeyAt::Below(b) => {
                let p = self.lower_bound(b);
                if p > 0 {
                    Some(p - 1)
                } else {
                    None
                }
            },
        };
        proof {
            let s = self.entries@;
            let dom = self@.dom();
            assert forall|x: K| #[trigger] dom.contains(x) implies exists|j: int|
                0 <= j < s.len() && s[j].0 == x by {
                let j = seq_key_index(s, x);
                assert(s[j].0 == x);
            }
            match r {
                Some(i) => {
                    lemma_key_index(s, i as int);
                    assert forall|x: K| #[trigger] dom.contains(x) && at.admits(x) implies at.prefers(
                        s[i as int].0,
                        x,
                    ) by {
                        let j = choose|j: int| 0 <= j < s.len() && s[j].0 == x;
                        if j < i {
                            assert(s[j].0.rank() < s[i as int].0.rank());
                        } else if j > i {
                            assert(s[i as int].0.rank() < s[j].0.rank());
                        }
                    }
                },
                None => {
                    assert forall|x: K| #[trigger] dom.contains(x) implies !at.admits(x) by {
                        let j = choose|j: int| 0 <= j < s.len() && s[j].0 == x;
                        assert(s[j].0 == x);
                    }
                },
            }
        }
        r
    }

    /// The entry that the lookup `at` designates: the smallest key (`Min`), the largest (`Max`),
    /// the smallest above a key (`Above`) or the largest below a key (`Below`).
    pub fn entry_at(&self, at: &KeyAt<K>) -> (r: Option<(&K, &V)>)
        requires
            self.well_formed(),
        ensures
            match r {
                Some((k, v)) => is_key_at(self@.dom(), *at, Some(*k)) && *v == self@[*k],
                None => is_key_at(self@.dom(), *at, None),
            },
    {
        match self.index_at(at) {
            Some(i) => {
                proof {
                    lemma_key_index(self.entries@, i as int);
                }
                let e = &self.entries[i];
                Some((&e.0, &e.1))
            },
            None => None,
        }
    }
}

impl<K: OrderedKey, V: Clone> OrderedMap<K, V> {
    /// Applies `update_fn` to a copy of the value at `key`; the copy is stored only if
    /// `update_fn` succeeds. Returns `None` if there is no such key.
    pub fn update<R, F: FnOnce(&mut V) -> Result<R>>(&mut self, key: &K, update_fn: F) -> (r: Option<Result<R>>)
        requires
            old(self).well_formed(),
            forall|v: &mut V| call_requires(update_fn, (v,)),
        ensures
            final(self).well_formed(),
            match r {
                None => !old(self)@.contains_key(*key) && final(self)@ == old(self)@,
                Some(res) => old(self)@.contains_key(*key) && exists|v: &mut V|
                    #![trigger call_ensures(update_fn, (v,), res)]
                    {
                        &&& cloned(old(self)@[*key], *v)
                        &&& call_ensures(update_fn, (v,), res)
                        &&& res is Ok ==> final(self)@ == old(self)@.insert(*key, *final(v))
                        &&& res is Err ==> final(self)@ == old(self)@
                    },
            },
    {
        let mut value = match self.get(key) {
            Some(v) => clone_value(v),
            None => {
                return None;
            },
        };
        let ghost v0 = value;
        let result = update_fn(&mut value);
        let ghost w = choose|v: &mut V|
            *v == v0 && *final(v) == value && call_ensures(update_fn, (v,), result);
        if result.is_ok() {
            self.insert(*key, value);
        }
        assert(cloned(old(self)@[*key], *w));
        assert(result is Ok ==> final(self)@ == old(self)@.insert(*key, *final(w)));
        Some(result)
    }

    /// Updates the value at `key` with `update_fn` (told `true`), or, if there is no such key,
    /// makes a value with `factory_fn`, updates it with `update_fn` (told `false`) and inserts
    /// it. Nothing is stored unless `update_fn` succeeds.
    pub fn update_or_insert<R, F, U>(&mut self, key: &K, factory_fn: F, update_fn: U) -> (r: Result<R>)
        where
            F: FnOnce() -> Result<V>,
            U: FnOnce(&mut V, bool) -> Result<R>,
        requires
            old(self).well_formed(),
            call_requires(factory_fn, ()),
            forall|v: &mut V, b: bool| call_requires(update_fn, (v, b)),
        ensures
            final(self).well_formed(),
            old(self)@.contains_key(*key) ==> exists|v: &mut V|
                #![trigger call_ensures(update_fn, (v, true), r)]
                {
                    &&& cloned(old(self)@[*key], *v)
                    &&& call_ensures(update_fn, (v, true), r)
                    &&& r is Ok ==> final(self)@ == old(self)@.insert(*key, *final(v))
                    &&& r is Err ==> final(self)@ == old(self)@
                },
            !old(self)@.contains_key(*key) ==> exists|made: Result<V>|
                #![trigger call_ensures(factory_fn, (), made)]
                {
                    &&& call_ensures(factory_fn, (), made)
                    &&& made is Err ==> r == Err::<R, _>(made->Err_0) && final(self)@ == old(self)@
                    &&& made is Ok ==> exists|v: &mut V|
                        #![trigger call_ensures(update_fn, (v, false), r)]
                        {
                            &&& *v == made->Ok_0
                            &&& call_ensures(update_fn, (v, false), r)
                            &&& r is Ok ==> final(self)@ == old(self)@.insert(*key, *final(v))
                            &&& r is Err ==> final(self)@ == old(self)@
                        }
                },
    {
        let existing = match self.get(key) {
            Some(v) => Some(clone_value(v)),
            None => None,
        };
        match existing {
            Some(mut value) => {
                let ghost v0 = value;
                let result = update_fn(&mut value, true);
                let ghost w = choose|v: &mut V|
                    *v == v0 && *final(v) == value && call_ensures(update_fn, (v, true), result);
                if result.is_ok() {
                    self.insert(*key, value);
                }
                assert(cloned(old(self)@[*key], *w));
                assert(result is Ok ==> final(self)@ == old(self)@.insert(*key, *final(w)));
                result
            },
            None => {
                let made = factory_fn();
                let ghost made0 = made;
                match made {
                    Err(e) => {
                        assert(call_ensures(factory_fn, (), made0));
                        Err(e)
                    },
                    Ok(mut value) => {
                        let ghost v0 = value;
                        let result = update_fn(&mut value, false);
                        let ghost w = choose|v: &mut V|
                            *v == v0 && *final(v) == value && call_ensures(update_fn, (v, false), result);
                        if result.is_ok() {
                            self.insert(*key, value);
                        }
                        assert(result is Ok ==> final(self)@ == old(self)@.insert(*key, *final(w)));
                        assert(call_ensures(factory_fn, (), made0));
                        result
                    },
                }
            },
        }
    }
}

} // verus!
