use vstd::prelude::*;

use crate::error::Result;
use crate::key::{clone_value, OrderedKey};
use crate::ordered_map::{
    is_key_at, key_at, lemma_key_at, lemma_key_index, seq_key_index, seq_to_map, sorted_by_rank, KeyAt, OrderedMap,
};

verus! {

/// The map that modifications `tr` describe on top of `base`: a key with `Some` value in `tr`
/// holds that value, a key with `None` in `tr` is deleted, other keys keep their value in `base`.
pub open spec fn overlay_view<K, V>(base: Map<K, V>, tr: Map<K, Option<V>>) -> Map<K, V> {
    Map::new(
        |k: K|
            if tr.contains_key(k) {
                tr[k] is Some
            } else {
                base.contains_key(k)
            },
        |k: K|
            if tr.contains_key(k) {
                tr[k]->Some_0
            } else {
                base[k]
            },
    )
}

/// `OrderedOverlayMap` tracks modifications on top of an immutable `OrderedMap`.
///
/// It behaves as a mutable copy of the persistent map without copying it: it keeps a reference
/// to the persistent map and records modifications on top of it.
pub struct OrderedOverlayMap<'m, K, V> {
    // Reference to the persistent map; reset to `None` when the overlay is cleared.
    persistent: Option<&'m OrderedMap<K, V>>,
    // Modifications on top of the persistent map: `None` marks a deleted key,
    // `Some` holds the updated value.
    transient: OrderedMap<K, Option<V>>,
    // Number of keys with a value in the resulting map.
    len: usize,
}

/// Iterator over the entries of an `OrderedOverlayMap`.
pub struct OverlayMapIter<'m, K, V> {
    /// The map walked over.
    pub map: OrderedOverlayMap<'m, K, V>,
}

/// Item factory of the overlays that estimations work on; it owns no storage.
#[derive(Clone, Copy, Debug)]
pub struct OverlayItemFactory;

impl OverlayItemFactory {
    /// A new item factory.
    pub fn new() -> (r: Self)
        ensures
            r == OverlayItemFactory,
    {
        OverlayItemFactory
    }
}

impl Default for OverlayItemFactory {
    fn default() -> (r: Self)
        ensures
            r == OverlayItemFactory,
    {
        OverlayItemFactory
    }
}

/// Where the key designated by a lookup was found.
pub enum OverlayMapKey<K> {
    /// In the persistent map, with no modification recorded over it.
    Persistent(K),
    /// Among the modifications, with a value.
    Transient(K),
    /// Nowhere: no key is admitted by the lookup.
    NotFound,
}

impl<'m, K: OrderedKey, V> View for OrderedOverlayMap<'m, K, V> {
    type V = Map<K, V>;

    closed spec fn view(&self) -> Map<K, V> {
        overlay_view(self.base(), self.transient@)
    }
}

impl<'m, K: OrderedKey, V> OrderedOverlayMap<'m, K, V> {
    /// The persistent map, or an empty one once the overlay was cleared.
    pub closed spec fn base(&self) -> Map<K, V> {
        match self.persistent {
            Some(p) => p@,
            None => Map::empty(),
        }
    }

    /// The modifications recorded over the persistent map: a value written, or `None` for a
    /// key removed.
    pub closed spec fn modifications(&self) -> Map<K, Option<V>> {
        self.transient@
    }

    /// Whether the overlay still reads through to a persistent map (it was not cleared).
    pub closed spec fn reads_persistent(&self) -> bool {
        self.persistent is Some
    }
}

impl<'m, K: OrderedKey, V: Clone> OrderedOverlayMap<'m, K, V> {

    /// Internal consistency: both layers are well formed and `len` counts the keys.
    pub closed spec fn well_formed(&self) -> bool {
        &&& self.transient.well_formed()
        &&& match self.persistent {
            Some(p) => p.well_formed(),
            None => true,
        }
        &&& self@.dom().finite()
        &&& self.len == self@.dom().len()
    }

    /// No modification is recorded and the persistent map is empty.
    pub closed spec fn has_no_entries(&self) -> bool {
        &&& self.transient@.dom().len() == 0
        &&& self.base().dom().len() == 0
    }

    /// A well-formed overlay has finitely many keys.
    pub proof fn lemma_well_formed_finite(&self)
        requires
            self.well_formed(),
        ensures
            self@.dom().finite(),
    {
    }

    /// The overlay has finitely many keys.
    proof fn lemma_view_finite(&self)
        requires
            self.transient.well_formed(),
            match self.persistent {
                Some(p) => p.well_formed(),
                None => true,
            },
        ensures
            self@.dom().finite(),
    {
        self.transient.lemma_len();
        match self.persistent {
            Some(p) => p.lemma_len(),
            None => {},
        }
        let u = self.base().dom().union(self.transient@.dom());
        assert(self@.dom().subset_of(u));
        vstd::set_lib::lemma_set_subset_finite(u, self@.dom());
    }

    /// An overlay on top of `persistent`, with no modification yet.
    pub fn new(persistent: &'m OrderedMap<K, V>) -> (m: Self)
        requires
            persistent.well_formed(),
        ensures
            m.well_formed(),
            m@ == persistent@,
            m.modifications() == Map::<K, Option<V>>::empty(),
            m.base() == persistent@,
            m.reads_persistent(),
    {
        let len = persistent.len();
        let m = OrderedOverlayMap { persistent: Some(persistent), transient: OrderedMap::new(), len };
        assert(m@ =~= persistent@);
        proof {
            persistent.lemma_len();
        }
        m
    }

    /// Removes all keys; the persistent map is no longer consulted.
    pub fn clear(&mut self)
        requires
            old(self).well_formed(),
        ensures
            final(self).well_formed(),
            final(self)@ == Map::<K, V>::empty(),
            final(self).modifications() == Map::<K, Option<V>>::empty(),
            final(self).base() == Map::<K, V>::empty(),
            !final(self).reads_persistent(),
    {
        self.persistent = None;
        self.transient.clear();
        self.len = 0;
        assert(self@ =~= Map::<K, V>::empty());
    }

    /// Whether the overlay has key `key`.
    pub fn contains_key(&self, key: &K) -> (r: bool)
        requires
            self.well_formed(),
        ensures
            r == self@.contains_key(*key),
    {
        match self.transient.get(key) {
            Some(Some(_)) => true,
            Some(None) => false,
            None => match self.persistent {
                Some(p) => p.contains_key(key),
                None => false,
            },
        }
    }

    /// Sets the value at `key`.
    pub fn insert(&mut self, key: K, value: V)
        requires
            old(self).well_formed(),
            old(self)@.len() < usize::MAX,
        ensures
            final(self).well_formed(),
            final(self)@ == old(self)@.insert(key, value),
            final(self).modifications() == old(self).modifications().insert(key, Some(value)),
            final(self).base() == old(self).base(),
            final(self).reads_persistent() == old(self).reads_persistent(),
    {
        let ghost old_view = self@;
        let old_transient_value = self.transient.insert(key, Some(value));
        let is_inserted_new_item = match old_transient_value {
            Some(Some(_)) => false,
            Some(None) => true,
            None => match self.persistent {
                Some(p) => !p.contains_key(&key),
                None => true,
            },
        };
        assert(self@ =~= old_view.insert(key, value));
        proof {
            self.lemma_view_finite();
        }
        if is_inserted_new_item {
            self.len = self.len + 1;
        }
    }

    /// Removes `key`.
    pub fn remove(&mut self, key: &K)
        requires
            old(self).well_formed(),
        ensures
            final(self).well_formed(),
            final(self)@ == old(self)@.remove(*key),
            final(self).modifications() == (if old(self)@.contains_key(*key) {
                old(self).modifications().insert(*key, None)
            } else {
                old(self).modifications()
            }),
            final(self).base() == old(self).base(),
            final(self).reads_persistent() == old(self).reads_persistent(),
    {
        let ghost old_view = self@;
        let present_in_transient = match self.transient.get(key) {
            Some(Some(_)) => Some(true),
            Some(None) => Some(false),
            None => None,
        };
        proof {
            if old_view.contains_key(*key) {
                vstd::set::axiom_set_remove_len(old_view.dom(), *key);
            }
        }
        match present_in_transient {
            Some(true) => {
                self.len = self.len - 1;
                self.transient.insert(*key, None);
            },
            Some(false) => {},
            None => {
                let in_persistent = match self.persistent {
                    Some(p) => p.contains_key(key),
                    None => false,
                };
                if in_persistent {
                    self.transient.insert(*key, None);
                    self.len = self.len - 1;
                }
            },
        }
        assert(self@ =~= old_view.remove(*key));
        proof {
            self.lemma_view_finite();
        }
    }

    /// Number of keys in the overlay.
    pub fn len(&self) -> (n: usize)
        requires
            self.well_formed(),
        ensures
            self@.dom().finite(),
            n == self@.len(),
    {
        self.len
    }

    /// Whether the overlay is empty; only meaningful on an overlay with no entries at all.
    pub fn is_empty(&self) -> (r: bool)
        requires
            self.well_formed(),
            self.has_no_entries(),
        ensures
            r == (self@.len() == 0),
    {
        self.len == 0
    }

    /// Passes the value at `key` to `inspect_fn` and returns its result; `None` if there is
    /// no such key.
    pub fn inspect<R, F: FnOnce(&V) -> R>(&self, key: &K, inspect_fn: F) -> (r: Option<R>)
        requires
            self.well_formed(),
            forall|v: &V| call_requires(inspect_fn, (v,)),
        ensures
            match r {
                Some(x) => self@.contains_key(*key) && call_ensures(inspect_fn, (&self@[*key],), x),
                None => !self@.contains_key(*key),
            },
    {
        match self.transient.get(key) {
            Some(Some(value_ref)) => Some(inspect_fn(value_ref)),
            Some(None) => None,
            None => match self.persistent {
                Some(p) => match p.get(key) {
                    Some(value_ref) => Some(inspect_fn(value_ref)),
                    None => None,
                },
                None => None,
            },
        }
    }

    /// A copy of the value at `key`, if any.
    fn current_value(&self, key: &K) -> (r: Option<V>)
        requires
            self.well_formed(),
        ensures
            match r {
                Some(v) => self@.contains_key(*key) && cloned(self@[*key], v),
                None => !self@.contains_key(*key),
            },
    {
        match self.transient.get(key) {
            Some(Some(value_ref)) => Some(clone_value(value_ref)),
            Some(None) => None,
            None => match self.persistent {
                Some(p) => match p.get(key) {
                    Some(value_ref) => Some(clone_value(value_ref)),
                    None => None,
                },
                None => None,
            },
        }
    }

    /// Records `value` at a key that the overlay already has.
    fn store_existing(&mut self, key: K, value: V)
        requires
            old(self).well_formed(),
            old(self)@.contains_key(key),
        ensures
            final(self).well_formed(),
            final(self)@ == old(self)@.insert(key, value),
            final(self).modifications() == old(self).modifications().insert(key, Some(value)),
            final(self).base() == old(self).base(),
            final(self).reads_persistent() == old(self).reads_persistent(),
    {
        let ghost old_view = self@;
        self.transient.insert(key, Some(value));
        assert(self@ =~= old_view.insert(key, value));
        assert(self@.dom() =~= old_view.dom());
    }

    /// Applies `update_fn` to a copy of the value at `key`; the copy is stored only if
    /// `update_fn` succeeds. Returns `None` if there is no such key.
    pub fn update<R, F: FnOnce(&mut V) -> Result<R>>(&mut self, key: &K, update_fn: F) -> (r:
        Option<Result<R>>)
        requires
            old(self).well_formed(),
            forall|v: &mut V| call_requires(update_fn, (v,)),
        ensures
            final(self).well_formed(),
            match r {
                None => !old(self)@.contains_key(*key) && final(self)@ == old(self)@
                    && final(self).modifications() == old(self).modifications(),
                Some(res) => old(self)@.contains_key(*key) && exists|v: &mut V|
                    #![trigger call_ensures(update_fn, (v,), res)]
                    {
                        &&& cloned(old(self)@[*key], *v)
                        &&& call_ensures(update_fn, (v,), res)
                        &&& res is Ok ==> final(self)@ == old(self)@.insert(*key, *final(v))
                            && final(self).modifications() == old(self).modifications().insert(*key, Some(*final(v)))
                        &&& res is Err ==> final(self)@ == old(self)@
                            && final(self).modifications() == old(self).modifications()
                    },
            },
            final(self).base() == old(self).base(),
            final(self).reads_persistent() == old(self).reads_persistent(),
    {
        match self.current_value(key) {
            Some(mut value) => {
                let ghost v0 = value;
                let result = update_fn(&mut value);
                let ghost w = choose|v: &mut V|
                    *v == v0 && *final(v) == value && call_ensures(update_fn, (v,), result);
                if result.is_ok() {
                    self.store_existing(*key, value);
                }
                assert(cloned(old(self)@[*key], *w));
                assert(result is Ok ==> final(self)@ == old(self)@.insert(*key, *final(w)));
                Some(result)
            },
            None => None,
        }
    }

    /// Inserts the value made by `factory_fn` at `key`, after `update_fn` succeeds on it.
    fn create_update_insert<R, F, U>(&mut self, key: &K, factory_fn: F, update_fn: U) -> (r: Result<R>)
        where
            F: FnOnce() -> Result<V>,
            U: FnOnce(&mut V, bool) -> Result<R>,
        requires
            old(self).well_formed(),
            !old(self)@.contains_key(*key),
            old(self)@.len() < usize::MAX,
            call_requires(factory_fn, ()),
            forall|v: &mut V, b: bool| call_requires(update_fn, (v, b)),
        ensures
            final(self).well_formed(),
            exists|made: Result<V>|
                #![trigger call_ensures(factory_fn, (), made)]
                {
                    &&& call_ensures(factory_fn, (), made)
                    &&& made is Err ==> r == Err::<R, _>(made->Err_0) && final(self)@ == old(self)@
                        && final(self).modifications() == old(self).modifications()
                    &&& made is Ok ==> exists|v: &mut V|
                        #![trigger call_ensures(update_fn, (v, false), r)]
                        {
                            &&& *v == made->Ok_0
                            &&& call_ensures(update_fn, (v, false), r)
                            &&& r is Ok ==> final(self)@ == old(self)@.insert(*key, *final(v))
                                && final(self).modifications() == old(self).modifications().insert(*key, Some(*final(v)))
                            &&& r is Err ==> final(self)@ == old(self)@
                                && final(self).modifications() == old(self).modifications()
                        }
                },
            final(self).base() == old(self).base(),
            final(self).reads_persistent() == old(self).reads_persistent(),
    {
        let made = factory_fn();
        let ghost made0 = made;
        match made {
            Err(e) => {
                assert(call_ensures(factory_fn, (), made0));
                Err(e)
            },
            Ok(mut value) => {
                let ghost v0 = value;
                let result = update_fn(&mut value, false);
                let ghost w = choose|v: &mut V|
                    *v == v0 && *final(v) == value && call_ensures(update_fn, (v, false), result);
                if result.is_ok() {
                    self.insert(*key, value);
                }
                assert(result is Ok ==> final(self)@ == old(self)@.insert(*key, *final(w)));
                assert(call_ensures(factory_fn, (), made0));
                result
            },
        }
    }

    /// Updates the value at `key` with `update_fn` (told `true`), or, if there is no such key,
    /// makes a value with `factory_fn`, updates it with `update_fn` (told `false`) and inserts
    /// it. Nothing is stored unless `update_fn` succeeds.
    pub fn update_or_insert<R, F, U>(&mut self, key: &K, factory_fn: F, update_fn: U) -> (r: Result<R>)
        where
            F: FnOnce() -> Result<V>,
            U: FnOnce(&mut V, bool) -> Result<R>,
        requires
            old(self).well_formed(),
            old(self)@.len() < usize::MAX,
            call_requires(factory_fn, ()),
            forall|v: &mut V, b: bool| call_requires(update_fn, (v, b)),
        ensures
            final(self).well_formed(),
            old(self)@.contains_key(*key) ==> exists|v: &mut V|
                #![trigger call_ensures(update_fn, (v, true), r)]
                {
                    &&& cloned(old(self)@[*key], *v)
                    &&& call_ensures(update_fn, (v, true), r)
                    &&& r is Ok ==> final(self)@ == old(self)@.insert(*key, *final(v))
                        && final(self).modifications() == old(self).modifications().insert(*key, Some(*final(v)))
                    &&& r is Err ==> final(self)@ == old(self)@
                        && final(self).modifications() == old(self).modifications()
                },
            !old(self)@.contains_key(*key) ==> exists|made: Result<V>|
                #![trigger call_ensures(factory_fn, (), made)]
                {
                    &&& call_ensures(factory_fn, (), made)
                    &&& made is Err ==> r == Err::<R, _>(made->Err_0) && final(self)@ == old(self)@
                        && final(self).modifications() == old(self).modifications()
                    &&& made is Ok ==> exists|v: &mut V|
                        #![trigger call_ensures(update_fn, (v, false), r)]
                        {
                            &&& *v == made->Ok_0
                            &&& call_ensures(update_fn, (v, false), r)
                            &&& r is Ok ==> final(self)@ == old(self)@.insert(*key, *final(v))
                                && final(self).modifications() == old(self).modifications().insert(*key, Some(*final(v)))
                            &&& r is Err ==> final(self)@ == old(self)@
                                && final(self).modifications() == old(self).modifications()
                        }
                },
            final(self).base() == old(self).base(),
            final(self).reads_persistent() == old(self).reads_persistent(),
    {
        match self.current_value(key) {
            Some(mut value) => {
                let ghost v0 = value;
                let result = update_fn(&mut value, true);
                let ghost w = choose|v: &mut V|
                    *v == v0 && *final(v) == value && call_ensures(update_fn, (v, true), result);
                if result.is_ok() {
                    self.store_existing(*key, value);
                }
                assert(cloned(old(self)@[*key], *w));
                assert(result is Ok ==> final(self)@ == old(self)@.insert(*key, *final(w)));
                result
            },
            None => self.create_update_insert(key, factory_fn, update_fn),
        }
    }

    /// `found` tells correctly where the key designated by `at` lies: the key of the overlay
    /// that `at` admits (see `is_key_at`), found among the modifications when one holds a
    /// value for it, else in the persistent map; `NotFound` when `at` admits no key.
    pub open spec fn found_at(&self, at: KeyAt<K>, found: OverlayMapKey<K>) -> bool {
        match found {
            OverlayMapKey::Transient(k) => {
                &&& is_key_at(self@.dom(), at, Some(k))
                &&& self.modifications().contains_key(k)
                &&& self.modifications()[k] is Some
            },
            OverlayMapKey::Persistent(k) => {
                &&& is_key_at(self@.dom(), at, Some(k))
                &&& !self.modifications().contains_key(k)
                &&& self.reads_persistent()
                &&& self.base().contains_key(k)
            },
            OverlayMapKey::NotFound => is_key_at(self@.dom(), at, None),
        }
    }

    /// The key of the persistent map that the lookup `at` designates, if any.
    fn persistent_key_at(&self, at: &KeyAt<K>) -> (r: Option<K>)
        requires
            self.well_formed(),
        ensures
            is_key_at(self.base().dom(), *at, r),
    {
        match self.persistent {
            Some(p) => match p.entry_at(at) {
                Some((k, _)) => Some(*k),
                None => None,
            },
            None => None,
        }
    }

    /// Finds the key designated by an ascending lookup (`Min` or `Above`), merging the
    /// modifications with the persistent map.
    fn find_key_at_ascending(&self, at: &KeyAt<K>) -> (r: OverlayMapKey<K>)
        requires
            self.well_formed(),
            at.ascending(),
        ensures
            self.found_at(*at, r),
    {
        let ghost s = self.transient.entries@;
        proof {
            self.transient.lemma_repr();
        }
        let tlen = self.transient.entries.len();
        let p0 = match at {
            KeyAt::Above(b) => self.transient.upper_bound(b),
            _ => 0,
        };
        let mut pk = self.persistent_key_at(at);
        let mut ti = p0;
        loop
            invariant
                self.well_formed(),
                at.ascending(),
                s == self.transient.entries@,
                sorted_by_rank(s),
                self.transient@ == seq_to_map(s),
                tlen == s.len(),
                p0 <= ti <= tlen,
                forall|j: int| 0 <= j < p0 ==> !at.admits(#[trigger] s[j].0),
                forall|j: int| p0 <= j < tlen ==> at.admits(#[trigger] s[j].0),
                forall|j: int|
                    p0 <= j < ti ==> (#[trigger] s[j]).1 is None && (pk is Some ==> s[j].0.rank()
                        < pk->Some_0.rank()),
                pk is Some ==> self.base().contains_key(pk->Some_0) && at.admits(pk->Some_0),
                forall|y: K|
                    #[trigger] self.base().contains_key(y) && at.admits(y) && (pk is None || y.rank()
                        < pk->Some_0.rank()) ==> self.transient@.contains_key(y),
            decreases tlen - ti,
        {
            if ti < tlen {
                let tk = self.transient.entries[ti].0;
                let deleted = self.transient.entries[ti].1.is_none();
                proof {
                    lemma_key_index(s, ti as int);
                }
                match pk {
                    Some(p) => {
                        if p.key_lt(&tk) {
                            proof {
                                self.lemma_found_persistent(*at, s, p0 as int, ti as int, p);
                            }
                            return OverlayMapKey::Persistent(p);
                        }
                        if !deleted {
                            proof {
                                self.lemma_found_transient(*at, s, p0 as int, ti as int, pk);
                            }
                            return OverlayMapKey::Transient(tk);
                        }
                        if tk.key_lt(&p) {
                            ti = ti + 1;
                        } else {
                            proof {
                                K::lemma_rank_injective(tk, p);
                            }
                            let next = self.persistent_key_at(&KeyAt::Above(p));
                            proof {
                                assert forall|y: K|
                                    #[trigger] self.base().contains_key(y) && at.admits(y) && (
                                    next is None || y.rank() < next->Some_0.rank())
                                    implies self.transient@.contains_key(y) by {
                                    if y.rank() == p.rank() {
                                        K::lemma_rank_injective(y, p);
                                    } else if y.rank() > p.rank() {
                                        assert(KeyAt::Above(p).admits(y));
                                    }
                                }
                            }
                            pk = next;
                            ti = ti + 1;
                        }
                    },
                    None => {
                        if !deleted {
                            proof {
                                self.lemma_found_transient(*at, s, p0 as int, ti as int, pk);
                            }
                            return OverlayMapKey::Transient(tk);
                        }
                        ti = ti + 1;
                    },
                }
            } else {
                match pk {
                    Some(p) => {
                        proof {
                            self.lemma_found_persistent(*at, s, p0 as int, ti as int, p);
                        }
                        return OverlayMapKey::Persistent(p);
                    },
                    None => {
                        proof {
                            self.lemma_found_none(*at, s, p0 as int);
                        }
                        return OverlayMapKey::NotFound;
                    },
                }
            }
        }
    }

    /// Ascending scan: the persistent map's candidate `p` is the designated key when it comes
    /// before the next modification (or none is left).
    proof fn lemma_found_persistent(&self, at: KeyAt<K>, s: Seq<(K, Option<V>)>, p0: int, ti: int, p: K)
        requires
            self.well_formed(),
            at.ascending(),
            s == self.transient.entries@,
            sorted_by_rank(s),
            self.transient@ == seq_to_map(s),
            0 <= p0 <= ti <= s.len(),
            forall|j: int| 0 <= j < p0 ==> !at.admits(#[trigger] s[j].0),
            forall|j: int| p0 <= j < s.len() ==> at.admits(#[trigger] s[j].0),
            forall|j: int| p0 <= j < ti ==> (#[trigger] s[j]).1 is None && s[j].0.rank() < p.rank(),
            self.base().contains_key(p),
            at.admits(p),
            forall|y: K|
                #[trigger] self.base().contains_key(y) && at.admits(y) && y.rank() < p.rank()
                    ==> self.transient@.contains_key(y),
            ti < s.len() ==> p.rank() < s[ti].0.rank(),
        ensures
            self.found_at(at, OverlayMapKey::Persistent(p)),
    {
        if self.transient@.contains_key(p) {
            let j = seq_key_index(s, p);
            assert(0 <= j < s.len() && s[j].0 == p);
            if j > ti {
                assert(s[ti].0.rank() < s[j].0.rank());
            }
        }
        assert(self@.contains_key(p));
        assert forall|x: K| #[trigger] self@.dom().contains(x) && at.admits(x) implies at.prefers(p, x) by {
            if self.transient@.contains_key(x) {
                let j = seq_key_index(s, x);
                assert(0 <= j < s.len() && s[j].0 == x);
                lemma_key_index(s, j);
                if j > ti {
                    assert(s[ti].0.rank() < s[j].0.rank());
                }
            }
        }
    }

    /// Ascending scan: a live modification at index `ti` is the designated key when it is not
    /// after the persistent map's candidate.
    proof fn lemma_found_transient(
        &self,
        at: KeyAt<K>,
        s: Seq<(K, Option<V>)>,
        p0: int,
        ti: int,
        pk: Option<K>,
    )
        requires
            self.well_formed(),
            at.ascending(),
            s == self.transient.entries@,
            sorted_by_rank(s),
            self.transient@ == seq_to_map(s),
            0 <= p0 <= ti < s.len(),
            forall|j: int| 0 <= j < p0 ==> !at.admits(#[trigger] s[j].0),
            forall|j: int| p0 <= j < s.len() ==> at.admits(#[trigger] s[j].0),
            forall|j: int| p0 <= j < ti ==> (#[trigger] s[j]).1 is None,
            s[ti].1 is Some,
            pk is Some ==> s[ti].0.rank() <= pk->Some_0.rank(),
            forall|y: K|
                #[trigger] self.base().contains_key(y) && at.admits(y) && (pk is None || y.rank()
                    < pk->Some_0.rank()) ==> self.transient@.contains_key(y),
        ensures
            self.found_at(at, OverlayMapKey::Transient(s[ti].0)),
    {
        let t = s[ti].0;
        lemma_key_index(s, ti);
        assert(self@.contains_key(t));
        assert forall|x: K| #[trigger] self@.dom().contains(x) && at.admits(x) implies at.prefers(t, x) by {
            if self.transient@.contains_key(x) {
                let j = seq_key_index(s, x);
                assert(0 <= j < s.len() && s[j].0 == x);
                lemma_key_index(s, j);
                if j > ti {
                    assert(s[ti].0.rank() < s[j].0.rank());
                }
            }
        }
    }

    /// Ascending scan: nothing is left to designate.
    proof fn lemma_found_none(&self, at: KeyAt<K>, s: Seq<(K, Option<V>)>, p0: int)
        requires
            self.well_formed(),
            s == self.transient.entries@,
            sorted_by_rank(s),
            self.transient@ == seq_to_map(s),
            0 <= p0 <= s.len(),
            forall|j: int| 0 <= j < p0 ==> !at.admits(#[trigger] s[j].0),
            forall|j: int| p0 <= j < s.len() ==> (#[trigger] s[j]).1 is None,
            forall|y: K|
                #[trigger] self.base().contains_key(y) && at.admits(y) ==> self.transient@.contains_key(y),
        ensures
            self.found_at(at, OverlayMapKey::NotFound),
    {
        assert forall|x: K| #[trigger] self@.dom().contains(x) implies !at.admits(x) by {
            if self.transient@.contains_key(x) {
                let j = seq_key_index(s, x);
                assert(s[j].0 == x);
                lemma_key_index(s, j);
            }
        }
    }

    /// Finds the key designated by a descending lookup (`Max` or `Below`), merging the
    /// modifications with the persistent map.
    fn find_key_at_descending(&self, at: &KeyAt<K>) -> (r: OverlayMapKey<K>)
        requires
            self.well_formed(),
            !at.ascending(),
        ensures
            self.found_at(*at, r),
    {
        let ghost s = self.transient.entries@;
        proof {
            self.transient.lemma_repr();
        }
        let tlen = self.transient.entries.len();
        let p0 = match at {
            KeyAt::Below(b) => self.transient.lower_bound(b),
            _ => tlen,
        };
        let mut pk = self.persistent_key_at(at);
        let mut ti = p0;
        loop
            invariant
                self.well_formed(),
                !at.ascending(),
                s == self.transient.entries@,
                sorted_by_rank(s),
                self.transient@ == seq_to_map(s),
                tlen == s.len(),
                ti <= p0 <= tlen,
                forall|j: int| 0 <= j < p0 ==> at.admits(#[trigger] s[j].0),
                forall|j: int| p0 <= j < tlen ==> !at.admits(#[trigger] s[j].0),
                forall|j: int|
                    ti <= j < p0 ==> (#[trigger] s[j]).1 is None && (pk is Some ==> pk->Some_0.rank()
                        < s[j].0.rank()),
                pk is Some ==> self.base().contains_key(pk->Some_0) && at.admits(pk->Some_0),
                forall|y: K|
                    #[trigger] self.base().contains_key(y) && at.admits(y) && (pk is None
                        || pk->Some_0.rank() < y.rank()) ==> self.transient@.contains_key(y),
            decreases ti,
        {
            if ti > 0 {
                let idx = ti - 1;
                let tk = self.transient.entries[idx].0;
                let deleted = self.transient.entries[idx].1.is_none();
                proof {
                    lemma_key_index(s, idx as int);
                }
                match pk {
                    Some(p) => {
                        if tk.key_lt(&p) {
                            proof {
                                self.lemma_found_persistent_descending(*at, s, p0 as int, ti as int, p);
                            }
                            return OverlayMapKey::Persistent(p);
                        }
                        if !deleted {
                            proof {
                                self.lemma_found_transient_descending(*at, s, p0 as int, idx as int, pk);
                            }
                            return OverlayMapKey::Transient(tk);
                        }
                        if p.key_lt(&tk) {
                            ti = idx;
                        } else {
                            proof {
                                K::lemma_rank_injective(tk, p);
                            }
                            let next = self.persistent_key_at(&KeyAt::Below(p));
                            proof {
                                assert forall|y: K|
                                    #[trigger] self.base().contains_key(y) && at.admits(y) && (next is None
                                        || next->Some_0.rank() < y.rank())
                                    implies self.transient@.contains_key(y) by {
                                    if y.rank() == p.rank() {
                                        K::lemma_rank_injective(y, p);
                                    } else if y.rank() < p.rank() {
                                        assert(KeyAt::Below(p).admits(y));
                                    }
                                }
                            }
                            pk = next;
                            ti = idx;
                        }
                    },
                    None => {
                        if !deleted {
                            proof {
                                self.lemma_found_transient_descending(*at, s, p0 as int, idx as int, pk);
                            }
                            return OverlayMapKey::Transient(tk);
                        }
                        ti = idx;
                    },
                }
            } else {
                match pk {
                    Some(p) => {
                        proof {
                            self.lemma_found_persistent_descending(*at, s, p0 as int, ti as int, p);
                        }
                        return OverlayMapKey::Persistent(p);
                    },
                    None => {
                        proof {
                            self.lemma_found_none_descending(*at, s, p0 as int);
                        }
                        return OverlayMapKey::NotFound;
                    },
                }
            }
        }
    }

    /// Descending scan: the persistent map's candidate `p` is the designated key when it comes
    /// before the next modification (or none is left).
    proof fn lemma_found_persistent_descending(
        &self,
        at: KeyAt<K>,
        s: Seq<(K, Option<V>)>,
        p0: int,
        ti: int,
        p: K,
    )
        requires
            self.well_formed(),
            !at.ascending(),
            s == self.transient.entries@,
            sorted_by_rank(s),
            self.transient@ == seq_to_map(s),
            0 <= ti <= p0 <= s.len(),
            forall|j: int| 0 <= j < p0 ==> at.admits(#[trigger] s[j].0),
            forall|j: int| p0 <= j < s.len() ==> !at.admits(#[trigger] s[j].0),
            forall|j: int| ti <= j < p0 ==> (#[trigger] s[j]).1 is None && p.rank() < s[j].0.rank(),
            self.base().contains_key(p),
            at.admits(p),
            forall|y: K|
                #[trigger] self.base().contains_key(y) && at.admits(y) && p.rank() < y.rank()
                    ==> self.transient@.contains_key(y),
            ti > 0 ==> s[ti - 1].0.rank() < p.rank(),
        ensures
            self.found_at(at, OverlayMapKey::Persistent(p)),
    {
        if self.transient@.contains_key(p) {
            let j = seq_key_index(s, p);
            assert(0 <= j < s.len() && s[j].0 == p);
            if j < ti - 1 {
                assert(s[j].0.rank() < s[ti - 1].0.rank());
            }
        }
        assert(self@.contains_key(p));
        assert forall|x: K| #[trigger] self@.dom().contains(x) && at.admits(x) implies at.prefers(p, x) by {
            if self.transient@.contains_key(x) {
                let j = seq_key_index(s, x);
                assert(0 <= j < s.len() && s[j].0 == x);
                lemma_key_index(s, j);
                if j < ti - 1 {
                    assert(s[j].0.rank() < s[ti - 1].0.rank());
                }
            }
        }
    }

    /// Descending scan: a live modification at index `idx` is the designated key when it is
    /// not below the persistent map's candidate.
    proof fn lemma_found_transient_descending(
        &self,
        at: KeyAt<K>,
        s: Seq<(K, Option<V>)>,
        p0: int,
        idx: int,
        pk: Option<K>,
    )
        requires
            self.well_formed(),
            !at.ascending(),
            s == self.transient.entries@,
            sorted_by_rank(s),
            self.transient@ == seq_to_map(s),
            0 <= idx < p0 <= s.len(),
            forall|j: int| 0 <= j < p0 ==> at.admits(#[trigger] s[j].0),
            forall|j: int| p0 <= j < s.len() ==> !at.admits(#[trigger] s[j].0),
            forall|j: int| idx < j < p0 ==> (#[trigger] s[j]).1 is None,
            s[idx].1 is Some,
            pk is Some ==> pk->Some_0.rank() <= s[idx].0.rank(),
            forall|y: K|
                #[trigger] self.base().contains_key(y) && at.admits(y) && (pk is None
                    || pk->Some_0.rank() < y.rank()) ==> self.transient@.contains_key(y),
        ensures
            self.found_at(at, OverlayMapKey::Transient(s[idx].0)),
    {
        let t = s[idx].0;
        lemma_key_index(s, idx);
        assert(self@.contains_key(t));
        assert forall|x: K| #[trigger] self@.dom().contains(x) && at.admits(x) implies at.prefers(t, x) by {
            if self.transient@.contains_key(x) {
                let j = seq_key_index(s, x);
                assert(0 <= j < s.len() && s[j].0 == x);
                lemma_key_index(s, j);
                if j < idx {
                    assert(s[j].0.rank() < s[idx].0.rank());
                }
            }
        }
    }

    /// Descending scan: nothing is left to designate.
    proof fn lemma_found_none_descending(&self, at: KeyAt<K>, s: Seq<(K, Option<V>)>, p0: int)
        requires
            self.well_formed(),
            s == self.transient.entries@,
            sorted_by_rank(s),
            self.transient@ == seq_to_map(s),
            0 <= p0 <= s.len(),
            forall|j: int| p0 <= j < s.len() ==> !at.admits(#[trigger] s[j].0),
            forall|j: int| 0 <= j < p0 ==> (#[trigger] s[j]).1 is None,
            forall|y: K|
                #[trigger] self.base().contains_key(y) && at.admits(y) ==> self.transient@.contains_key(y),
        ensures
            self.found_at(at, OverlayMapKey::NotFound),
    {
        assert forall|x: K| #[trigger] self@.dom().contains(x) implies !at.admits(x) by {
            if self.transient@.contains_key(x) {
                let j = seq_key_index(s, x);
                assert(0 <= j < s.len() && s[j].0 == x);
                lemma_key_index(s, j);
            }
        }
    }

    /// Finds where the key designated by `at` lies: among the modifications, in the persistent
    /// map, or nowhere. Removed keys are never found. See `found_at`.
    pub fn find_key_at(&self, at: &KeyAt<K>) -> (r: OverlayMapKey<K>)
        requires
            self.well_formed(),
        ensures
            self.found_at(*at, r),
    {
        if at.is_ascending() {
            self.find_key_at_ascending(at)
        } else {
            self.find_key_at_descending(at)
        }
    }

    /// Passes the entry that the lookup `at` designates to `inspect_fn` and returns its result;
    /// `None` if no key is admitted by the lookup.
    pub fn inspect_at<R, F: FnOnce(&K, &V) -> R>(&self, at: KeyAt<K>, inspect_fn: F) -> (r: Option<R>)
        requires
            self.well_formed(),
            forall|k: &K, v: &V| call_requires(inspect_fn, (k, v)),
        ensures
            match key_at(self@.dom(), at) {
                Some(k) => r is Some && call_ensures(inspect_fn, (&k, &self@[k]), r->Some_0),
                None => r is None,
            },
    {
        let found = self.find_key_at(&at);
        match found {
            OverlayMapKey::Transient(key_found) => {
                proof {
                    lemma_key_at(self@.dom(), at, Some(key_found));
                }
                match self.transient.get(&key_found) {
                    Some(Some(value)) => Some(inspect_fn(&key_found, value)),
                    _ => {
                        assert(false);
                        None
                    },
                }
            },
            OverlayMapKey::Persistent(key_found) => {
                proof {
                    lemma_key_at(self@.dom(), at, Some(key_found));
                }
                match self.persistent {
                    Some(p) => match p.get(&key_found) {
                        Some(value) => Some(inspect_fn(&key_found, value)),
                        None => {
                            assert(false);
                            None
                        },
                    },
                    None => {
                        assert(false);
                        None
                    },
                }
            },
            OverlayMapKey::NotFound => {
                proof {
                    lemma_key_at(self@.dom(), at, None);
                }
                None
            },
        }
    }

    /// Applies `update_fn` to a copy of the entry that the lookup `at` designates; the copy is
    /// stored only if `update_fn` succeeds. `None` if no key is admitted by the lookup.
    pub fn update_at<R, F: FnOnce(&K, &mut V) -> Result<R>>(&mut self, at: KeyAt<K>, update_fn: F) -> (r:
        Option<Result<R>>)
        requires
            old(self).well_formed(),
            forall|k: &K, v: &mut V| call_requires(update_fn, (k, v)),
        ensures
            final(self).well_formed(),
            match r {
                None => key_at(old(self)@.dom(), at) is None && final(self)@ == old(self)@
                    && final(self).modifications() == old(self).modifications(),
                Some(res) => key_at(old(self)@.dom(), at) is Some && exists|v: &mut V|
                    #![trigger call_ensures(update_fn, (&key_at(old(self)@.dom(), at)->Some_0, v), res)]
                    {
                        &&& cloned(old(self)@[key_at(old(self)@.dom(), at)->Some_0], *v)
                        &&& call_ensures(update_fn, (&key_at(old(self)@.dom(), at)->Some_0, v), res)
                        &&& res is Ok ==> final(self)@ == old(self)@.insert(
                            key_at(old(self)@.dom(), at)->Some_0,
                            *final(v),
                        ) && final(self).modifications() == old(self).modifications().insert(
                            key_at(old(self)@.dom(), at)->Some_0,
                            Some(*final(v)),
                        )
                        &&& res is Err ==> final(self)@ == old(self)@
                            && final(self).modifications() == old(self).modifications()
                    },
            },
            final(self).base() == old(self).base(),
            final(self).reads_persistent() == old(self).reads_persistent(),
    {
        let key_found = match self.find_key_at(&at) {
            OverlayMapKey::Transient(k) => k,
            OverlayMapKey::Persistent(k) => k,
            OverlayMapKey::NotFound => {
                proof {
                    lemma_key_at(self@.dom(), at, None);
                }
                return None;
            },
        };
        proof {
            lemma_key_at(self@.dom(), at, Some(key_found));
        }
        let mut value = match self.current_value(&key_found) {
            Some(v) => v,
            None => {
                assert(false);
                return None;
            },
        };
        let ghost v0 = value;
        let result = update_fn(&key_found, &mut value);
        let ghost w = choose|v: &mut V|
            *v == v0 && *final(v) == value && call_ensures(update_fn, (&key_found, v), result);
        if result.is_ok() {
            self.store_existing(key_found, value);
        }
        assert(cloned(old(self)@[key_found], *w));
        assert(result is Ok ==> final(self)@ == old(self)@.insert(key_found, *final(w)));
        Some(result)
    }
}

} // verus!
