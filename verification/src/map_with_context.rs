use vstd::prelude::*;

use core::marker::PhantomData;

use crate::error::{Error, ErrorKind, Result};
use crate::key::OrderedKey;
use crate::ordered_map::OrderedMap;

verus! {

/// Tells which error a map reports for a missing key.
pub trait MapContext {
    /// The error reported for a missing key.
    spec fn spec_not_found_error() -> ErrorKind;

    /// Produces the error which is returned when a key is not found.
    fn not_found_error() -> (e: ErrorKind)
        ensures
            e == Self::spec_not_found_error(),
    ;
}

/// A map that reports a predefined "not found" error for missing keys.
pub struct MapWithContext<K, V, E> {
    inner: OrderedMap<K, V>,
    context: PhantomData<E>,
}

impl<K: OrderedKey, V, E: MapContext> View for MapWithContext<K, V, E> {
    type V = Map<K, V>;

    closed spec fn view(&self) -> Map<K, V> {
        self.inner@
    }
}

impl<K: OrderedKey, V, E: MapContext> MapWithContext<K, V, E> {
    /// Internal consistency of the map.
    pub closed spec fn well_formed(&self) -> bool {
        self.inner.well_formed()
    }

    /// The map has finitely many keys.
    pub proof fn lemma_finite(&self)
        requires
            self.well_formed(),
        ensures
            self@.dom().finite(),
    {
        self.inner.lemma_len();
    }

    /// Wraps `inner`.
    pub fn new(inner: OrderedMap<K, V>) -> (m: Self)
        requires
            inner.well_formed(),
        ensures
            m.well_formed(),
            m@ == inner@,
    {
        MapWithContext { inner, context: PhantomData }
    }

    /// The wrapped map.
    pub fn inner(&self) -> (r: &OrderedMap<K, V>)
        ensures
            self.well_formed() ==> r.well_formed(),
            r@ == self@,
    {
        &self.inner
    }

    /// Whether the map has key `key`.
    pub fn contains_key(&self, key: &K) -> (r: bool)
        requires
            self.well_formed(),
        ensures
            r == self@.contains_key(*key),
    {
        self.inner.contains_key(key)
    }

    /// The value at `key`, if any.
    pub fn get(&self, key: &K) -> (r: Option<&V>)
        requires
            self.well_formed(),
        ensures
            match r {
                Some(v) => self@.contains_key(*key) && *v == self@[*key],
                None => !self@.contains_key(*key),
            },
    {
        self.inner.get(key)
    }

    /// Sets the value at `key`.
    pub fn insert(&mut self, key: K, value: V)
        requires
            old(self).well_formed(),
        ensures
            final(self).well_formed(),
            final(self)@ == old(self)@.insert(key, value),
    {
        self.inner.insert(key, value);
    }

    /// Removes `key`; returns the value it had, if any.
    pub fn remove(&mut self, key: &K) -> (r: Option<V>)
        requires
            old(self).well_formed(),
        ensures
            final(self).well_formed(),
            final(self)@ == old(self)@.remove(*key),
            match r {
                Some(v) => old(self)@.contains_key(*key) && v == old(self)@[*key],
                None => !old(self)@.contains_key(*key),
            },
    {
        self.inner.remove(key)
    }

    /// Number of keys.
    pub fn len(&self) -> (n: usize)
        requires
            self.well_formed(),
        ensures
            n == self@.len(),
    {
        self.inner.len()
    }

    /// Whether the map has no key.
    pub fn is_empty(&self) -> (r: bool)
        requires
            self.well_formed(),
        ensures
            r == (self@.len() == 0),
    {
        self.inner.is_empty()
    }

    /// Passes the value at `key` to `inspect_fn` and returns its result; fails with `error`
    /// if there is no such key.
    pub fn try_inspect_or<R, F: FnOnce(&V) -> R>(&self, key: &K, error: ErrorKind, inspect_fn: F) -> (r:
        Result<R>)
        requires
            self.well_formed(),
            self@.contains_key(*key) ==> call_requires(inspect_fn, (&self@[*key],)),
        ensures
            match r {
                Ok(x) => self@.contains_key(*key) && call_ensures(inspect_fn, (&self@[*key],), x),
                Err(e) => !self@.contains_key(*key) && e == Error { kind: error },
            },
    {
        match self.inner.get(key) {
            Some(v) => Ok(inspect_fn(v)),
            None => Err(Error::new(error)),
        }
    }

    /// Passes the value at `key` to `inspect_fn` and returns its result; fails with the
    /// map's "not found" error if there is no such key.
    pub fn try_inspect<R, F: FnOnce(&V) -> R>(&self, key: &K, inspect_fn: F) -> (r: Result<R>)
        requires
            self.well_formed(),
            self@.contains_key(*key) ==> call_requires(inspect_fn, (&self@[*key],)),
        ensures
            match r {
                Ok(x) => self@.contains_key(*key) && call_ensures(inspect_fn, (&self@[*key],), x),
                Err(e) => !self@.contains_key(*key) && e == Error { kind: E::spec_not_found_error() },
            },
    {
        self.try_inspect_or(key, E::not_found_error(), inspect_fn)
    }
}

impl<K: OrderedKey, V: Copy, E: MapContext> MapWithContext<K, V, E> {
    /// A copy of the map.
    pub fn copied(&self) -> (r: Self)
        requires
            self.well_formed(),
        ensures
            r.well_formed(),
            r@ == self@,
    {
        MapWithContext { inner: self.inner.copied(), context: PhantomData }
    }
}

impl<K: OrderedKey, V: Clone, E: MapContext> MapWithContext<K, V, E> {
    /// Applies `update_fn` to a copy of the value at `key`, stored only if `update_fn`
    /// succeeds, and returns its result; fails with `error` if there is no such key.
    pub fn try_update_or<R, F: FnOnce(&mut V) -> Result<R>>(&mut self, key: &K, error: ErrorKind, update_fn: F) -> (r:
        Result<R>)
        requires
            old(self).well_formed(),
            forall|v: &mut V| call_requires(update_fn, (v,)),
        ensures
            final(self).well_formed(),
            !old(self)@.contains_key(*key) ==> r == Err::<R, Error>(Error { kind: error })
                && final(self)@ == old(self)@,
            old(self)@.contains_key(*key) ==> exists|v: &mut V|
                #![trigger call_ensures(update_fn, (v,), r)]
                {
                    &&& cloned(old(self)@[*key], *v)
                    &&& call_ensures(update_fn, (v,), r)
                    &&& r is Ok ==> final(self)@ == old(self)@.insert(*key, *final(v))
                    &&& r is Err ==> final(self)@ == old(self)@
                },
    {
        match self.inner.update(key, update_fn) {
            Some(r) => r,
            None => Err(Error::new(error)),
        }
    }

    /// Applies `update_fn` to a copy of the value at `key`, stored only if `update_fn`
    /// succeeds, and returns its result; fails with the map's "not found" error if there is
    /// no such key.
    pub fn try_update<R, F: FnOnce(&mut V) -> Result<R>>(&mut self, key: &K, update_fn: F) -> (r: Result<R>)
        requires
            old(self).well_formed(),
            forall|v: &mut V| call_requires(update_fn, (v,)),
        ensures
            final(self).well_formed(),
            !old(self)@.contains_key(*key) ==> r == Err::<R, Error>(
                Error { kind: E::spec_not_found_error() },
            ) && final(self)@ == old(self)@,
            old(self)@.contains_key(*key) ==> exists|v: &mut V|
                #![trigger call_ensures(update_fn, (v,), r)]
                {
                    &&& cloned(old(self)@[*key], *v)
                    &&& call_ensures(update_fn, (v,), r)
                    &&& r is Ok ==> final(self)@ == old(self)@.insert(*key, *final(v))
                    &&& r is Err ==> final(self)@ == old(self)@
                },
    {
        self.try_update_or(key, E::not_found_error(), update_fn)
    }
}

/// Context of the map of pools.
pub struct PoolsMapContext;

impl MapContext for PoolsMapContext {
    open spec fn spec_not_found_error() -> ErrorKind {
        ErrorKind::PoolNotRegistered
    }

    fn not_found_error() -> (e: ErrorKind) {
        ErrorKind::PoolNotRegistered
    }
}

/// Context of the map of accounts.
pub struct AccountsMapContext;

impl MapContext for AccountsMapContext {
    open spec fn spec_not_found_error() -> ErrorKind {
        ErrorKind::AccountNotRegistered
    }

    fn not_found_error() -> (e: ErrorKind) {
        ErrorKind::AccountNotRegistered
    }
}

/// Context of the map from positions to their pools.
pub struct PositionToPoolMapContext;

impl MapContext for PositionToPoolMapContext {
    open spec fn spec_not_found_error() -> ErrorKind {
        ErrorKind::PositionDoesNotExist
    }

    fn not_found_error() -> (e: ErrorKind) {
        ErrorKind::PositionDoesNotExist
    }
}

/// Context of the map of an account's token balances.
pub struct AccountTokenBalancesMapContext;

impl MapContext for AccountTokenBalancesMapContext {
    open spec fn spec_not_found_error() -> ErrorKind {
        ErrorKind::TokenNotRegistered
    }

    fn not_found_error() -> (e: ErrorKind) {
        ErrorKind::TokenNotRegistered
    }
}

/// Context of the map of a pool's positions.
pub struct PoolPositionsMapContext;

impl MapContext for PoolPositionsMapContext {
    open spec fn spec_not_found_error() -> ErrorKind {
        ErrorKind::PositionDoesNotExist
    }

    fn not_found_error() -> (e: ErrorKind) {
        ErrorKind::PositionDoesNotExist
    }
}

/// Context of the map of tick states.
pub struct TickStatesMapContext;

impl MapContext for TickStatesMapContext {
    open spec fn spec_not_found_error() -> ErrorKind {
        ErrorKind::InternalTickNotFound
    }

    fn not_found_error() -> (e: ErrorKind) {
        ErrorKind::InternalTickNotFound
    }
}

} // verus!
