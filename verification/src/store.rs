//! The engine's hash collections, as far as the library relies on them.
//!
//! Nothing in this file is proved. `bevy::utils` exports the hash set and
//! the hash map of the `hashbrown` crate under a hasher of its choice. Each
//! function here hands one call to one of the two, and its contract repeats
//! what `hashbrown` documents of that call. The rest of the library is
//! proved against these contracts.

use vstd::prelude::*;
use crate::symbols::Input;

verus! {

/// A set of numbers, stored in `bevy::utils::HashSet<u64>`.
#[verifier::external_body]
pub struct CodeSet {
    inner: bevy::utils::HashSet<u64>,
}

/// The numbers that a `CodeSet` holds.
pub uninterp spec fn code_set_contents(set: CodeSet) -> Set<u64>;

impl View for CodeSet {
    type V = Set<u64>;

    open spec fn view(&self) -> Set<u64> {
        code_set_contents(*self)
    }
}

impl CodeSet {
    /// `HashSet::new`: the set it creates holds nothing.
    #[verifier::external_body]
    pub(crate) fn new() -> (set: CodeSet)
        ensures
            code_set_contents(set) =~= Set::empty(),
    {
        CodeSet { inner: bevy::utils::HashSet::new() }
    }

    /// `HashSet::insert`: the value is in the set afterwards, nothing else
    /// changes, and the result tells whether the value was absent before.
    #[verifier::external_body]
    pub(crate) fn insert(&mut self, code: u64) -> (fresh: bool)
        ensures
            code_set_contents(*final(self)) =~= code_set_contents(*old(self)).insert(code),
            fresh == !code_set_contents(*old(self)).contains(code),
    {
        self.inner.insert(code)
    }

    /// `HashSet::remove`: the value is gone afterwards, nothing else changes,
    /// and the result tells whether the value was present before.
    #[verifier::external_body]
    pub(crate) fn remove(&mut self, code: u64) -> (present: bool)
        ensures
            code_set_contents(*final(self)) =~= code_set_contents(*old(self)).remove(code),
            present == code_set_contents(*old(self)).contains(code),
    {
        self.inner.remove(&code)
    }

    /// `HashSet::contains`: whether the set holds the value.
    #[verifier::external_body]
    pub(crate) fn contains(&self, code: u64) -> (present: bool)
        ensures
            present == code_set_contents(*self).contains(code),
    {
        self.inner.contains(&code)
    }

    /// `HashSet::clear`: the set holds nothing afterwards.
    #[verifier::external_body]
    pub(crate) fn clear(&mut self)
        ensures
            code_set_contents(*final(self)) =~= Set::empty(),
    {
        self.inner.clear()
    }

    /// `HashSet::is_empty`: whether the set holds no value at all.
    #[verifier::external_body]
    pub(crate) fn is_empty(&self) -> (empty: bool)
        ensures
            empty == (code_set_contents(*self) =~= Set::empty()),
    {
        self.inner.is_empty()
    }

    /// `Clone::clone_from` of the hash set: afterwards the set holds what
    /// the source holds.
    #[verifier::external_body]
    pub(crate) fn copy_from(&mut self, source: &CodeSet)
        ensures
            code_set_contents(*final(self)) =~= code_set_contents(*source),
    {
        self.inner.clone_from(&source.inner)
    }
}

/// A table from numbers to lists of raw input symbols, stored in
/// `bevy::utils::HashMap<u64, Vec<Input>>`.
#[verifier::external_body]
pub struct BindingMap {
    inner: bevy::utils::HashMap<u64, Vec<Input>>,
}

/// The entries that a `BindingMap` holds.
pub uninterp spec fn binding_map_contents(map: BindingMap) -> Map<u64, Seq<Input>>;

impl View for BindingMap {
    type V = Map<u64, Seq<Input>>;

    open spec fn view(&self) -> Map<u64, Seq<Input>> {
        binding_map_contents(*self)
    }
}

impl BindingMap {
    /// `HashMap::new`: the map it creates has no entry.
    #[verifier::external_body]
    pub(crate) fn new() -> (table: BindingMap)
        ensures
            binding_map_contents(table) =~= Map::empty(),
    {
        BindingMap { inner: bevy::utils::HashMap::new() }
    }

    /// `HashMap::insert`: afterwards the key maps to the new list and every
    /// other entry is as before; the result is the list that the key mapped
    /// to before, if it had one.
    #[verifier::external_body]
    pub(crate) fn insert(&mut self, key: u64, symbols: Vec<Input>) -> (previous: Option<
        Vec<Input>,
    >)
        ensures
            binding_map_contents(*final(self)) =~= binding_map_contents(*old(self)).insert(
                key,
                symbols@,
            ),
            previous.is_some() == binding_map_contents(*old(self)).contains_key(key),
            previous matches Some(list) ==> list@ == binding_map_contents(*old(self))[key],
    {
        self.inner.insert(key, symbols)
    }

    /// `HashMap::remove`: afterwards the key has no entry and every other
    /// entry is as before; the result is the list that the key mapped to
    /// before, if it had one.
    #[verifier::external_body]
    pub(crate) fn remove(&mut self, key: u64) -> (previous: Option<Vec<Input>>)
        ensures
            binding_map_contents(*final(self)) =~= binding_map_contents(*old(self)).remove(key),
            previous.is_some() == binding_map_contents(*old(self)).contains_key(key),
            previous matches Some(list) ==> list@ == binding_map_contents(*old(self))[key],
    {
        self.inner.remove(&key)
    }

    /// `HashMap::get`: the list that the key maps to, if it has one.
    #[verifier::external_body]
    pub(crate) fn get(&self, key: u64) -> (found: Option<&Vec<Input>>)
        ensures
            found.is_some() == binding_map_contents(*self).contains_key(key),
            found matches Some(list) ==> list@ == binding_map_contents(*self)[key],
    {
        self.inner.get(&key)
    }
}

} // verus!
