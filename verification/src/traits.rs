//! Reading through an accessor as a method of the value, and the grouping,
//! partitioning and sorting of a vector under a second trait.

use vstd::prelude::*;
use vstd::std_specs::hash::*;
use vstd::string::*;
use core::cmp::Ordering;
use std::collections::HashMap;
use std::hash::Hash;
use crate::collections::KeyPathsCollectionExt;
use crate::error::{access_failed, access_failure, ErrorView, KeyPathError, KeyPathResult};
use crate::higher_order::{accepts_comparisons, grouped, sorted_by};
use crate::keypath::KeyPath;
use crate::model::{
    accepts_fields, all_present, clones_of, dropped, field, fields, kept, outcomes, present,
};

verus! {

/// The error for writing through an accessor that only reads.
pub open spec fn mutation_unsupported() -> ErrorView {
    ErrorView::InvalidAccess { message: "KeyPath mutation not supported in this context"@ }
}

/// Access through an accessor, as a method of the value accessed.
pub trait KeyPathsOperable: Sized {
    /// Reads the field, or reports its absence as `InvalidAccess`.
    fn get_at_keypath<'a, V, K: KeyPath<Self, V>>(&'a self, keypath: &'a K) -> (result:
        KeyPathResult<&'a V>)
        ensures
            result is Ok <==> present(keypath, *self),
            result matches Ok(v) ==> *v == field(keypath, *self),
            result matches Err(e) ==> e@ == access_failed(),
    ;

    /// Refuses to write: an accessor that only reads cannot reach the field
    /// for writing. The value is left as it was.
    fn set_at_keypath<V, K: KeyPath<Self, V>>(&mut self, keypath: K, value: V) -> (result:
        KeyPathResult<()>)
        ensures
            result matches Err(e) && e@ == mutation_unsupported(),
            *final(self) == *old(self),
    ;
}

impl<T> KeyPathsOperable for T {
    fn get_at_keypath<'a, V, K: KeyPath<T, V>>(&'a self, keypath: &'a K) -> (result: KeyPathResult<
        &'a V,
    >) {
        match keypath.get(self) {
            Some(v) => Ok(v),
            None => Err(access_failure()),
        }
    }

    fn set_at_keypath<V, K: KeyPath<T, V>>(&mut self, keypath: K, value: V) -> (result:
        KeyPathResult<()>) {
        Err(
            KeyPathError::InvalidAccess {
                message: String::from_str("KeyPath mutation not supported in this context"),
            },
        )
    }
}

/// Grouping, partitioning and sorting of a collection by a field.
///
/// These are the operations of `KeyPathsCollectionExt` under their second
/// name; each returns what that one returns.
pub trait KeyPathsCollection<T>: View<V = Seq<T>> {
    /// Groups clones of the items by the key `f` gives for each item's field.
    fn group_by_keypath<V, K, F, G>(&self, keypath: K, f: F) -> (result: KeyPathResult<
        HashMap<G, Vec<T>>,
    >) where K: KeyPath<T, V>, F: Fn(&V) -> G, G: Hash + Eq, T: Clone
        requires
            obeys_key_model::<G>(),
            accepts_fields(&f, &keypath, self@),
        ensures
            result is Ok <==> all_present(&keypath, self@),
            result matches Ok(groups) ==> exists|keys: Seq<G>, copies: Seq<T>| #[trigger]
                outcomes(&f, fields(&keypath, self@), keys) && #[trigger] clones_of(self@, copies)
                    && grouped(copies, keys, groups@),
            result matches Err(e) ==> e@ == access_failed(),
    ;

    /// Splits clones of the items by `predicate`, each side in the order of the collection.
    fn partition_by_keypath<V, K, F>(&self, keypath: K, predicate: F) -> (result: KeyPathResult<
        (Vec<T>, Vec<T>),
    >) where T: Clone, K: KeyPath<T, V>, F: Fn(&V) -> bool
        requires
            accepts_fields(&predicate, &keypath, self@),
        ensures
            result is Ok <==> all_present(&keypath, self@),
            result matches Ok(sides) ==> exists|verdicts: Seq<bool>, copies: Seq<T>| #[trigger]
                outcomes(&predicate, fields(&keypath, self@), verdicts) && #[trigger] clones_of(
                    self@,
                    copies,
                ) && sides.0@ == kept(copies, verdicts) && sides.1@ == dropped(copies, verdicts),
            result matches Ok(sides) ==> sides.0@.len() + sides.1@.len() == self@.len(),
            result matches Err(e) ==> e@ == access_failed(),
    ;

    /// Sorts the collection in place by the field, stably.
    fn sort_by_keypath<V, K, F>(&mut self, keypath: K, compare: F) -> (result: KeyPathResult<()>)
        where K: KeyPath<T, V>, F: Fn(&V, &V) -> Ordering
        requires
            accepts_comparisons(&compare, &keypath, old(self)@),
        ensures
            result is Ok <==> all_present(&keypath, old(self)@),
            result is Ok ==> exists|origin: Seq<int>| #[trigger]
                sorted_by(&keypath, &compare, old(self)@, final(self)@, origin),
            result matches Err(e) ==> e@ == access_failed() && final(self)@ == old(self)@,
    ;
}

impl<T> KeyPathsCollection<T> for Vec<T> {
    fn group_by_keypath<V, K, F, G>(&self, keypath: K, f: F) -> (result: KeyPathResult<
        HashMap<G, Vec<T>>,
    >) where K: KeyPath<T, V>, F: Fn(&V) -> G, G: Hash + Eq, T: Clone {
        KeyPathsCollectionExt::group_by_keypath(self, keypath, f)
    }

    fn partition_by_keypath<V, K, F>(&self, keypath: K, predicate: F) -> (result: KeyPathResult<
        (Vec<T>, Vec<T>),
    >) where T: Clone, K: KeyPath<T, V>, F: Fn(&V) -> bool {
        KeyPathsCollectionExt::partition_by_keypath(self, keypath, predicate)
    }

    fn sort_by_keypath<V, K, F>(&mut self, keypath: K, compare: F) -> (result: KeyPathResult<()>)
        where K: KeyPath<T, V>, F: Fn(&V, &V) -> Ordering {
        crate::higher_order::sort_by_keypath(self, keypath, compare)
    }
}

} // verus!
