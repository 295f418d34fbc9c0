//! The operations taken one item at a time.
//!
//! This is how a driver runs an operation that has to wait for its items: it
//! hands each item to the per-item half as it arrives, may do other work
//! before the next, and merges the outcomes at the end. A scan asks for no
//! further item once an outcome has decided it. The functions here are that
//! driver without the waiting, and return what the sequential operations return.

use vstd::prelude::*;
use crate::engine::{
    applied, applied_each, apply_one, copied_each, copy_one, decides_scan, gather, goes_on,
    lemma_found_finds, lemma_gather_collects, lemma_gather_maps, lemma_scan_end,
    lemma_select_filters, lemma_tally_counts, lemma_through_all, lemma_through_any, ran_through,
    scan_end, select, take_found, tally, values,
};
use crate::error::KeyPathResult;
use crate::keypath::KeyPath;
use crate::model::{
    accepts_fields, all_hold, all_present, any_holds, collects_to, counts_to, filters_to, finds,
    lemma_chosen_lengths, maps_to,
};

verus! {

/// The outcome of `f` on every item, one step per item.
pub fn outcomes_by_steps<T, V, K, F, R>(collection: &[T], keypath: &K, f: &F) -> (per_item: Vec<
    Option<R>,
>) where K: KeyPath<T, V>, F: Fn(&V) -> R
    requires
        accepts_fields(f, keypath, collection@),
    ensures
        applied_each(keypath, f, collection@, per_item@),
{
    let mut per_item: Vec<Option<R>> = Vec::new();
    let mut i: usize = 0;
    while i < collection.len()
        invariant
            i <= collection@.len(),
            accepts_fields(f, keypath, collection@),
            per_item@.len() == i,
            forall|j: int|
                0 <= j < i ==> applied(keypath, f, collection@[j], #[trigger] per_item@[j]),
        decreases collection@.len() - i,
    {
        per_item.push(apply_one(&collection[i], keypath, f));
        i += 1;
    }
    per_item
}

/// The verdicts of `predicate`, one step per item, up to and including the
/// first that is missing or differs from `passing`.
pub fn verdicts_while<T, V, K, F>(collection: &[T], keypath: &K, predicate: &F, passing: bool) -> (per_item:
    Vec<Option<bool>>) where K: KeyPath<T, V>, F: Fn(&V) -> bool
    requires
        accepts_fields(predicate, keypath, collection@),
    ensures
        decides_scan(keypath, predicate, collection@, per_item@, passing),
        forall|j: int| 0 <= j < per_item@.len() - 1 ==> #[trigger] per_item@[j] == Some(passing),
{
    let mut per_item: Vec<Option<bool>> = Vec::new();
    let mut i: usize = 0;
    let mut more = true;
    while more && i < collection.len()
        invariant
            i <= collection@.len(),
            accepts_fields(predicate, keypath, collection@),
            per_item@.len() == i,
            forall|j: int|
                0 <= j < i ==> applied(keypath, predicate, collection@[j], #[trigger] per_item@[j]),
            forall|j: int| 0 <= j < i - 1 ==> #[trigger] per_item@[j] == Some(passing),
            more ==> forall|j: int| 0 <= j < i ==> #[trigger] per_item@[j] == Some(passing),
            !more ==> i > 0 && per_item@[i - 1] != Some(passing),
        decreases collection@.len() - i,
    {
        let verdict = apply_one(&collection[i], keypath, predicate);
        more = goes_on(verdict, passing);
        per_item.push(verdict);
        i += 1;
    }
    proof {
        lemma_scan_end(per_item@, passing);
        if per_item@.len() < collection@.len() && scan_end(per_item@, passing) == per_item@.len() {
            assert(per_item@[i - 1] == Some(passing));
        }
    }
    per_item
}

/// Applies `f` to the field of every item, one step per item.
pub fn map_by_steps<T, V, K, F, R>(collection: &[T], keypath: K, f: F) -> (result: KeyPathResult<
    Vec<R>,
>) where K: KeyPath<T, V>, F: Fn(&V) -> R
    requires
        accepts_fields(&f, &keypath, collection@),
    ensures
        maps_to(&keypath, &f, collection@, result),
        result matches Ok(out) ==> out@.len() == collection@.len(),
{
    let per_item = outcomes_by_steps(collection, &keypath, &f);
    let ghost seen = per_item@;
    let result = gather(per_item);
    proof {
        lemma_gather_maps(&keypath, &f, collection@, seen, result);
    }
    result
}

/// Keeps the items on whose field `predicate` answers `true`, taking the
/// verdicts one step per item.
pub fn filter_by_steps<T, V, K, F>(collection: Vec<T>, keypath: K, predicate: F) -> (result:
    KeyPathResult<Vec<T>>) where K: KeyPath<T, V>, F: Fn(&V) -> bool
    requires
        accepts_fields(&predicate, &keypath, collection@),
    ensures
        filters_to(&keypath, &predicate, collection@, result),
        result matches Ok(out) ==> out@.len() <= collection@.len(),
{
    let verdicts = outcomes_by_steps(collection.as_slice(), &keypath, &predicate);
    let ghost items = collection@;
    let result = select(collection, &verdicts);
    proof {
        lemma_select_filters(&keypath, &predicate, items, verdicts@, result);
        if result is Ok {
            lemma_chosen_lengths(items, values(verdicts@));
        }
    }
    result
}

/// Finds the first item on whose field `predicate` answers `true`, asking
/// for no item after it.
pub fn find_by_steps<T, V, K, F>(collection: Vec<T>, keypath: K, predicate: F) -> (result:
    KeyPathResult<Option<T>>) where K: KeyPath<T, V>, F: Fn(&V) -> bool
    requires
        accepts_fields(&predicate, &keypath, collection@),
    ensures
        finds(&keypath, &predicate, collection@, result),
        all_present(&keypath, collection@) ==> result is Ok,
{
    let verdicts = verdicts_while(collection.as_slice(), &keypath, &predicate, false);
    let ghost items = collection@;
    let result = take_found(collection, &verdicts);
    proof {
        lemma_found_finds(&keypath, &predicate, items, verdicts@, result);
    }
    result
}

/// Collects a clone of every item's field, one step per item.
pub fn collect_by_steps<T, V, K>(collection: &[T], keypath: K) -> (result: KeyPathResult<Vec<V>>)
    where K: KeyPath<T, V>, V: Clone
    ensures
        collects_to(&keypath, collection@, result),
        result matches Ok(out) ==> out@.len() == collection@.len(),
{
    let mut per_item: Vec<Option<V>> = Vec::new();
    let mut i: usize = 0;
    while i < collection.len()
        invariant
            i <= collection@.len(),
            copied_each(&keypath, collection@.take(i as int), per_item@),
        decreases collection@.len() - i,
    {
        per_item.push(copy_one(&collection[i], &keypath));
        i += 1;
    }
    assert(collection@.take(i as int) == collection@);
    let ghost seen = per_item@;
    let result = gather(per_item);
    proof {
        lemma_gather_collects(&keypath, collection@, seen, result);
    }
    result
}

/// Counts the items on whose field `predicate` answers `true`, taking the
/// verdicts one step per item.
pub fn count_by_steps<T, V, K, F>(collection: &[T], keypath: K, predicate: F) -> (result:
    KeyPathResult<usize>) where K: KeyPath<T, V>, F: Fn(&V) -> bool
    requires
        accepts_fields(&predicate, &keypath, collection@),
    ensures
        counts_to(&keypath, &predicate, collection@, result),
        result matches Ok(n) ==> n <= collection@.len(),
{
    let verdicts = outcomes_by_steps(collection, &keypath, &predicate);
    let result = tally(&verdicts);
    proof {
        lemma_tally_counts(&keypath, &predicate, collection@, verdicts@, result);
        if result is Ok {
            lemma_chosen_lengths(values(verdicts@), values(verdicts@));
        }
    }
    result
}

/// Whether `predicate` answers `true` on some item's field, asking for no
/// item after the first on which it does.
pub fn any_by_steps<T, V, K, F>(collection: &[T], keypath: K, predicate: F) -> (result:
    KeyPathResult<bool>) where K: KeyPath<T, V>, F: Fn(&V) -> bool
    requires
        accepts_fields(&predicate, &keypath, collection@),
    ensures
        any_holds(&keypath, &predicate, collection@, result),
        all_present(&keypath, collection@) ==> result is Ok,
{
    let verdicts = verdicts_while(collection, &keypath, &predicate, false);
    let through = ran_through(&verdicts, false);
    let result = match through {
        Ok(through) => Ok(!through),
        Err(e) => Err(e),
    };
    proof {
        lemma_through_any(&keypath, &predicate, collection@, verdicts@, through, result);
    }
    result
}

/// Whether `predicate` answers `true` on every item's field, asking for no
/// item after the first on which it does not.
pub fn all_by_steps<T, V, K, F>(collection: &[T], keypath: K, predicate: F) -> (result:
    KeyPathResult<bool>) where K: KeyPath<T, V>, F: Fn(&V) -> bool
    requires
        accepts_fields(&predicate, &keypath, collection@),
    ensures
        all_hold(&keypath, &predicate, collection@, result),
        all_present(&keypath, collection@) ==> result is Ok,
{
    let verdicts = verdicts_while(collection, &keypath, &predicate, true);
    let result = ran_through(&verdicts, true);
    proof {
        lemma_through_all(&keypath, &predicate, collection@, verdicts@, result);
    }
    result
}

} // verus!
