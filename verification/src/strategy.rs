//! One entry per operation, with the way to run it chosen by the caller.
//!
//! Whatever the choice, an operation returns what its contract says; the
//! one thing a strategy adds is that a pool of workers may not be had, which
//! the parallel strategy reports as `ParallelError` before reading anything.

use vstd::prelude::*;
use crate::collections::KeyPathsCollectionExt;
use crate::engine::{
    gather, lemma_all_outcomes_decide, lemma_found_finds, lemma_gather_collects,
    lemma_tally_counts, lemma_through_all, lemma_through_any, ran_through, take_found, tally,
    values,
};
use crate::error::KeyPathResult;
use crate::higher_order::{
    collect_keypath, filter_by_keypath, find_by_keypath, map_keypath_collection,
};
use crate::incremental::{
    all_by_steps, any_by_steps, collect_by_steps, count_by_steps, filter_by_steps, find_by_steps,
    map_by_steps,
};
use crate::keypath::KeyPath;
use crate::model::{
    accepts_fields, all_hold, any_holds, collects_to, counts_to, filters_to, finds,
    lemma_chosen_lengths, maps_to,
};
use crate::parallel::{
    copies_on_pool, create_keypath_thread_pool, execute_on_pool, filter_on_pool, outcomes_on_pool,
    pool_failed,
};

verus! {

/// How an operation is run.
#[derive(Debug, Clone, Copy, PartialEq, Eq)]
pub enum ExecutionStrategy {
    /// One item after another, in one flow of control.
    Sequential,
    /// On a pool of that many worker threads, made for the call.
    Parallel(usize),
    /// One step per item, as a driver takes them that waits for its items.
    Asynchronous,
}

/// The pool for a parallel run could not be had, and the call says so.
pub open spec fn pool_refused<R>(strategy: ExecutionStrategy, result: KeyPathResult<R>) -> bool {
    &&& strategy is Parallel
    &&& result is Err
    &&& exists|reason: Seq<char>| result->Err_0@ == #[trigger] pool_failed(reason)
}

/// Applies `f` to the field of every item, in order, run as `strategy` says.
///
/// The result is that of mapping, unless the pool for a parallel run could
/// not be had; a pool of no workers never can.
pub fn map_with<T, V, K, F, R>(strategy: ExecutionStrategy, collection: Vec<T>, keypath: K, f: F) -> (result:
    KeyPathResult<Vec<R>>) where
    T: Send + Sync,
    V: Send + Sync,
    K: KeyPath<T, V> + Send + Sync,
    F: Fn(&V) -> R + Send + Sync,
    R: Send,

    requires
        accepts_fields(&f, &keypath, collection@),
    ensures
        maps_to(&keypath, &f, collection@, result) || pool_refused(strategy, result),
        strategy == ExecutionStrategy::Parallel(0) ==> pool_refused(strategy, result),
{
    match strategy {
        ExecutionStrategy::Sequential => map_keypath_collection(collection.as_slice(), keypath, f),
        ExecutionStrategy::Parallel(workers) => match create_keypath_thread_pool(workers) {
            Ok(pool) => execute_on_pool(&pool, collection, keypath, f),
            Err(e) => Err(e),
        },
        ExecutionStrategy::Asynchronous => map_by_steps(collection.as_slice(), keypath, f),
    }
}

/// Keeps the items on whose field `predicate` answers `true`, run as `strategy` says.
///
/// The result is that of filtering, unless the pool for a parallel run could
/// not be had; a pool of no workers never can.
pub fn filter_with<T, V, K, F>(
    strategy: ExecutionStrategy,
    collection: Vec<T>,
    keypath: K,
    predicate: F,
) -> (result: KeyPathResult<Vec<T>>) where
    T: Send + Sync,
    V: Send + Sync,
    K: KeyPath<T, V> + Send + Sync,
    F: Fn(&V) -> bool + Send + Sync,

    requires
        accepts_fields(&predicate, &keypath, collection@),
    ensures
        filters_to(&keypath, &predicate, collection@, result) || pool_refused(strategy, result),
        strategy == ExecutionStrategy::Parallel(0) ==> pool_refused(strategy, result),
        result matches Ok(out) ==> out@.len() <= collection@.len(),
{
    match strategy {
        ExecutionStrategy::Sequential => filter_by_keypath(collection, keypath, predicate),
        ExecutionStrategy::Parallel(workers) => match create_keypath_thread_pool(workers) {
            Ok(pool) => filter_on_pool(&pool, collection, keypath, predicate),
            Err(e) => Err(e),
        },
        ExecutionStrategy::Asynchronous => filter_by_steps(collection, keypath, predicate),
    }
}

/// Finds the first item on whose field `predicate` answers `true`, run as `strategy` says.
///
/// The result is that of finding, unless the pool for a parallel run could
/// not be had; a pool of no workers never can.
pub fn find_with<T, V, K, F>(
    strategy: ExecutionStrategy,
    collection: Vec<T>,
    keypath: K,
    predicate: F,
) -> (result: KeyPathResult<Option<T>>) where
    T: Send + Sync,
    V: Send + Sync,
    K: KeyPath<T, V> + Send + Sync,
    F: Fn(&V) -> bool + Send + Sync,

    requires
        accepts_fields(&predicate, &keypath, collection@),
    ensures
        finds(&keypath, &predicate, collection@, result) || pool_refused(strategy, result),
        strategy == ExecutionStrategy::Parallel(0) ==> pool_refused(strategy, result),
{
    match strategy {
        ExecutionStrategy::Sequential => find_by_keypath(collection, keypath, predicate),
        ExecutionStrategy::Parallel(workers) => match create_keypath_thread_pool(workers) {
            Ok(pool) => {
                let verdicts = outcomes_on_pool(&pool, &collection, &keypath, &predicate);
                let ghost items = collection@;
                let result = take_found(collection, &verdicts);
                proof {
                    lemma_all_outcomes_decide(&keypath, &predicate, items, verdicts@, false);
                    lemma_found_finds(&keypath, &predicate, items, verdicts@, result);
                }
                result
            },
            Err(e) => Err(e),
        },
        ExecutionStrategy::Asynchronous => find_by_steps(collection, keypath, predicate),
    }
}

/// Collects a clone of every item's field, in order, run as `strategy` says.
///
/// The result is that of collecting, unless the pool for a parallel run
/// could not be had; a pool of no workers never can.
pub fn collect_with<T, V, K>(strategy: ExecutionStrategy, collection: Vec<T>, keypath: K) -> (result:
    KeyPathResult<Vec<V>>) where
    T: Send + Sync,
    V: Send + Sync + Clone,
    K: KeyPath<T, V> + Send + Sync,

    ensures
        collects_to(&keypath, collection@, result) || pool_refused(strategy, result),
        strategy == ExecutionStrategy::Parallel(0) ==> pool_refused(strategy, result),
{
    match strategy {
        ExecutionStrategy::Sequential => collect_keypath(collection, keypath),
        ExecutionStrategy::Parallel(workers) => match create_keypath_thread_pool(workers) {
            Ok(pool) => {
                let per_item = copies_on_pool(&pool, &collection, &keypath);
                let ghost seen = per_item@;
                let result = gather(per_item);
                proof {
                    lemma_gather_collects(&keypath, collection@, seen, result);
                }
                result
            },
            Err(e) => Err(e),
        },
        ExecutionStrategy::Asynchronous => collect_by_steps(collection.as_slice(), keypath),
    }
}

/// Counts the items on whose field `predicate` answers `true`, run as `strategy` says.
///
/// The result is that of counting, unless the pool for a parallel run could
/// not be had; a pool of no workers never can.
pub fn count_with<T, V, K, F>(
    strategy: ExecutionStrategy,
    collection: Vec<T>,
    keypath: K,
    predicate: F,
) -> (result: KeyPathResult<usize>) where
    T: Send + Sync,
    V: Send + Sync,
    K: KeyPath<T, V> + Send + Sync,
    F: Fn(&V) -> bool + Send + Sync,

    requires
        accepts_fields(&predicate, &keypath, collection@),
    ensures
        counts_to(&keypath, &predicate, collection@, result) || pool_refused(strategy, result),
        strategy == ExecutionStrategy::Parallel(0) ==> pool_refused(strategy, result),
        result matches Ok(n) ==> n <= collection@.len(),
{
    match strategy {
        ExecutionStrategy::Sequential => collection.count_by_keypath(keypath, predicate),
        ExecutionStrategy::Parallel(workers) => match create_keypath_thread_pool(workers) {
            Ok(pool) => {
                let verdicts = outcomes_on_pool(&pool, &collection, &keypath, &predicate);
                let result = tally(&verdicts);
                proof {
                    lemma_tally_counts(&keypath, &predicate, collection@, verdicts@, result);
                    if result is Ok {
                        lemma_chosen_lengths(values(verdicts@), values(verdicts@));
                    }
                }
                result
            },
            Err(e) => Err(e),
        },
        ExecutionStrategy::Asynchronous => count_by_steps(
            collection.as_slice(),
            keypath,
            predicate,
        ),
    }
}

/// Whether `predicate` answers `true` on some item's field, run as `strategy` says.
///
/// The result is that of asking for any, unless the pool for a parallel run
/// could not be had; a pool of no workers never can.
pub fn any_with<T, V, K, F>(
    strategy: ExecutionStrategy,
    collection: Vec<T>,
    keypath: K,
    predicate: F,
) -> (result: KeyPathResult<bool>) where
    T: Send + Sync,
    V: Send + Sync,
    K: KeyPath<T, V> + Send + Sync,
    F: Fn(&V) -> bool + Send + Sync,

    requires
        accepts_fields(&predicate, &keypath, collection@),
    ensures
        any_holds(&keypath, &predicate, collection@, result) || pool_refused(strategy, result),
        strategy == ExecutionStrategy::Parallel(0) ==> pool_refused(strategy, result),
{
    match strategy {
        ExecutionStrategy::Sequential => collection.any_by_keypath(keypath, predicate),
        ExecutionStrategy::Parallel(workers) => match create_keypath_thread_pool(workers) {
            Ok(pool) => {
                let verdicts = outcomes_on_pool(&pool, &collection, &keypath, &predicate);
                let through = ran_through(&verdicts, false);
                let result = match through {
                    Ok(through) => Ok(!through),
                    Err(e) => Err(e),
                };
                proof {
                    lemma_all_outcomes_decide(&keypath, &predicate, collection@, verdicts@, false);
                    lemma_through_any(
                        &keypath,
                        &predicate,
                        collection@,
                        verdicts@,
                        through,
                        result,
                    );
                }
                result
            },
            Err(e) => Err(e),
        },
        ExecutionStrategy::Asynchronous => any_by_steps(collection.as_slice(), keypath, predicate),
    }
}

/// Whether `predicate` answers `true` on every item's field, run as `strategy` says.
///
/// The result is that of asking for all, unless the pool for a parallel run
/// could not be had; a pool of no workers never can.
pub fn all_with<T, V, K, F>(
    strategy: ExecutionStrategy,
    collection: Vec<T>,
    keypath: K,
    predicate: F,
) -> (result: KeyPathResult<bool>) where
    T: Send + Sync,
    V: Send + Sync,
    K: KeyPath<T, V> + Send + Sync,
    F: Fn(&V) -> bool + Send + Sync,

    requires
        accepts_fields(&predicate, &keypath, collection@),
    ensures
        all_hold(&keypath, &predicate, collection@, result) || pool_refused(strategy, result),
        strategy == ExecutionStrategy::Parallel(0) ==> pool_refused(strategy, result),
{
    match strategy {
        ExecutionStrategy::Sequential => collection.all_by_keypath(keypath, predicate),
        ExecutionStrategy::Parallel(workers) => match create_keypath_thread_pool(workers) {
            Ok(pool) => {
                let verdicts = outcomes_on_pool(&pool, &collection, &keypath, &predicate);
                let result = ran_through(&verdicts, true);
                proof {
                    lemma_all_outcomes_decide(&keypath, &predicate, collection@, verdicts@, true);
                    lemma_through_all(&keypath, &predicate, collection@, verdicts@, result);
                }
                result
            },
            Err(e) => Err(e),
        },
        ExecutionStrategy::Asynchronous => all_by_steps(collection.as_slice(), keypath, predicate),
    }
}

} // verus!
