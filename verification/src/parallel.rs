//! The operations on a pool of worker threads.
//!
//! The workers run the per-item half of an operation; the outcomes come back
//! in the order of the items, whichever worker finished first, and are merged
//! as every strategy merges them. Each operation therefore returns what its
//! sequential counterpart returns, absent fields included.
//!
//! There is no fold here: a fold is defined by the order of its steps, and
//! stays with the sequential functions.

use vstd::prelude::*;
use vstd::string::*;
use rayon::iter::{IntoParallelRefIterator, ParallelIterator};
use rayon::{ThreadPool, ThreadPoolBuildError, ThreadPoolBuilder};
use crate::engine::{
    applied, applied_each, apply_one, copied, copied_each, copy_one, gather,
    lemma_all_outcomes_decide, lemma_found_finds, lemma_gather_collects, lemma_gather_maps,
    lemma_select_filters, lemma_tally_counts, lemma_through_all, lemma_through_any, ran_through,
    select, take_found, tally, values,
};
use crate::error::{ErrorView, KeyPathError, KeyPathResult};
use crate::keypath::KeyPath;
use crate::model::{
    accepts, accepts_fields, all_hold, all_present, any_holds, collects_to, counts_to, field,
    filters_to, finds, lemma_chosen_lengths, maps_to, present,
};

verus! {

/// rayon's pool of worker threads (`rayon::ThreadPool`), carried as a value
/// that nothing here looks into.
#[verifier::external_type_specification]
#[verifier::external_body]
pub struct ExThreadPool(rayon::ThreadPool);

/// rayon's reason for not building a pool (`rayon::ThreadPoolBuildError`),
/// carried as a value that nothing here looks into but to show it as text.
#[verifier::external_type_specification]
#[verifier::external_body]
pub struct ExThreadPoolBuildError(rayon::ThreadPoolBuildError);

/// Runs `job` on every item, on rayon's current pool of workers
/// (`par_iter().map(job).collect()` into a `Vec`).
///
/// Trusted: rayon calls `job` once on each item, and a vector collected from
/// a parallel iterator over a slice is the vector a sequential `collect`
/// gives, so the output has one entry per item, the entry at each position a
/// result of `job` on the item there. Nothing is claimed about which worker
/// ran which call, or when.
#[verifier::external_body]
fn run_on_workers<T, R, J>(items: &Vec<T>, job: J) -> (out: Vec<R>) where
    T: Sync,
    R: Send,
    J: Fn(&T) -> R + Sync + Send,

    requires
        forall|i: int| 0 <= i < items@.len() ==> call_requires(job, (&#[trigger] items@[i],)),
    ensures
        out@.len() == items@.len(),
        forall|i: int| 0 <= i < items@.len() ==> call_ensures(job, (&items@[i],), #[trigger] out@[i]),
{
    items.par_iter().map(job).collect()
}

/// Asks rayon for a pool of `num_threads` workers
/// (`ThreadPoolBuilder::new().num_threads(..).build()`).
///
/// Trusted, and nothing is claimed: whether the pool can be had depends on
/// the machine.
#[verifier::external_body]
fn build_pool(num_threads: usize) -> (result: Result<ThreadPool, ThreadPoolBuildError>) {
    ThreadPoolBuilder::new().num_threads(num_threads).build()
}

/// Runs `job` inside `pool` (`ThreadPool::install`) and hands back what it returned.
///
/// Trusted: rayon calls `job` exactly once and returns its result.
#[verifier::external_body]
fn install<R, J>(pool: &ThreadPool, job: J) -> (r: R) where R: Send, J: FnOnce() -> R + Send
    requires
        call_requires(job, ()),
    ensures
        call_ensures(job, (), r),
{
    pool.install(job)
}

/// The error for a pool that could not be created, with the reason.
pub open spec fn pool_failed(reason: Seq<char>) -> ErrorView {
    ErrorView::ParallelError { message: "Failed to create thread pool: "@ + reason }
}

/// What a request for a pool has come to: the pool where one was built,
/// else `ParallelError` with the builder's reason, as it shows it, in the message.
pub fn pool_or_error(built: Result<ThreadPool, ThreadPoolBuildError>) -> (result: Result<
    ThreadPool,
    KeyPathError,
>)
    ensures
        built matches Ok(pool) ==> result == Ok::<ThreadPool, KeyPathError>(pool),
        built matches Err(refusal) ==> result is Err && exists|reason: String|
            to_string_from_display_ensures(&refusal, reason) && result->Err_0@
                == #[trigger] pool_failed(reason@),
{
    match built {
        Ok(pool) => Ok(pool),
        Err(refusal) => {
            let reason = refusal.to_string();
            let e = KeyPathError::ParallelError {
                message: String::from_str("Failed to create thread pool: ").concat(
                    reason.as_str(),
                ),
            };
            assert(e@ == pool_failed(reason@));
            Err(e)
        },
    }
}

/// Creates a pool of `num_threads` workers.
///
/// A pool of no workers is refused. Otherwise the pool is asked of the
/// machine, and the result is what `pool_or_error` makes of the answer: a
/// refusal comes back as `ParallelError` with the reason given.
pub fn create_keypath_thread_pool(num_threads: usize) -> (result: Result<ThreadPool, KeyPathError>)
    ensures
        num_threads == 0 ==> result is Err,
        result matches Err(e) ==> exists|reason: Seq<char>| e@ == #[trigger] pool_failed(reason),
        num_threads == 0 ==> (result matches Err(e) && e@ == pool_failed("no threads requested"@)),
{
    if num_threads == 0 {
        let e = KeyPathError::ParallelError {
            message: String::from_str("Failed to create thread pool: ").concat(
                "no threads requested",
            ),
        };
        assert(e@ == pool_failed("no threads requested"@));
        return Err(e);
    }
    let result = pool_or_error(build_pool(num_threads));
    proof {
        if result is Err {
            let reason = choose|reason: String| result->Err_0@ == #[trigger] pool_failed(reason@);
            assert(result->Err_0@ == pool_failed(reason@));
        }
    }
    result
}

/// The per-item outcomes of `f`, one worker call per item.
fn outcomes_on_workers<T, V, K, F, R>(collection: &Vec<T>, keypath: &K, f: &F) -> (out: Vec<
    Option<R>,
>) where
    T: Send + Sync,
    V: Send + Sync,
    K: KeyPath<T, V> + Send + Sync,
    F: Fn(&V) -> R + Send + Sync,
    R: Send,

    requires
        accepts_fields(f, keypath, collection@),
    ensures
        applied_each(keypath, f, collection@, out@),
{
    let job = |item: &T| -> (outcome: Option<R>)
        requires
            present(keypath, *item) ==> accepts(f, field(keypath, *item)),
        ensures
            applied(keypath, f, *item, outcome),
        { apply_one(item, keypath, f) };
    run_on_workers(collection, job)
}

/// A clone of every item's field, or nothing where it is absent, one worker
/// call per item.
fn copies_on_workers<T, V, K>(collection: &Vec<T>, keypath: &K) -> (out: Vec<Option<V>>) where
    T: Send + Sync,
    V: Send + Sync + Clone,
    K: KeyPath<T, V> + Send + Sync,

    ensures
        copied_each(keypath, collection@, out@),
{
    let job = |item: &T| -> (outcome: Option<V>)
        ensures
            copied(keypath, *item, outcome),
        { copy_one(item, keypath) };
    run_on_workers(collection, job)
}

/// Applies `f` to the field of every item, on the workers; the output is in
/// the order of the items.
pub fn par_map_keypath<T, V, K, F, R>(collection: Vec<T>, keypath: K, f: F) -> (result:
    KeyPathResult<Vec<R>>) where
    T: Send + Sync,
    V: Send + Sync,
    K: KeyPath<T, V> + Send + Sync,
    F: Fn(&V) -> R + Send + Sync,
    R: Send,

    requires
        accepts_fields(&f, &keypath, collection@),
    ensures
        maps_to(&keypath, &f, collection@, result),
        result matches Ok(out) ==> out@.len() == collection@.len(),
{
    let per_item = outcomes_on_workers(&collection, &keypath, &f);
    let ghost seen = per_item@;
    let result = gather(per_item);
    proof {
        lemma_gather_maps(&keypath, &f, collection@, seen, result);
    }
    result
}

/// Keeps the items on whose field `predicate` answers `true`; the verdicts
/// are taken on the workers, the items stay in the order they stand in.
pub fn par_filter_by_keypath<T, V, K, F>(collection: Vec<T>, keypath: K, predicate: F) -> (result:
    KeyPathResult<Vec<T>>) where
    T: Send + Sync,
    V: Send + Sync,
    K: KeyPath<T, V> + Send + Sync,
    F: Fn(&V) -> bool + Send + Sync,

    requires
        accepts_fields(&predicate, &keypath, collection@),
    ensures
        filters_to(&keypath, &predicate, collection@, result),
        result matches Ok(out) ==> out@.len() <= collection@.len(),
{
    let verdicts = outcomes_on_workers(&collection, &keypath, &predicate);
    let ghost items = collection@;
    let result = select(collection, &verdicts);
    proof {
        lemma_select_filters(&keypath, &predicate, items, verdicts@, result);
        if result is Ok {
            lemma_chosen_lengths(items, values(verdicts@));
        }
    }
    result
}

/// Finds the first item, in the order of the items, on whose field
/// `predicate` answers `true`.
///
/// The verdicts are taken on the workers for every item whose field is
/// present; the answer is that of a scan from the front, so a field that is
/// absent after the first match does not matter.
pub fn par_find_by_keypath<T, V, K, F>(collection: Vec<T>, keypath: K, predicate: F) -> (result:
    KeyPathResult<Option<T>>) where
    T: Send + Sync,
    V: Send + Sync,
    K: KeyPath<T, V> + Send + Sync,
    F: Fn(&V) -> bool + Send + Sync,

    requires
        accepts_fields(&predicate, &keypath, collection@),
    ensures
        finds(&keypath, &predicate, collection@, result),
        all_present(&keypath, collection@) ==> result is Ok,
{
    let verdicts = outcomes_on_workers(&collection, &keypath, &predicate);
    let ghost items = collection@;
    let result = take_found(collection, &verdicts);
    proof {
        lemma_all_outcomes_decide(&keypath, &predicate, items, verdicts@, false);
        lemma_found_finds(&keypath, &predicate, items, verdicts@, result);
    }
    result
}

/// Collects a clone of every item's field, taken on the workers, in the
/// order of the items.
pub fn par_collect_keypath<T, V, K>(collection: Vec<T>, keypath: K) -> (result: KeyPathResult<
    Vec<V>,
>) where T: Send + Sync, V: Send + Sync + Clone, K: KeyPath<T, V> + Send + Sync
    ensures
        collects_to(&keypath, collection@, result),
        result matches Ok(out) ==> out@.len() == collection@.len(),
{
    let per_item = copies_on_workers(&collection, &keypath);
    let ghost seen = per_item@;
    let result = gather(per_item);
    proof {
        lemma_gather_collects(&keypath, collection@, seen, result);
    }
    result
}

/// Counts the items on whose field `predicate` answers `true`; the verdicts
/// are taken on the workers.
pub fn par_count_by_keypath<T, V, K, F>(collection: Vec<T>, keypath: K, predicate: F) -> (result:
    KeyPathResult<usize>) where
    T: Send + Sync,
    V: Send + Sync,
    K: KeyPath<T, V> + Send + Sync,
    F: Fn(&V) -> bool + Send + Sync,

    requires
        accepts_fields(&predicate, &keypath, collection@),
    ensures
        counts_to(&keypath, &predicate, collection@, result),
        result matches Ok(n) ==> n <= collection@.len(),
{
    let verdicts = outcomes_on_workers(&collection, &keypath, &predicate);
    let result = tally(&verdicts);
    proof {
        lemma_tally_counts(&keypath, &predicate, collection@, verdicts@, result);
        if result is Ok {
            lemma_chosen_lengths(values(verdicts@), values(verdicts@));
        }
    }
    result
}

/// Whether `predicate` answers `true` on some item's field; the verdicts are
/// taken on the workers, the answer is that of a scan from the front.
pub fn par_any_by_keypath<T, V, K, F>(collection: Vec<T>, keypath: K, predicate: F) -> (result:
    KeyPathResult<bool>) where
    T: Send + Sync,
    V: Send + Sync,
    K: KeyPath<T, V> + Send + Sync,
    F: Fn(&V) -> bool + Send + Sync,

    requires
        accepts_fields(&predicate, &keypath, collection@),
    ensures
        any_holds(&keypath, &predicate, collection@, result),
        all_present(&keypath, collection@) ==> result is Ok,
{
    let verdicts = outcomes_on_workers(&collection, &keypath, &predicate);
    let through = ran_through(&verdicts, false);
    let result = match through {
        Ok(through) => Ok(!through),
        Err(e) => Err(e),
    };
    proof {
        lemma_all_outcomes_decide(&keypath, &predicate, collection@, verdicts@, false);
        lemma_through_any(&keypath, &predicate, collection@, verdicts@, through, result);
    }
    result
}

/// Whether `predicate` answers `true` on every item's field; the verdicts are
/// taken on the workers, the answer is that of a scan from the front.
pub fn par_all_by_keypath<T, V, K, F>(collection: Vec<T>, keypath: K, predicate: F) -> (result:
    KeyPathResult<bool>) where
    T: Send + Sync,
    V: Send + Sync,
    K: KeyPath<T, V> + Send + Sync,
    F: Fn(&V) -> bool + Send + Sync,

    requires
        accepts_fields(&predicate, &keypath, collection@),
    ensures
        all_hold(&keypath, &predicate, collection@, result),
        all_present(&keypath, collection@) ==> result is Ok,
{
    let verdicts = outcomes_on_workers(&collection, &keypath, &predicate);
    let result = ran_through(&verdicts, true);
    proof {
        lemma_all_outcomes_decide(&keypath, &predicate, collection@, verdicts@, true);
        lemma_through_all(&keypath, &predicate, collection@, verdicts@, result);
    }
    result
}

/// The per-item outcomes of `f`, one worker call per item, on the workers of `pool`.
pub fn outcomes_on_pool<T, V, K, F, R>(
    pool: &ThreadPool,
    collection: &Vec<T>,
    keypath: &K,
    f: &F,
) -> (out: Vec<Option<R>>) where
    T: Send + Sync,
    V: Send + Sync,
    K: KeyPath<T, V> + Send + Sync,
    F: Fn(&V) -> R + Send + Sync,
    R: Send,

    requires
        accepts_fields(f, keypath, collection@),
    ensures
        applied_each(keypath, f, collection@, out@),
{
    let job = move || -> (per_item: Vec<Option<R>>)
        requires
            accepts_fields(f, keypath, collection@),
        ensures
            applied_each(keypath, f, collection@, per_item@),
        { outcomes_on_workers(collection, keypath, f) };
    install(pool, job)
}

/// A clone of every item's field, or nothing where it is absent, taken on
/// the workers of `pool`.
pub fn copies_on_pool<T, V, K>(pool: &ThreadPool, collection: &Vec<T>, keypath: &K) -> (out: Vec<
    Option<V>,
>) where T: Send + Sync, V: Send + Sync + Clone, K: KeyPath<T, V> + Send + Sync
    ensures
        copied_each(keypath, collection@, out@),
{
    let job = move || -> (per_item: Vec<Option<V>>)
        ensures
            copied_each(keypath, collection@, per_item@),
        { copies_on_workers(collection, keypath) };
    install(pool, job)
}

/// Applies `operation` to the field of every item, on the workers of `pool`.
pub fn execute_on_pool<T, V, K, F, R>(
    pool: &ThreadPool,
    collection: Vec<T>,
    keypath: K,
    operation: F,
) -> (result: KeyPathResult<Vec<R>>) where
    T: Send + Sync,
    V: Send + Sync,
    K: KeyPath<T, V> + Send + Sync,
    F: Fn(&V) -> R + Send + Sync,
    R: Send,

    requires
        accepts_fields(&operation, &keypath, collection@),
    ensures
        maps_to(&keypath, &operation, collection@, result),
        result matches Ok(out) ==> out@.len() == collection@.len(),
{
    let per_item = outcomes_on_pool(pool, &collection, &keypath, &operation);
    let ghost seen = per_item@;
    let result = gather(per_item);
    proof {
        lemma_gather_maps(&keypath, &operation, collection@, seen, result);
    }
    result
}

/// Keeps the items on whose field `predicate` answers `true`, taking the
/// verdicts on the workers of `pool`.
pub fn filter_on_pool<T, V, K, F>(
    pool: &ThreadPool,
    collection: Vec<T>,
    keypath: K,
    predicate: F,
) -> (result: KeyPathResult<Vec<T>>) where
    T: Send + Sync,
    V: Send + Sync,
    K: KeyPath<T, V> + Send + Sync,
    F: Fn(&V) -> bool + Send + Sync,

    requires
        accepts_fields(&predicate, &keypath, collection@),
    ensures
        filters_to(&keypath, &predicate, collection@, result),
        result matches Ok(out) ==> out@.len() <= collection@.len(),
{
    let verdicts = outcomes_on_pool(pool, &collection, &keypath, &predicate);
    let ghost items = collection@;
    let result = select(collection, &verdicts);
    proof {
        lemma_select_filters(&keypath, &predicate, items, verdicts@, result);
        if result is Ok {
            lemma_chosen_lengths(items, values(verdicts@));
        }
    }
    result
}

} // verus!
