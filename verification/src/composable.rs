//! Composition helpers: `pipe`, conditional application, reusable
//! operations, and a chain of operations that remembers the first failure.

use vstd::prelude::*;
use crate::error::{access_failed, access_failure, KeyPathError, KeyPathResult};
use crate::higher_order::{
    accepts_steps, filter_by_keypath, fold_keypath, folds_to, map_keypath_collection,
};
use crate::keypath::KeyPath;
use crate::merging::reversed;
use crate::model::{
    accepts, accepts_fields, all_present, each_before, fails_at, field, fields, filters_to,
    maps_to, present, runs_through, stops_at, yields,
};

verus! {

/// Applies `f` to `value`.
pub fn pipe<T, F, R>(value: T, f: F) -> (result: R) where F: FnOnce(T) -> R
    requires
        call_requires(f, (value,)),
    ensures
        call_ensures(f, (value,), result),
{
    f(value)
}

/// A collection on its way through a chain of operations.
///
/// The chain holds either the items so far or the first failure. Once an
/// operation has failed, every later one passes the failure on untouched, and
/// `collect` hands it out.
pub struct KeyPathsChain<T> {
    state: KeyPathResult<Vec<T>>,
}

/// Starts a chain on `collection`.
pub fn chain_keypath_ops<T>(collection: Vec<T>) -> (chain: KeyPathsChain<T>)
    ensures
        chain.outcome() == Ok::<Vec<T>, KeyPathError>(collection),
{
    KeyPathsChain::new(collection)
}

impl<T> KeyPathsChain<T> {
    /// What the chain holds: the items so far, or the first failure.
    pub closed spec fn outcome(&self) -> KeyPathResult<Vec<T>> {
        self.state
    }

    /// A chain that holds `collection`.
    pub fn new(collection: Vec<T>) -> (chain: Self)
        ensures
            chain.outcome() == Ok::<Vec<T>, KeyPathError>(collection),
    {
        KeyPathsChain { state: Ok(collection) }
    }

    /// Keeps the items on whose field `predicate` answers `true`.
    ///
    /// A chain that has failed stays as it is; otherwise the chain goes on
    /// with what filtering its items returns, failure included.
    pub fn filter_by_keypath<V, K, F>(self, keypath: K, predicate: F) -> (next: Self) where
        K: KeyPath<T, V>,
        F: Fn(&V) -> bool,

        requires
            self.outcome() matches Ok(items) ==> accepts_fields(&predicate, &keypath, items@),
        ensures
            self.outcome() matches Ok(items) ==> filters_to(
                &keypath,
                &predicate,
                items@,
                next.outcome(),
            ),
            self.outcome() is Err ==> next.outcome() == self.outcome(),
    {
        match self.state {
            Ok(items) => KeyPathsChain { state: filter_by_keypath(items, keypath, predicate) },
            Err(e) => KeyPathsChain { state: Err(e) },
        }
    }

    /// Replaces every item by `f` of its field.
    ///
    /// A chain that has failed passes its failure on; otherwise the chain goes
    /// on with what mapping its items returns, failure included.
    pub fn map_keypath<V, K, F, R>(self, keypath: K, f: F) -> (next: KeyPathsChain<R>) where
        K: KeyPath<T, V>,
        F: Fn(&V) -> R,

        requires
            self.outcome() matches Ok(items) ==> accepts_fields(&f, &keypath, items@),
        ensures
            self.outcome() matches Ok(items) ==> maps_to(&keypath, &f, items@, next.outcome()),
            self.outcome() matches Err(e) ==> next.outcome() == Err::<Vec<R>, KeyPathError>(e),
    {
        match self.state {
            Ok(items) => KeyPathsChain {
                state: map_keypath_collection(items.as_slice(), keypath, f),
            },
            Err(e) => KeyPathsChain { state: Err(e) },
        }
    }

    /// Folds `f` over the fields of the items, from the left, and ends the chain.
    ///
    /// A chain that has failed gives its failure; otherwise the result is what
    /// folding its items returns.
    pub fn fold_keypath<V, K, F, B>(self, keypath: K, init: B, f: F) -> (result: KeyPathResult<
        B,
    >) where K: KeyPath<T, V>, F: Fn(B, &V) -> B
        requires
            self.outcome() matches Ok(items) ==> accepts_steps(&f, &keypath, items@),
        ensures
            self.outcome() matches Ok(items) ==> {
                &&& result is Ok <==> all_present(&keypath, items@)
                &&& result matches Ok(total) ==> folds_to(
                    &f,
                    fields(&keypath, items@),
                    init,
                    total,
                )
                &&& result matches Err(e) ==> e@ == access_failed()
            },
            self.outcome() matches Err(e) ==> result == Err::<B, KeyPathError>(e),
    {
        match self.state {
            Ok(items) => fold_keypath(items, keypath, init, f),
            Err(e) => Err(e),
        }
    }

    /// Ends the chain: the items it holds, or the first failure.
    pub fn collect(self) -> (result: KeyPathResult<Vec<T>>)
        ensures
            result == self.outcome(),
    {
        self.state
    }

    /// Keeps the first `n` items, or all of them where there are fewer.
    pub fn take(self, n: usize) -> (next: Self)
        ensures
            self.outcome() matches Ok(items) ==> next.outcome() matches Ok(rest) && rest@
                == items@.take(if n <= items@.len() { n as int } else { items@.len() as int }),
            self.outcome() is Err ==> next.outcome() == self.outcome(),
    {
        match self.state {
            Ok(items) => {
                let mut items = items;
                items.truncate(n);
                KeyPathsChain { state: Ok(items) }
            },
            Err(e) => KeyPathsChain { state: Err(e) },
        }
    }

    /// Drops the first `n` items, or all of them where there are fewer.
    pub fn skip(self, n: usize) -> (next: Self)
        ensures
            self.outcome() matches Ok(items) ==> next.outcome() matches Ok(rest) && rest@
                == items@.skip(if n <= items@.len() { n as int } else { items@.len() as int }),
            self.outcome() is Err ==> next.outcome() == self.outcome(),
    {
        match self.state {
            Ok(items) => {
                let mut items = items;
                let at = if n <= items.len() {
                    n
                } else {
                    items.len()
                };
                let rest = items.split_off(at);
                KeyPathsChain { state: Ok(rest) }
            },
            Err(e) => KeyPathsChain { state: Err(e) },
        }
    }

    /// Reverses the order of the items.
    pub fn rev(self) -> (next: Self)
        ensures
            self.outcome() matches Ok(items) ==> next.outcome() matches Ok(rest) && rest@
                == items@.reverse(),
            self.outcome() is Err ==> next.outcome() == self.outcome(),
    {
        match self.state {
            Ok(items) => KeyPathsChain { state: Ok(reversed(items)) },
            Err(e) => KeyPathsChain { state: Err(e) },
        }
    }
}

/// `tail` is the items from some position on, at least one of them.
pub open spec fn is_tail_of<T>(tail: Seq<T>, items: Seq<T>) -> bool {
    exists|k: int| 0 <= k < items.len() && tail == #[trigger] items.skip(k)
}

/// `operation` may be called on the items from any position on.
pub open spec fn accepts_tails<T, G: FnOnce(Vec<T>) -> Vec<R>, R>(operation: G, items: Seq<T>) -> bool {
    forall|tail: Vec<T>| is_tail_of(tail@, items) ==> #[trigger] call_requires(operation, (tail,))
}

/// `result` is what applying `operation` from the first item on which
/// `condition` answers `!passing` may return: the result of `operation` on
/// that item and all after it; nothing, where the scan reaches the end; a
/// failure, where a field is absent before the scan stopped.
pub open spec fn applies_from<T, V, K: KeyPath<T, V>, F: Fn(&V) -> bool, G: FnOnce(Vec<T>) -> Vec<R>, R>(
    keypath: &K,
    condition: &F,
    operation: G,
    items: Seq<T>,
    passing: bool,
    result: KeyPathResult<Vec<R>>,
) -> bool {
    match result {
        Ok(out) => {
            ||| (exists|k: int, tail: Vec<T>| #[trigger]
                stops_at(keypath, condition, items, k, passing) && tail@ == items.skip(k)
                    && #[trigger] call_ensures(operation, (tail,), out))
            ||| (runs_through(keypath, condition, items, passing) && out@.len() == 0)
        },
        Err(e) => e@ == access_failed() && (exists|k: int| #[trigger]
            fails_at(keypath, condition, items, k, passing)),
    }
}

/// Scans while `condition` answers `passing`, and hands the rest to `operation`.
fn apply_from<T, V, K, F, G, R>(
    collection: Vec<T>,
    keypath: &K,
    condition: &F,
    operation: G,
    passing: bool,
) -> (result: KeyPathResult<Vec<R>>) where
    K: KeyPath<T, V>,
    F: Fn(&V) -> bool,
    G: FnOnce(Vec<T>) -> Vec<R>,

    requires
        accepts_fields(condition, keypath, collection@),
        accepts_tails(operation, collection@),
    ensures
        applies_from(keypath, condition, operation, collection@, passing, result),
        all_present(keypath, collection@) ==> result is Ok,
{
    let ghost items = collection@;
    let mut rest = collection;
    let mut k: usize = 0;
    while k < rest.len()
        invariant
            k <= items.len(),
            items == collection@,
            rest@ == items,
            accepts_tails(operation, items),
            accepts_fields(condition, keypath, items),
            each_before(keypath, condition, items, k as int, passing),
        decreases items.len() - k,
    {
        let answer = match keypath.get(&rest[k]) {
            Some(v) => condition(v),
            None => {
                assert(fails_at(keypath, condition, items, k as int, passing));
                return Err(access_failure());
            },
        };
        if answer != passing {
            assert(stops_at(keypath, condition, items, k as int, passing));
            let tail = rest.split_off(k);
            assert(tail@ == items.skip(k as int));
            assert(is_tail_of(tail@, items));
            let ghost handed = tail;
            let result: KeyPathResult<Vec<R>> = Ok(operation(tail));
            assert(call_ensures(operation, (handed,), result->Ok_0));
            return result;
        }
        k += 1;
    }
    Ok(Vec::new())
}

/// Applies `operation` from the first item that meets `condition`.
///
/// The items before it are dropped; `operation` receives that item and all
/// after it, and its output is the result. Where no item meets the condition
/// the result is empty. A field that is absent before the first match is a
/// failure; items after the match are not read.
pub fn when_keypath<T, V, K, F, G, R>(
    collection: Vec<T>,
    keypath: K,
    condition: F,
    operation: G,
) -> (result: KeyPathResult<Vec<R>>) where
    K: KeyPath<T, V>,
    F: Fn(&V) -> bool,
    G: FnOnce(Vec<T>) -> Vec<R>,

    requires
        accepts_fields(&condition, &keypath, collection@),
        accepts_tails(operation, collection@),
    ensures
        applies_from(&keypath, &condition, operation, collection@, false, result),
        all_present(&keypath, collection@) ==> result is Ok,
{
    apply_from(collection, &keypath, &condition, operation, false)
}

/// Applies `operation` from the first item that does not meet `condition`.
///
/// As `when_keypath`, with the condition negated.
pub fn unless_keypath<T, V, K, F, G, R>(
    collection: Vec<T>,
    keypath: K,
    condition: F,
    operation: G,
) -> (result: KeyPathResult<Vec<R>>) where
    K: KeyPath<T, V>,
    F: Fn(&V) -> bool,
    G: FnOnce(Vec<T>) -> Vec<R>,

    requires
        accepts_fields(&condition, &keypath, collection@),
        accepts_tails(operation, collection@),
    ensures
        applies_from(&keypath, &condition, operation, collection@, true, result),
        all_present(&keypath, collection@) ==> result is Ok,
{
    apply_from(collection, &keypath, &condition, operation, true)
}

/// What a reusable operation returns on `item`: a result of `operation` on
/// its field, or the access failure where the field is absent.
pub open spec fn operates<T, V, K: KeyPath<T, V>, F: Fn(&V) -> R, R>(
    keypath: &K,
    operation: &F,
    item: T,
    result: KeyPathResult<R>,
) -> bool {
    &&& result is Ok <==> present(keypath, item)
    &&& result matches Ok(r) ==> yields(operation, field(keypath, item), r)
    &&& result matches Err(e) ==> e@ == access_failed()
}

/// Applies `operation` to the field of `item`.
pub fn apply_keypath_operation<T, V, K, F, R>(keypath: &K, operation: &F, item: &T) -> (result:
    KeyPathResult<R>) where K: KeyPath<T, V>, F: Fn(&V) -> R
    requires
        present(keypath, *item) ==> accepts(operation, field(keypath, *item)),
    ensures
        operates(keypath, operation, *item, result),
{
    match keypath.get(item) {
        Some(v) => Ok(operation(v)),
        None => Err(access_failure()),
    }
}

/// Binds an accessor and an operation into one function on items.
///
/// The function may be called on every item and returns what `operates` says.
pub fn create_keypath_operation<T, V, K, F, R>(keypath: K, operation: F) -> (op: impl Fn(
    T,
) -> KeyPathResult<R>) where K: KeyPath<T, V>, F: Fn(&V) -> R
    requires
        forall|v: V| accepts(&operation, v),
    ensures
        forall|item: T| #[trigger] call_requires(op, (item,)),
        forall|item: T, result: KeyPathResult<R>| #[trigger]
            call_ensures(op, (item,), result) ==> operates(&keypath, &operation, item, result),
{
    move |item: T| -> (result: KeyPathResult<R>)
        ensures
            operates(&keypath, &operation, item, result),
        { apply_keypath_operation(&keypath, &operation, &item) }
}

/// Binds an accessor and a predicate into one test on items.
///
/// The test may be called on every item and returns what `operates` says:
/// the predicate's answer, or the access failure where the field is absent.
pub fn create_keypath_predicate<T, V, K, F>(keypath: K, predicate: F) -> (test: impl Fn(
    &T,
) -> KeyPathResult<bool>) where K: KeyPath<T, V>, F: Fn(&V) -> bool
    requires
        forall|v: V| accepts(&predicate, v),
    ensures
        forall|item: T| #[trigger] call_requires(test, (&item,)),
        forall|item: T, result: KeyPathResult<bool>| #[trigger]
            call_ensures(test, (&item,), result) ==> operates(&keypath, &predicate, item, result),
{
    move |item: &T| -> (result: KeyPathResult<bool>)
        ensures
            operates(&keypath, &predicate, *item, result),
        { apply_keypath_operation(&keypath, &predicate, item) }
}

/// Binds two accessors, each with its operation, into one function on items
/// that returns both results.
///
/// The first accessor is read first: where both fields are absent the failure
/// is the same, and where either is absent nothing is returned.
pub fn combine_keypath_operations<T, V1, V2, K1, K2, F1, F2, R1, R2>(
    keypath1: K1,
    operation1: F1,
    keypath2: K2,
    operation2: F2,
) -> (op: impl Fn(T) -> KeyPathResult<(R1, R2)>) where
    K1: KeyPath<T, V1>,
    K2: KeyPath<T, V2>,
    F1: Fn(&V1) -> R1,
    F2: Fn(&V2) -> R2,

    requires
        forall|v: V1| accepts(&operation1, v),
        forall|v: V2| accepts(&operation2, v),
    ensures
        forall|item: T| #[trigger] call_requires(op, (item,)),
        forall|item: T, result: KeyPathResult<(R1, R2)>| #[trigger]
            call_ensures(op, (item,), result) ==> {
                &&& result is Ok <==> present(&keypath1, item) && present(&keypath2, item)
                &&& result matches Ok(pair) ==> yields(
                    &operation1,
                    field(&keypath1, item),
                    pair.0,
                ) && yields(&operation2, field(&keypath2, item), pair.1)
                &&& result matches Err(e) ==> e@ == access_failed()
            },
{
    move |item: T| -> (result: KeyPathResult<(R1, R2)>)
        ensures
            result is Ok <==> present(&keypath1, item) && present(&keypath2, item),
            result matches Ok(pair) ==> yields(&operation1, field(&keypath1, item), pair.0)
                && yields(&operation2, field(&keypath2, item), pair.1),
            result matches Err(e) ==> e@ == access_failed(),
        {
            let a = match keypath1.get(&item) {
                Some(v) => v,
                None => {
                    return Err(access_failure());
                },
            };
            let b = match keypath2.get(&item) {
                Some(v) => v,
                None => {
                    return Err(access_failure());
                },
            };
            assert(accepts(&operation1, *a) && accepts(&operation2, *b));
            Ok((operation1(a), operation2(b)))
        }
}

} // verus!
