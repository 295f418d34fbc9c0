//! What holds across operations and across execution strategies.
//!
//! Each operation has one postcondition, whichever strategy computes it: the
//! sequential functions, the functions on a pool of workers, and the merges of
//! per-item outcomes that an asynchronous driver feeds as items arrive. For a
//! closure that is a function of its argument, that postcondition admits one
//! result only, so the strategies agree.

use vstd::prelude::*;
use core::cmp::Ordering;
use crate::error::KeyPathResult;
use crate::higher_order::{grouped, orders_by, sorted_by};
use crate::keypath::KeyPath;
use crate::model::{
    all_hold, any_holds, collects_to, counts_to, decided_by, each_before, fails_at, field, fields,
    filters_to, finds, has_key, hits, kept, lemma_chosen_lengths, lemma_decided_verdicts,
    lemma_kept_place, maps_to, outcomes, present, stops_at, yields,
};
use crate::sorting::{
    all_in_stable_order, in_order, lemma_sorted_stays, lemma_stable_order_is_order,
    strict_weak_order,
};

verus! {

/// Two results are the same: both `Ok` with the same items, or both the same failure.
pub open spec fn same_items<R>(a: KeyPathResult<Vec<R>>, b: KeyPathResult<Vec<R>>) -> bool {
    match (a, b) {
        (Ok(x), Ok(y)) => x@ == y@,
        (Err(e), Err(f)) => e@ == f@,
        _ => false,
    }
}

/// Two results are the same: both `Ok` with the same value, or both the same failure.
pub open spec fn same_value<R>(a: KeyPathResult<R>, b: KeyPathResult<R>) -> bool {
    match (a, b) {
        (Ok(x), Ok(y)) => x == y,
        (Err(e), Err(f)) => e@ == f@,
        _ => false,
    }
}

/// Mapping a function gives the same result under every strategy.
pub proof fn law_map_agrees<T, V, K: KeyPath<T, V>, R, F: Fn(&V) -> R>(
    keypath: &K,
    f: &F,
    model: spec_fn(V) -> R,
    items: Seq<T>,
    one: KeyPathResult<Vec<R>>,
    other: KeyPathResult<Vec<R>>,
)
    requires
        decided_by(f, model),
        maps_to(keypath, f, items, one),
        maps_to(keypath, f, items, other),
    ensures
        same_items(one, other),
        one matches Ok(out) ==> out@ == Seq::new(items.len(), |i: int| model(field(keypath, items[i]))),
{
    if one is Ok {
        let a = one->Ok_0@;
        let b = other->Ok_0@;
        let expected = Seq::new(items.len(), |i: int| model(field(keypath, items[i])));
        assert forall|i: int| 0 <= i < items.len() implies a[i] == expected[i] && b[i]
            == expected[i] by {
            assert(yields(f, fields(keypath, items)[i], a[i]));
            assert(yields(f, fields(keypath, items)[i], b[i]));
        }
        assert(a =~= expected);
        assert(b =~= expected);
    }
}

/// Filtering by a function gives the same result under every strategy.
pub proof fn law_filter_agrees<T, V, K: KeyPath<T, V>, F: Fn(&V) -> bool>(
    keypath: &K,
    predicate: &F,
    model: spec_fn(V) -> bool,
    items: Seq<T>,
    one: KeyPathResult<Vec<T>>,
    other: KeyPathResult<Vec<T>>,
)
    requires
        decided_by(predicate, model),
        filters_to(keypath, predicate, items, one),
        filters_to(keypath, predicate, items, other),
    ensures
        same_items(one, other),
        one matches Ok(out) ==> out@ == kept(
            items,
            Seq::new(items.len(), |i: int| model(field(keypath, items[i]))),
        ),
{
    if one is Ok {
        let values = fields(keypath, items);
        let a = choose|v: Seq<bool>| #[trigger]
            outcomes(predicate, values, v) && one->Ok_0@ == kept(items, v);
        let b = choose|v: Seq<bool>| #[trigger]
            outcomes(predicate, values, v) && other->Ok_0@ == kept(items, v);
        lemma_decided_verdicts(predicate, model, values, a);
        lemma_decided_verdicts(predicate, model, values, b);
        assert(a =~= Seq::new(items.len(), |i: int| model(field(keypath, items[i]))));
    }
}

/// Counting by a function gives the same result under every strategy.
pub proof fn law_count_agrees<T, V, K: KeyPath<T, V>, F: Fn(&V) -> bool>(
    keypath: &K,
    predicate: &F,
    model: spec_fn(V) -> bool,
    items: Seq<T>,
    one: KeyPathResult<usize>,
    other: KeyPathResult<usize>,
)
    requires
        decided_by(predicate, model),
        counts_to(keypath, predicate, items, one),
        counts_to(keypath, predicate, items, other),
    ensures
        same_value(one, other),
{
    if one is Ok {
        let values = fields(keypath, items);
        let a = choose|v: Seq<bool>| #[trigger]
            outcomes(predicate, values, v) && one->Ok_0 == hits(v);
        let b = choose|v: Seq<bool>| #[trigger]
            outcomes(predicate, values, v) && other->Ok_0 == hits(v);
        lemma_decided_verdicts(predicate, model, values, a);
        lemma_decided_verdicts(predicate, model, values, b);
    }
}

/// For a predicate that is a function, a scan has one end: two scans over the
/// same items stop at the same position, fail at the same position, or both
/// run through.
pub proof fn lemma_one_scan_end<T, V, K: KeyPath<T, V>, F: Fn(&V) -> bool>(
    keypath: &K,
    predicate: &F,
    model: spec_fn(V) -> bool,
    items: Seq<T>,
    passing: bool,
    j: int,
    k: int,
)
    requires
        decided_by(predicate, model),
        0 <= j <= items.len(),
        0 <= k <= items.len(),
        each_before(keypath, predicate, items, j, passing),
        each_before(keypath, predicate, items, k, passing),
        j < items.len() ==> stops_at(keypath, predicate, items, j, passing) || fails_at(
            keypath,
            predicate,
            items,
            j,
            passing,
        ),
        k < items.len() ==> stops_at(keypath, predicate, items, k, passing) || fails_at(
            keypath,
            predicate,
            items,
            k,
            passing,
        ),
    ensures
        j == k,
{
    if j < k {
        assert(present(keypath, items[j]) && yields(predicate, field(keypath, items[j]), passing));
        if stops_at(keypath, predicate, items, j, passing) {
            assert(yields(predicate, field(keypath, items[j]), !passing));
        }
    } else if k < j {
        assert(present(keypath, items[k]) && yields(predicate, field(keypath, items[k]), passing));
        if stops_at(keypath, predicate, items, k, passing) {
            assert(yields(predicate, field(keypath, items[k]), !passing));
        }
    }
}

/// Where the scan of `result` ended: the position it stopped or failed at, or the length.
spec fn find_end<T, V, K: KeyPath<T, V>, F: Fn(&V) -> bool>(
    keypath: &K,
    predicate: &F,
    items: Seq<T>,
    result: KeyPathResult<Option<T>>,
) -> int {
    match result {
        Ok(Some(x)) => choose|k: int| #[trigger]
            stops_at(keypath, predicate, items, k, false) && x == items[k],
        Ok(None) => items.len() as int,
        Err(_) => choose|k: int| #[trigger] fails_at(keypath, predicate, items, k, false),
    }
}

/// Finding by a function gives the same result under every strategy.
pub proof fn law_find_agrees<T, V, K: KeyPath<T, V>, F: Fn(&V) -> bool>(
    keypath: &K,
    predicate: &F,
    model: spec_fn(V) -> bool,
    items: Seq<T>,
    one: KeyPathResult<Option<T>>,
    other: KeyPathResult<Option<T>>,
)
    requires
        decided_by(predicate, model),
        finds(keypath, predicate, items, one),
        finds(keypath, predicate, items, other),
    ensures
        same_value(one, other),
{
    let j = find_end(keypath, predicate, items, one);
    let k = find_end(keypath, predicate, items, other);
    lemma_one_scan_end(keypath, predicate, model, items, false, j, k);
    if j < items.len() {
        if one is Ok {
            assert(stops_at(keypath, predicate, items, j, false));
            assert(present(keypath, items[j]));
        } else {
            assert(fails_at(keypath, predicate, items, j, false));
        }
        if other is Ok {
            assert(stops_at(keypath, predicate, items, k, false));
        } else {
            assert(fails_at(keypath, predicate, items, k, false));
        }
    }
}

/// Where the scan of `result` ended, for a scan that goes on while the answer is `passing`.
spec fn test_end<T, V, K: KeyPath<T, V>, F: Fn(&V) -> bool>(
    keypath: &K,
    predicate: &F,
    items: Seq<T>,
    result: KeyPathResult<bool>,
    passing: bool,
) -> int {
    match result {
        Ok(b) => if b == passing {
            items.len() as int
        } else {
            choose|k: int| #[trigger] stops_at(keypath, predicate, items, k, passing)
        },
        Err(_) => choose|k: int| #[trigger] fails_at(keypath, predicate, items, k, passing),
    }
}

/// Asking whether any item satisfies a function gives the same result under every strategy.
pub proof fn law_any_agrees<T, V, K: KeyPath<T, V>, F: Fn(&V) -> bool>(
    keypath: &K,
    predicate: &F,
    model: spec_fn(V) -> bool,
    items: Seq<T>,
    one: KeyPathResult<bool>,
    other: KeyPathResult<bool>,
)
    requires
        decided_by(predicate, model),
        any_holds(keypath, predicate, items, one),
        any_holds(keypath, predicate, items, other),
    ensures
        same_value(one, other),
{
    let j = test_end(keypath, predicate, items, one, false);
    let k = test_end(keypath, predicate, items, other, false);
    lemma_one_scan_end(keypath, predicate, model, items, false, j, k);
    if j < items.len() {
        if one is Ok {
            assert(stops_at(keypath, predicate, items, j, false));
            assert(present(keypath, items[j]));
        } else {
            assert(fails_at(keypath, predicate, items, j, false));
        }
        if other is Ok {
            assert(stops_at(keypath, predicate, items, k, false));
        } else {
            assert(fails_at(keypath, predicate, items, k, false));
        }
    }
}

/// Asking whether every item satisfies a function gives the same result under every strategy.
pub proof fn law_all_agrees<T, V, K: KeyPath<T, V>, F: Fn(&V) -> bool>(
    keypath: &K,
    predicate: &F,
    model: spec_fn(V) -> bool,
    items: Seq<T>,
    one: KeyPathResult<bool>,
    other: KeyPathResult<bool>,
)
    requires
        decided_by(predicate, model),
        all_hold(keypath, predicate, items, one),
        all_hold(keypath, predicate, items, other),
    ensures
        same_value(one, other),
{
    let j = test_end(keypath, predicate, items, one, true);
    let k = test_end(keypath, predicate, items, other, true);
    lemma_one_scan_end(keypath, predicate, model, items, true, j, k);
    if j < items.len() {
        if one is Ok {
            assert(stops_at(keypath, predicate, items, j, true));
            assert(present(keypath, items[j]));
        } else {
            assert(fails_at(keypath, predicate, items, j, true));
        }
        if other is Ok {
            assert(stops_at(keypath, predicate, items, k, true));
        } else {
            assert(fails_at(keypath, predicate, items, k, true));
        }
    }
}

/// Collecting gives the same result under every strategy, where a clone of a
/// field is the field.
pub proof fn law_collect_agrees<T, V: Clone, K: KeyPath<T, V>>(
    keypath: &K,
    items: Seq<T>,
    one: KeyPathResult<Vec<V>>,
    other: KeyPathResult<Vec<V>>,
)
    requires
        forall|a: V, b: V| #[trigger] cloned(a, b) ==> a == b,
        collects_to(keypath, items, one),
        collects_to(keypath, items, other),
    ensures
        same_items(one, other),
        one matches Ok(out) ==> out@ == fields(keypath, items),
{
    if one is Ok {
        let a = one->Ok_0@;
        let b = other->Ok_0@;
        let values = fields(keypath, items);
        assert forall|i: int| 0 <= i < items.len() implies a[i] == values[i] && b[i]
            == values[i] by {
            assert(cloned(values[i], a[i]));
            assert(cloned(values[i], b[i]));
        }
        assert(a =~= values);
        assert(b =~= values);
    }
}

/// Sorting is idempotent: sorting what a sort returned changes nothing.
pub proof fn law_sort_idempotent<T, V, K: KeyPath<T, V>, F: Fn(&V, &V) -> Ordering>(
    keypath: &K,
    compare: &F,
    before: spec_fn(V, V) -> bool,
    was: Seq<T>,
    once: Seq<T>,
    twice: Seq<T>,
    first_origin: Seq<int>,
    second_origin: Seq<int>,
)
    requires
        orders_by(compare, before),
        strict_weak_order(before),
        sorted_by(keypath, compare, was, once, first_origin),
        sorted_by(keypath, compare, once, twice, second_origin),
    ensures
        twice == once,
{
    law_sort_keeps_sorted(keypath, compare, before, once, twice, second_origin);
    lemma_stable_order_is_order(fields(keypath, once), first_origin, before);
}

/// Sorting a collection whose fields are in order is a no-op.
pub proof fn law_sort_keeps_sorted<T, V, K: KeyPath<T, V>, F: Fn(&V, &V) -> Ordering>(
    keypath: &K,
    compare: &F,
    before: spec_fn(V, V) -> bool,
    was: Seq<T>,
    now: Seq<T>,
    origin: Seq<int>,
)
    requires
        orders_by(compare, before),
        strict_weak_order(before),
        in_order(fields(keypath, was), before) || exists|earlier: Seq<int>|
            all_in_stable_order(fields(keypath, was), earlier, before),
        sorted_by(keypath, compare, was, now, origin),
    ensures
        now == was,
{
    if !in_order(fields(keypath, was), before) {
        let earlier = choose|earlier: Seq<int>|
            all_in_stable_order(fields(keypath, was), earlier, before);
        lemma_stable_order_is_order(fields(keypath, was), earlier, before);
    }
    lemma_sorted_stays(keypath, before, was, now, origin);
}

/// Ties keep their order: of two items that the order does not separate, the
/// one that came first stands first after the sort.
pub proof fn law_sort_stable<T, V, K: KeyPath<T, V>, F: Fn(&V, &V) -> Ordering>(
    keypath: &K,
    compare: &F,
    before: spec_fn(V, V) -> bool,
    was: Seq<T>,
    now: Seq<T>,
    origin: Seq<int>,
    a: int,
    b: int,
)
    requires
        orders_by(compare, before),
        strict_weak_order(before),
        sorted_by(keypath, compare, was, now, origin),
        0 <= a < b < now.len(),
    ensures
        now[a] == was[origin[a]] && now[b] == was[origin[b]],
        !before(field(keypath, now[b]), field(keypath, now[a])),
        !before(field(keypath, now[a]), field(keypath, now[b])) ==> origin[a] < origin[b],
{
    let keys = fields(keypath, now);
    assert(keys[a] == field(keypath, now[a]) && keys[b] == field(keypath, now[b]));
}

/// How many positions before `i` have the key that position `i` has.
pub open spec fn rank_in_group<G>(keys: Seq<G>, i: int) -> nat {
    hits(has_key(keys, keys[i]).take(i))
}

/// Grouping loses nothing and invents nothing. Every item has a place of
/// its own in the bucket of its key, after the items with that key that come
/// before it, and a bucket has as many places as there are items with its
/// key: taken together, the buckets hold the items of the collection, each as
/// often as it occurs.
pub proof fn law_group_places<T, G>(items: Seq<T>, keys: Seq<G>, groups: Map<G, Vec<T>>, i: int)
    requires
        grouped(items, keys, groups),
        0 <= i < items.len(),
    ensures
        groups.contains_key(keys[i]),
        groups[keys[i]]@.len() == hits(has_key(keys, keys[i])),
        rank_in_group(keys, i) < groups[keys[i]]@.len(),
        groups[keys[i]]@[rank_in_group(keys, i) as int] == items[i],
{
    let g = keys[i];
    assert(keys.contains(g));
    lemma_chosen_lengths(items, has_key(keys, g));
    lemma_kept_place(items, has_key(keys, g), i);
}

} // verus!
