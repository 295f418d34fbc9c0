//! The operations as free functions, each reading through one accessor.
//!
//! Every operation fails fast: the first item whose field is absent ends the
//! call with `InvalidAccess`, and nothing partial is returned.

use vstd::prelude::*;
use vstd::std_specs::hash::*;
use core::cmp::Ordering;
use std::collections::HashMap;
use std::hash::Hash;
use crate::error::{access_failed, access_failure, KeyPathResult};
use crate::keypath::KeyPath;
use crate::sorting::{
    all_in_stable_order, decides, rearranges, sort_by_precedence, stably_sorted,
    strict_weak_order,
};
use crate::model::{
    accepts_fields, all_present, clones_of, collects_to, dropped, each_before, fails_at, field,
    fields, filters_to, finds, has_key, kept, lemma_chosen_lengths, lemma_chosen_push, lemma_none_chosen,
    maps_to, outcomes, present, stops_at,
};

verus! {

/// `total` is what a left fold of `f` over `values` may give, starting from `init`:
/// there is a chain of accumulators, each a possible result of `f` on the one
/// before it and the next value.
pub open spec fn folds_to<V, B, F: Fn(B, &V) -> B>(f: &F, values: Seq<V>, init: B, total: B) -> bool {
    exists|accs: Seq<B>| #[trigger]
        fold_chain(f, values, accs) && accs[0] == init && accs[values.len() as int] == total
}

/// `accs` is the chain of accumulators of a left fold of `f` over `values`.
pub open spec fn fold_chain<V, B, F: Fn(B, &V) -> B>(f: &F, values: Seq<V>, accs: Seq<B>) -> bool {
    &&& accs.len() == values.len() + 1
    &&& forall|i: int|
        0 <= i < values.len() ==> call_ensures(*f, (accs[i], &#[trigger] values[i]), accs[i + 1])
}

/// `f` may be called with any accumulator on every field that is present in `items`.
pub open spec fn accepts_steps<T, V, K: KeyPath<T, V>, B, F: Fn(B, &V) -> B>(
    f: &F,
    keypath: &K,
    items: Seq<T>,
) -> bool {
    forall|acc: B, i: int|
        0 <= i < items.len() && present(keypath, #[trigger] items[i]) ==> #[trigger] call_requires(
            *f,
            (acc, &field(keypath, items[i])),
        )
}

/// Applies `f` to the field of one value.
///
/// `Ok` exactly when the field is present; the value is then a result of `f` on it.
pub fn map_keypath<T, V, K, F, R>(data: T, keypath: K, f: F) -> (result: KeyPathResult<R>) where
    K: KeyPath<T, V>,
    F: FnOnce(&V) -> R,

    requires
        present(&keypath, data) ==> call_requires(f, (&field(&keypath, data),)),
    ensures
        result is Ok <==> present(&keypath, data),
        result matches Ok(r) ==> call_ensures(f, (&field(&keypath, data),), r),
        result matches Err(e) ==> e@ == access_failed(),
{
    match keypath.get(&data) {
        Some(v) => Ok(f(v)),
        None => Err(access_failure()),
    }
}

/// Applies `f` to the field of every item, in order.
///
/// `Ok` exactly when every field is present. The output then has one entry per
/// item, the entry at each position a result of `f` on that item's field.
pub fn map_keypath_collection<T, V, K, F, R>(collection: &[T], keypath: K, f: F) -> (result:
    KeyPathResult<Vec<R>>) where K: KeyPath<T, V>, F: Fn(&V) -> R
    requires
        accepts_fields(&f, &keypath, collection@),
    ensures
        maps_to(&keypath, &f, collection@, result),
        result matches Ok(out) ==> out@.len() == collection@.len(),
{
    let mut out: Vec<R> = Vec::new();
    let mut i: usize = 0;
    while i < collection.len()
        invariant
            i <= collection@.len(),
            accepts_fields(&f, &keypath, collection@),
            all_present(&keypath, collection@.take(i as int)),
            outcomes(&f, fields(&keypath, collection@.take(i as int)), out@),
        decreases collection@.len() - i,
    {
        assert(collection@.take(i as int + 1).drop_last() == collection@.take(i as int));
        match keypath.get(&collection[i]) {
            Some(v) => {
                out.push(f(v));
            },
            None => {
                return Err(access_failure());
            },
        }
        i += 1;
    }
    assert(collection@.take(i as int) == collection@);
    Ok(out)
}

/// Keeps the items on whose field `predicate` answers `true`, in the order they stand in.
///
/// `Ok` exactly when every field is present. The output is then the
/// subsequence of the items chosen by a sequence of verdicts, one per item,
/// each a result of `predicate` on that item's field.
pub fn filter_by_keypath<T, V, K, F>(collection: Vec<T>, keypath: K, predicate: F) -> (result:
    KeyPathResult<Vec<T>>) where K: KeyPath<T, V>, F: Fn(&V) -> bool
    requires
        accepts_fields(&predicate, &keypath, collection@),
    ensures
        filters_to(&keypath, &predicate, collection@, result),
        result matches Ok(out) ==> out@.len() <= collection@.len(),
{
    let mut out: Vec<T> = Vec::new();
    let ghost mut verdicts: Seq<bool> = Seq::empty();
    let ghost items = collection@;
    for item in it: collection
        invariant
            items == it.seq(),
            accepts_fields(&predicate, &keypath, items),
            all_present(&keypath, items.take(it.index() as int)),
            outcomes(&predicate, fields(&keypath, items.take(it.index() as int)), verdicts),
            out@ == kept(items.take(it.index() as int), verdicts),
    {
        let ghost n = it.index() as int;
        assert(items.take(n + 1).drop_last() == items.take(n));
        assert(items.take(n + 1) == items.take(n).push(item));
        let keep = match keypath.get(&item) {
            Some(v) => predicate(v),
            None => {
                return Err(access_failure());
            },
        };
        proof {
            lemma_chosen_push(items.take(n), verdicts, item, keep, true);
            verdicts = verdicts.push(keep);
        }
        if keep {
            out.push(item);
        }
    }
    proof {
        assert(items.take(items.len() as int) == items);
        lemma_chosen_lengths(items, verdicts);
    }
    Ok(out)
}

/// Folds `f` over the fields from the left, in index order, starting from `init`.
///
/// `Ok` exactly when every field is present; the value is then what the chain
/// `acc_0 = init`, `acc_{i+1} = f(acc_i, field_i)` ends in.
pub fn fold_keypath<T, V, K, F, B>(collection: Vec<T>, keypath: K, init: B, f: F) -> (result:
    KeyPathResult<B>) where K: KeyPath<T, V>, F: Fn(B, &V) -> B
    requires
        accepts_steps(&f, &keypath, collection@),
    ensures
        result is Ok <==> all_present(&keypath, collection@),
        result matches Ok(total) ==> folds_to(&f, fields(&keypath, collection@), init, total),
        result matches Err(e) ==> e@ == access_failed(),
{
    let mut acc = init;
    let ghost mut accs: Seq<B> = seq![init];
    let mut i: usize = 0;
    while i < collection.len()
        invariant
            i <= collection@.len(),
            accepts_steps(&f, &keypath, collection@),
            all_present(&keypath, collection@.take(i as int)),
            fold_chain(&f, fields(&keypath, collection@.take(i as int)), accs),
            accs[0] == init,
            accs[i as int] == acc,
        decreases collection@.len() - i,
    {
        assert(collection@.take(i as int + 1).drop_last() == collection@.take(i as int));
        match keypath.get(&collection[i]) {
            Some(v) => {
                assert(present(&keypath, collection@[i as int]));
                assert(call_requires(f, (acc, &field(&keypath, collection@[i as int]))));
                acc = f(acc, v);
                proof {
                    let seen = fields(&keypath, collection@.take(i as int));
                    let more = fields(&keypath, collection@.take(i as int + 1));
                    let longer = accs.push(acc);
                    assert forall|j: int| 0 <= j < more.len() implies call_ensures(
                        f,
                        (longer[j], &#[trigger] more[j]),
                        longer[j + 1],
                    ) by {
                        if j < i {
                            assert(seen[j] == more[j]);
                        }
                    }
                    accs = longer;
                }
            },
            None => {
                return Err(access_failure());
            },
        }
        i += 1;
    }
    assert(collection@.take(i as int) == collection@);
    Ok(acc)
}

/// Finds the first item on whose field `predicate` answers `true`.
///
/// The scan stops at the first match, so items after it are not read.
/// `Ok(Some(x))`: `x` is the item at the lowest position where the predicate
/// answered `true`. `Ok(None)`: it answered `false` on every item. `Err`: an
/// item's field was absent before any match. Where every field is present the
/// result is `Ok`.
pub fn find_by_keypath<T, V, K, F>(collection: Vec<T>, keypath: K, predicate: F) -> (result:
    KeyPathResult<Option<T>>) where K: KeyPath<T, V>, F: Fn(&V) -> bool
    requires
        accepts_fields(&predicate, &keypath, collection@),
    ensures
        finds(&keypath, &predicate, collection@, result),
        all_present(&keypath, collection@) ==> result is Ok,
{
    let ghost items = collection@;
    for item in it: collection
        invariant
            items == it.seq(),
            accepts_fields(&predicate, &keypath, items),
            each_before(&keypath, &predicate, items, it.index() as int, false),
    {
        let hit = match keypath.get(&item) {
            Some(v) => predicate(v),
            None => {
                assert(fails_at(&keypath, &predicate, items, it.index() as int, false));
                return Err(access_failure());
            },
        };
        if hit {
            assert(stops_at(&keypath, &predicate, items, it.index() as int, false));
            return Ok(Some(item));
        }
    }
    Ok(None)
}

/// Collects a clone of every item's field, in order.
///
/// `Ok` exactly when every field is present; the output then has one entry
/// per item, each a clone of that item's field.
pub fn collect_keypath<T, V, K>(collection: Vec<T>, keypath: K) -> (result: KeyPathResult<Vec<V>>)
    where K: KeyPath<T, V>, V: Clone
    ensures
        collects_to(&keypath, collection@, result),
        result matches Ok(out) ==> out@.len() == collection@.len(),
{
    let mut out: Vec<V> = Vec::new();
    let mut i: usize = 0;
    while i < collection.len()
        invariant
            i <= collection@.len(),
            all_present(&keypath, collection@.take(i as int)),
            clones_of(fields(&keypath, collection@.take(i as int)), out@),
        decreases collection@.len() - i,
    {
        assert(collection@.take(i as int + 1).drop_last() == collection@.take(i as int));
        match keypath.get(&collection[i]) {
            Some(v) => {
                out.push(v.clone());
            },
            None => {
                return Err(access_failure());
            },
        }
        i += 1;
    }
    assert(collection@.take(i as int) == collection@);
    Ok(out)
}

/// Splits the items by `predicate`: those it answers `true` on, and the rest,
/// each side in the order of the collection.
///
/// `Ok` exactly when every field is present. The two sides are then chosen
/// by one sequence of verdicts, so every item is on exactly one side.
pub fn partition_by_keypath<T, V, K, F>(collection: Vec<T>, keypath: K, predicate: F) -> (result:
    KeyPathResult<(Vec<T>, Vec<T>)>) where K: KeyPath<T, V>, F: Fn(&V) -> bool
    requires
        accepts_fields(&predicate, &keypath, collection@),
    ensures
        result is Ok <==> all_present(&keypath, collection@),
        result matches Ok(sides) ==> exists|verdicts: Seq<bool>| #[trigger]
            outcomes(&predicate, fields(&keypath, collection@), verdicts) && sides.0@ == kept(
                collection@,
                verdicts,
            ) && sides.1@ == dropped(collection@, verdicts),
        result matches Ok(sides) ==> sides.0@.len() + sides.1@.len() == collection@.len(),
        result matches Err(e) ==> e@ == access_failed(),
{
    let mut left: Vec<T> = Vec::new();
    let mut right: Vec<T> = Vec::new();
    let ghost mut verdicts: Seq<bool> = Seq::empty();
    let ghost items = collection@;
    for item in it: collection
        invariant
            items == it.seq(),
            accepts_fields(&predicate, &keypath, items),
            all_present(&keypath, items.take(it.index() as int)),
            outcomes(&predicate, fields(&keypath, items.take(it.index() as int)), verdicts),
            left@ == kept(items.take(it.index() as int), verdicts),
            right@ == dropped(items.take(it.index() as int), verdicts),
    {
        let ghost n = it.index() as int;
        assert(items.take(n + 1).drop_last() == items.take(n));
        assert(items.take(n + 1) == items.take(n).push(item));
        let keep = match keypath.get(&item) {
            Some(v) => predicate(v),
            None => {
                return Err(access_failure());
            },
        };
        proof {
            lemma_chosen_push(items.take(n), verdicts, item, keep, true);
            lemma_chosen_push(items.take(n), verdicts, item, keep, false);
            verdicts = verdicts.push(keep);
        }
        if keep {
            left.push(item);
        } else {
            right.push(item);
        }
    }
    proof {
        assert(items.take(items.len() as int) == items);
        lemma_chosen_lengths(items, verdicts);
    }
    Ok((left, right))
}

/// The shorter of two lengths.
pub open spec fn shorter(a: int, b: int) -> int {
    if a <= b {
        a
    } else {
        b
    }
}

/// `outputs` holds, position by position, a possible result of `f` on the pair of inputs there.
pub open spec fn paired_outcomes<V1, V2, R, F: Fn(&V1, &V2) -> R>(
    f: &F,
    left: Seq<V1>,
    right: Seq<V2>,
    outputs: Seq<R>,
) -> bool {
    &&& left.len() == right.len()
    &&& outputs.len() == left.len()
    &&& forall|i: int|
        0 <= i < outputs.len() ==> call_ensures(*f, (&left[i], &right[i]), #[trigger] outputs[i])
}

/// Combines two collections position by position, up to the length of the shorter.
///
/// Only the first `min(len1, len2)` items of each are read. `Ok` exactly when
/// each of them has its field; the output then has that many entries, the one
/// at each position a result of `f` on the two fields there.
pub fn zip_with_keypath<T1, T2, V1, V2, K1, K2, F, R>(
    collection1: &[T1],
    collection2: &[T2],
    keypath1: K1,
    keypath2: K2,
    f: F,
) -> (result: KeyPathResult<Vec<R>>) where
    K1: KeyPath<T1, V1>,
    K2: KeyPath<T2, V2>,
    F: Fn(&V1, &V2) -> R,

    requires
        forall|i: int|
            0 <= i < collection1@.len() && i < collection2@.len() && present(
                &keypath1,
                collection1@[i],
            ) && present(&keypath2, collection2@[i]) ==> #[trigger] call_requires(
                f,
                (&field(&keypath1, collection1@[i]), &field(&keypath2, collection2@[i])),
            ),
    ensures
        result is Ok <==> all_present(
            &keypath1,
            collection1@.take(shorter(collection1@.len() as int, collection2@.len() as int)),
        ) && all_present(
            &keypath2,
            collection2@.take(shorter(collection1@.len() as int, collection2@.len() as int)),
        ),
        result matches Ok(out) ==> paired_outcomes(
            &f,
            fields(
                &keypath1,
                collection1@.take(shorter(collection1@.len() as int, collection2@.len() as int)),
            ),
            fields(
                &keypath2,
                collection2@.take(shorter(collection1@.len() as int, collection2@.len() as int)),
            ),
            out@,
        ),
        result matches Ok(out) ==> out@.len() == shorter(
            collection1@.len() as int,
            collection2@.len() as int,
        ),
        result matches Err(e) ==> e@ == access_failed(),
{
    let n = if collection1.len() <= collection2.len() {
        collection1.len()
    } else {
        collection2.len()
    };
    let mut out: Vec<R> = Vec::new();
    let mut i: usize = 0;
    while i < n
        invariant
            i <= n,
            n == shorter(collection1@.len() as int, collection2@.len() as int),
            forall|i: int|
                0 <= i < collection1@.len() && i < collection2@.len() && present(
                    &keypath1,
                    collection1@[i],
                ) && present(&keypath2, collection2@[i]) ==> #[trigger] call_requires(
                    f,
                    (&field(&keypath1, collection1@[i]), &field(&keypath2, collection2@[i])),
                ),
            all_present(&keypath1, collection1@.take(i as int)),
            all_present(&keypath2, collection2@.take(i as int)),
            paired_outcomes(
                &f,
                fields(&keypath1, collection1@.take(i as int)),
                fields(&keypath2, collection2@.take(i as int)),
                out@,
            ),
        decreases n - i,
    {
        let ghost seen = i as int;
        assert(collection1@.take(seen + 1).drop_last() == collection1@.take(seen));
        assert(collection2@.take(seen + 1).drop_last() == collection2@.take(seen));
        let a = match keypath1.get(&collection1[i]) {
            Some(v) => v,
            None => {
                assert(!present(&keypath1, collection1@.take(n as int)[seen]));
                return Err(access_failure());
            },
        };
        let b = match keypath2.get(&collection2[i]) {
            Some(v) => v,
            None => {
                assert(!present(&keypath2, collection2@.take(n as int)[seen]));
                return Err(access_failure());
            },
        };
        assert(present(&keypath1, collection1@[seen]) && present(&keypath2, collection2@[seen]));
        assert(call_requires(
            f,
            (&field(&keypath1, collection1@[seen]), &field(&keypath2, collection2@[seen])),
        ));
        out.push(f(a, b));
        i += 1;
    }
    Ok(out)
}

/// `groups` is `items` split by key: it has a bucket for each key that occurs
/// and for no other, and the bucket of a key holds the items with that key,
/// in the order they stand in.
pub open spec fn grouped<T, G>(items: Seq<T>, keys: Seq<G>, groups: Map<G, Vec<T>>) -> bool {
    &&& keys.len() == items.len()
    &&& forall|g: G| #[trigger] groups.contains_key(g) <==> keys.contains(g)
    &&& forall|g: G|
        groups.contains_key(g) ==> (#[trigger] groups[g])@ == kept(items, has_key(keys, g))
}

/// Groups clones of the items by the key `f` gives for each item's field.
///
/// `Ok` exactly when every field is present. There is then a sequence of keys,
/// one per item and each a result of `f` on that item's field, such that the
/// map has a bucket for exactly the keys that occur, holding clones of the
/// items with that key in the order they stand in.
pub fn group_by_keypath<T, V, K, F, G>(collection: &[T], keypath: K, f: F) -> (result:
    KeyPathResult<HashMap<G, Vec<T>>>) where
    K: KeyPath<T, V>,
    F: Fn(&V) -> G,
    G: Hash + Eq,
    T: Clone,

    requires
        obeys_key_model::<G>(),
        accepts_fields(&f, &keypath, collection@),
    ensures
        result is Ok <==> all_present(&keypath, collection@),
        result matches Ok(groups) ==> exists|keys: Seq<G>, copies: Seq<T>| #[trigger]
            outcomes(&f, fields(&keypath, collection@), keys) && #[trigger] clones_of(
                collection@,
                copies,
            ) && grouped(copies, keys, groups@),
        result matches Err(e) ==> e@ == access_failed(),
{
    broadcast use group_hash_axioms;

    let mut groups: HashMap<G, Vec<T>> = HashMap::new();
    let ghost mut keys: Seq<G> = Seq::empty();
    let ghost mut copies: Seq<T> = Seq::empty();
    let mut i: usize = 0;
    while i < collection.len()
        invariant
            i <= collection@.len(),
            obeys_key_model::<G>(),
            accepts_fields(&f, &keypath, collection@),
            all_present(&keypath, collection@.take(i as int)),
            outcomes(&f, fields(&keypath, collection@.take(i as int)), keys),
            clones_of(collection@.take(i as int), copies),
            grouped(copies, keys, groups@),
        decreases collection@.len() - i,
    {
        assert(collection@.take(i as int + 1).drop_last() == collection@.take(i as int));
        match keypath.get(&collection[i]) {
            Some(v) => {
                let key = f(v);
                let copy = collection[i].clone();
                let ghost k = key;
                let ghost before = groups@;
                let mut bucket = match groups.remove(&key) {
                    Some(b) => b,
                    None => Vec::new(),
                };
                proof {
                    if !before.contains_key(k) {
                        lemma_none_chosen(copies, has_key(keys, k), true);
                    }
                    assert(bucket@ == kept(copies, has_key(keys, k)));
                }
                bucket.push(copy);
                groups.insert(key, bucket);
                proof {
                    let keys2 = keys.push(k);
                    let copies2 = copies.push(copy);
                    assert forall|g: G| #[trigger] groups@.contains_key(g) <==> keys2.contains(
                        g,
                    ) by {
                        if keys2.contains(g) {
                            let j = choose|j: int| 0 <= j < keys2.len() && keys2[j] == g;
                            if j < keys.len() {
                                assert(keys[j] == g);
                            }
                        }
                        if g == k {
                            assert(keys2[keys.len() as int] == g);
                        } else if before.contains_key(g) {
                            let j = choose|j: int| 0 <= j < keys.len() && keys[j] == g;
                            assert(keys2[j] == g);
                        }
                    }
                    assert forall|g: G| groups@.contains_key(g) implies (#[trigger] groups@[g])@
                        == kept(copies2, has_key(keys2, g)) by {
                        assert(has_key(keys2, g) == has_key(keys, g).push(k == g));
                        lemma_chosen_push(copies, has_key(keys, g), copy, k == g, true);
                    }
                    keys = keys2;
                    copies = copies2;
                }
            },
            None => {
                return Err(access_failure());
            },
        }
        i += 1;
    }
    assert(collection@.take(i as int) == collection@);
    Ok(groups)
}

/// `compare` may be called on any two fields that are present in `items`.
pub open spec fn accepts_comparisons<T, V, K: KeyPath<T, V>, F: Fn(&V, &V) -> Ordering>(
    compare: &F,
    keypath: &K,
    items: Seq<T>,
) -> bool {
    forall|i: int, j: int|
        0 <= i < items.len() && 0 <= j < items.len() && present(keypath, items[i]) && present(
            keypath,
            items[j],
        ) ==> #[trigger] call_requires(
            *compare,
            (&field(keypath, items[i]), &field(keypath, items[j])),
        )
}

/// `compare` may be called on `a` and `b`.
pub open spec fn may_compare<V, F: Fn(&V, &V) -> Ordering>(compare: &F, a: V, b: V) -> bool {
    call_requires(*compare, (&a, &b))
}

/// `o` is a possible answer of `compare(&a, &b)`.
pub open spec fn compares<V, F: Fn(&V, &V) -> Ordering>(compare: &F, a: V, b: V, o: Ordering) -> bool {
    call_ensures(*compare, (&a, &b), o)
}

/// `compare` is a function of its arguments, and answers `Less` exactly where `before` holds.
pub open spec fn orders_by<V, F: Fn(&V, &V) -> Ordering>(
    compare: &F,
    before: spec_fn(V, V) -> bool,
) -> bool {
    forall|a: V, b: V, o: Ordering| #[trigger]
        compares(compare, a, b, o) ==> (o == Ordering::Less) == before(a, b)
}

/// `now` is `was`, stably sorted by the field under every order that `compare`
/// decides: `origin` says where each item came from, the fields are in order,
/// and items that tie are in the order they came in.
pub open spec fn sorted_by<T, V, K: KeyPath<T, V>, F: Fn(&V, &V) -> Ordering>(
    keypath: &K,
    compare: &F,
    was: Seq<T>,
    now: Seq<T>,
    origin: Seq<int>,
) -> bool {
    &&& rearranges(was, now, origin)
    &&& forall|before: spec_fn(V, V) -> bool|
        #[trigger] orders_by(compare, before) && strict_weak_order(before) ==> all_in_stable_order(
            fields(keypath, now),
            origin,
            before,
        )
}

/// Sorts the collection in place by the field, stably: items that `compare`
/// does not separate keep their relative order.
///
/// `Ok` exactly when every field is present; otherwise the collection is left
/// as it was. On `Ok` the collection holds the same items, rearranged so that
/// under every strict weak order `compare` decides the fields are in order and
/// ties stand as they came.
pub fn sort_by_keypath<T, V, K, F>(collection: &mut Vec<T>, keypath: K, compare: F) -> (result:
    KeyPathResult<()>) where K: KeyPath<T, V>, F: Fn(&V, &V) -> Ordering
    requires
        accepts_comparisons(&compare, &keypath, old(collection)@),
    ensures
        result is Ok <==> all_present(&keypath, old(collection)@),
        result is Ok ==> exists|origin: Seq<int>| #[trigger]
            sorted_by(&keypath, &compare, old(collection)@, final(collection)@, origin),
        result matches Err(e) ==> e@ == access_failed() && final(collection)@ == old(collection)@,
{
    let cmp = &compare;
    let precedes = |a: &V, b: &V| -> (r: bool)
        requires
            may_compare(cmp, *a, *b),
        ensures
            exists|o: Ordering| #[trigger] compares(cmp, *a, *b, o) && r == (o == Ordering::Less),
        {
            let o = cmp(a, b);
            assert(compares(cmp, *a, *b, o));
            match o {
                Ordering::Less => true,
                _ => false,
            }
        };
    let ghost was = collection@;
    let result = sort_by_precedence(collection, &keypath, &precedes);
    proof {
        if result is Ok {
            let origin = choose|origin: Seq<int>| #[trigger]
                stably_sorted(&keypath, &precedes, was, collection@, origin);
            assert forall|before: spec_fn(V, V) -> bool| #[trigger]
                orders_by(cmp, before) && strict_weak_order(before) implies all_in_stable_order(
                fields(&keypath, collection@),
                origin,
                before,
            ) by {
                assert(decides(&precedes, before));
            }
            assert(sorted_by(&keypath, &compare, was, collection@, origin));
        }
    }
    result
}

} // verus!
