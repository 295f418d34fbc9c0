//! Stable sorting by a field, and what "stable" means here.
//!
//! The order is whatever strict weak order the caller's comparison decides.
//! The sort records, as a ghost permutation, where each item came from; ties
//! are then items that the order does not separate, and they must keep the
//! order of their origins. The sorting itself is done by merging.

use vstd::prelude::*;
use crate::error::{access_failed, access_failure, KeyPathResult};
use crate::keypath::KeyPath;
use crate::merging::sort_run;
use crate::model::{all_present, field, fields, present};

verus! {

/// `precedes` may be called on any two fields that are present in `items`.
pub open spec fn accepts_pairs<T, V, K: KeyPath<T, V>, L: Fn(&V, &V) -> bool>(
    precedes: &L,
    keypath: &K,
    items: Seq<T>,
) -> bool {
    forall|i: int, j: int|
        0 <= i < items.len() && 0 <= j < items.len() && present(keypath, items[i]) && present(
            keypath,
            items[j],
        ) ==> #[trigger] call_requires(
            *precedes,
            (&field(keypath, items[i]), &field(keypath, items[j])),
        )
}

/// `r` is a possible answer of `precedes(&a, &b)`.
pub open spec fn answers<V, L: Fn(&V, &V) -> bool>(precedes: &L, a: V, b: V, r: bool) -> bool {
    call_ensures(*precedes, (&a, &b), r)
}

/// `precedes` is a function of its arguments, and that function is `before`.
pub open spec fn decides<V, L: Fn(&V, &V) -> bool>(precedes: &L, before: spec_fn(V, V) -> bool) -> bool {
    forall|a: V, b: V, r: bool| #[trigger] answers(precedes, a, b, r) ==> r == before(a, b)
}

/// `before` is a strict weak order: nothing is before itself or before what is
/// before it, and being not before is transitive, so that ties form classes.
pub open spec fn strict_weak_order<V>(before: spec_fn(V, V) -> bool) -> bool {
    &&& forall|a: V, b: V| #[trigger] before(a, b) ==> !before(b, a)
    &&& forall|a: V, b: V, c: V|
        !#[trigger] before(a, b) && !#[trigger] before(b, c) ==> !before(a, c)
}

/// `now` holds the items of `was` in another arrangement: `origin[p]` is the
/// position in `was` of the item at position `p` of `now`, and no position
/// of `was` is named twice.
pub open spec fn rearranges<T>(was: Seq<T>, now: Seq<T>, origin: Seq<int>) -> bool {
    &&& now.len() == was.len()
    &&& origin.len() == was.len()
    &&& forall|p: int| 0 <= p < origin.len() ==> 0 <= #[trigger] origin[p] < was.len()
    &&& forall|p: int| 0 <= p < origin.len() ==> now[p] == was[#[trigger] origin[p]]
    &&& forall|p: int, q: int|
        0 <= p < q < origin.len() ==> #[trigger] origin[p] != #[trigger] origin[q]
}

/// The first `upto` keys are in order, and ties among them are in the order of their origins.
pub open spec fn in_stable_order<V>(
    keys: Seq<V>,
    origin: Seq<int>,
    before: spec_fn(V, V) -> bool,
    upto: int,
) -> bool {
    forall|a: int, b: int|
        0 <= a < b < upto ==> before(#[trigger] keys[a], #[trigger] keys[b]) || (!before(
            keys[b],
            keys[a],
        ) && origin[a] < origin[b])
}

/// The keys are in order: none is before one that stands earlier.
pub open spec fn in_order<V>(keys: Seq<V>, before: spec_fn(V, V) -> bool) -> bool {
    forall|a: int, b: int|
        0 <= a < b < keys.len() ==> !before(#[trigger] keys[b], #[trigger] keys[a])
}

/// `now` is `was`, stably sorted by the field under every order that
/// `precedes` decides: `origin` says where each item came from, the fields
/// are in order, and items that tie are in the order they came in.
pub open spec fn stably_sorted<T, V, K: KeyPath<T, V>, L: Fn(&V, &V) -> bool>(
    keypath: &K,
    precedes: &L,
    was: Seq<T>,
    now: Seq<T>,
    origin: Seq<int>,
) -> bool {
    &&& rearranges(was, now, origin)
    &&& forall|before: spec_fn(V, V) -> bool|
        #[trigger] decides(precedes, before) && strict_weak_order(before) ==> all_in_stable_order(
            fields(keypath, now),
            origin,
            before,
        )
}

/// All the keys are in order, and ties among them are in the order of their origins.
pub open spec fn all_in_stable_order<V>(
    keys: Seq<V>,
    origin: Seq<int>,
    before: spec_fn(V, V) -> bool,
) -> bool {
    in_stable_order(keys, origin, before, keys.len() as int)
}

/// Sorts the items in place by their field, stably, using `precedes` as the
/// strict order: of two items, the one that stands later comes out first
/// only where `precedes` says its field comes first.
///
/// `Ok` exactly when every field is present; otherwise the collection is left
/// as it was. On `Ok` the collection is a rearrangement of what it was that is
/// stably sorted under every strict weak order `precedes` decides. The sort is
/// a merge sort.
pub fn sort_by_precedence<T, V, K, L>(collection: &mut Vec<T>, keypath: &K, precedes: &L) -> (result:
    KeyPathResult<()>) where K: KeyPath<T, V>, L: Fn(&V, &V) -> bool
    requires
        accepts_pairs(precedes, keypath, old(collection)@),
    ensures
        result is Ok <==> all_present(keypath, old(collection)@),
        result is Ok ==> exists|origin: Seq<int>| #[trigger]
            stably_sorted(keypath, precedes, old(collection)@, final(collection)@, origin),
        result matches Err(e) ==> e@ == access_failed() && final(collection)@ == old(collection)@,
{
    let n = collection.len();
    let mut c: usize = 0;
    while c < n
        invariant
            c <= n,
            n == collection@.len(),
            collection@ == old(collection)@,
            all_present(keypath, collection@.take(c as int)),
        decreases n - c,
    {
        assert(collection@.take(c as int + 1).drop_last() == collection@.take(c as int));
        if keypath.get(&collection[c]).is_none() {
            return Err(access_failure());
        }
        c += 1;
    }
    assert(collection@.take(n as int) == collection@);
    let ghost was = collection@;
    let mut items: Vec<T> = Vec::new();
    core::mem::swap(collection, &mut items);
    assert(items@ == was.subrange(0, items@.len() as int));
    let (sorted, Ghost(origin)) = sort_run(items, keypath, precedes, Ghost(was), Ghost(0));
    *collection = sorted;
    assert(stably_sorted(keypath, precedes, was, collection@, origin));
    Ok(())
}

/// An arrangement that names every origin once and in rising order leaves everything in place.
proof fn lemma_rising_is_identity(origin: Seq<int>, n: int)
    requires
        origin.len() == n,
        forall|p: int| 0 <= p < n ==> 0 <= #[trigger] origin[p] < n,
        forall|p: int, q: int| 0 <= p < q < n ==> #[trigger] origin[p] < #[trigger] origin[q],
    ensures
        forall|p: int| 0 <= p < n ==> #[trigger] origin[p] == p,
    decreases n,
{
    if n > 0 {
        let shorter = origin.drop_last();
        assert forall|p: int| 0 <= p < n - 1 implies 0 <= #[trigger] shorter[p] < n - 1 by {
            assert(origin[p] < origin[n - 1]);
        }
        lemma_rising_is_identity(shorter, n - 1);
        assert forall|p: int| 0 <= p < n implies #[trigger] origin[p] == p by {
            if p < n - 1 {
                assert(shorter[p] == p);
            } else if n > 1 {
                assert(shorter[n - 2] == n - 2);
                assert(origin[n - 2] < origin[n - 1]);
            }
        }
    }
}

/// Keys in stable order are in order.
pub proof fn lemma_stable_order_is_order<V>(
    keys: Seq<V>,
    origin: Seq<int>,
    before: spec_fn(V, V) -> bool,
)
    requires
        strict_weak_order(before),
        all_in_stable_order(keys, origin, before),
    ensures
        in_order(keys, before),
{
}

/// A stable rearrangement of items whose fields are in order already leaves
/// every item in place.
pub proof fn lemma_sorted_stays<T, V, K: KeyPath<T, V>>(
    keypath: &K,
    before: spec_fn(V, V) -> bool,
    was: Seq<T>,
    now: Seq<T>,
    origin: Seq<int>,
)
    requires
        strict_weak_order(before),
        in_order(fields(keypath, was), before),
        rearranges(was, now, origin),
        all_in_stable_order(fields(keypath, now), origin, before),
    ensures
        now == was,
{
    let keys = fields(keypath, was);
    let sorted = fields(keypath, now);
    let n = was.len() as int;
    assert forall|p: int, q: int| 0 <= p < q < n implies #[trigger] origin[p] < #[trigger] origin[q] by {
        assert(sorted[p] == keys[origin[p]] && sorted[q] == keys[origin[q]]);
        if origin[q] < origin[p] {
            assert(!before(keys[origin[p]], keys[origin[q]]));
        }
    }
    lemma_rising_is_identity(origin, n);
    assert forall|p: int| 0 <= p < n implies now[p] == was[p] by {
        assert(origin[p] == p);
        assert(now[p] == was[origin[p]]);
    }
    assert(now =~= was);
}

} // verus!
