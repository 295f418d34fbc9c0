//! The two halves every execution strategy is made of: applying an operation
//! to one item, and merging the per-item outcomes into the result.
//!
//! A strategy decides when and where the per-item half runs: one item after
//! another, on a pool of workers, or as items arrive. The merge is the same
//! for all of them, and reports absence by position: the lowest position
//! counts, not the order in which outcomes were produced.

use vstd::prelude::*;
use crate::error::{access_failed, access_failure, KeyPathError, KeyPathResult};
use crate::keypath::KeyPath;
use crate::model::{
    accepts, all_hold, all_present, any_holds, collects_to, counts_to, each_before, fails_at,
    field, fields, filters_to, finds, hits, kept, lemma_chosen_push, maps_to, outcomes, present,
    stops_at, yields,
};

verus! {

/// `outcome` is what applying `f` to the field of `item` may give: nothing
/// where the field is absent, else a result of `f` on it.
pub open spec fn applied<T, V, K: KeyPath<T, V>, R, F: Fn(&V) -> R>(
    keypath: &K,
    f: &F,
    item: T,
    outcome: Option<R>,
) -> bool {
    &&& outcome is Some <==> present(keypath, item)
    &&& outcome matches Some(r) ==> yields(f, field(keypath, item), r)
}

/// `outcomes` holds, position by position, what applying `f` to the field of that item may give.
pub open spec fn applied_each<T, V, K: KeyPath<T, V>, R, F: Fn(&V) -> R>(
    keypath: &K,
    f: &F,
    items: Seq<T>,
    outcomes: Seq<Option<R>>,
) -> bool {
    &&& outcomes.len() == items.len()
    &&& forall|i: int| 0 <= i < items.len() ==> applied(keypath, f, items[i], #[trigger] outcomes[i])
}

/// `outcome` is what reading the field of `item` by clone may give.
pub open spec fn copied<T, V: Clone, K: KeyPath<T, V>>(
    keypath: &K,
    item: T,
    outcome: Option<V>,
) -> bool {
    &&& outcome is Some <==> present(keypath, item)
    &&& outcome matches Some(v) ==> cloned(field(keypath, item), v)
}

/// `outcomes` holds, position by position, what reading the field of that item by clone may give.
pub open spec fn copied_each<T, V: Clone, K: KeyPath<T, V>>(
    keypath: &K,
    items: Seq<T>,
    outcomes: Seq<Option<V>>,
) -> bool {
    &&& outcomes.len() == items.len()
    &&& forall|i: int| 0 <= i < items.len() ==> copied(keypath, items[i], #[trigger] outcomes[i])
}

/// No outcome is missing.
pub open spec fn complete<R>(outcomes: Seq<Option<R>>) -> bool {
    forall|i: int| 0 <= i < outcomes.len() ==> (#[trigger] outcomes[i]) is Some
}

/// What the outcomes hold; meaningful where none is missing.
pub open spec fn values<R>(outcomes: Seq<Option<R>>) -> Seq<R> {
    Seq::new(outcomes.len(), |i: int| outcomes[i]->0)
}

/// Where a scan over `outcomes` ends that goes on while the verdict is
/// `passing`: at the first position with a missing outcome or another
/// verdict, or at the end.
pub open spec fn scan_end(outcomes: Seq<Option<bool>>, passing: bool) -> int
    decreases outcomes.len(),
{
    if outcomes.len() == 0 {
        0
    } else if outcomes[0] == Some(passing) {
        1 + scan_end(outcomes.skip(1), passing)
    } else {
        0
    }
}

/// The scan ends within the outcomes, after verdicts that all are `passing`.
pub proof fn lemma_scan_end(outcomes: Seq<Option<bool>>, passing: bool)
    ensures
        0 <= scan_end(outcomes, passing) <= outcomes.len(),
        forall|j: int|
            0 <= j < scan_end(outcomes, passing) ==> #[trigger] outcomes[j] == Some(passing),
        scan_end(outcomes, passing) < outcomes.len() ==> outcomes[scan_end(outcomes, passing)]
            != Some(passing),
    decreases outcomes.len(),
{
    if outcomes.len() > 0 && outcomes[0] == Some(passing) {
        let rest = outcomes.skip(1);
        lemma_scan_end(rest, passing);
        assert forall|j: int| 0 <= j < scan_end(outcomes, passing) implies #[trigger] outcomes[j]
            == Some(passing) by {
            if j > 0 {
                assert(rest[j - 1] == outcomes[j]);
            }
        }
        if scan_end(outcomes, passing) < outcomes.len() {
            assert(rest[scan_end(rest, passing)] == outcomes[scan_end(outcomes, passing)]);
        }
    }
}

/// Applies `f` to the field of one item: the per-item half of `map`.
pub fn apply_one<T, V, K, F, R>(item: &T, keypath: &K, f: &F) -> (outcome: Option<R>) where
    K: KeyPath<T, V>,
    F: Fn(&V) -> R,

    requires
        present(keypath, *item) ==> accepts(f, field(keypath, *item)),
    ensures
        applied(keypath, f, *item, outcome),
{
    match keypath.get(item) {
        Some(v) => Some(f(v)),
        None => None,
    }
}

/// Reads the field of one item by clone: the per-item half of `collect`.
pub fn copy_one<T, V, K>(item: &T, keypath: &K) -> (outcome: Option<V>) where
    K: KeyPath<T, V>,
    V: Clone,

    ensures
        copied(keypath, *item, outcome),
{
    match keypath.get(item) {
        Some(v) => Some(v.clone()),
        None => None,
    }
}

/// Whether a scan that goes on while the verdict is `passing` goes on after
/// this outcome: the step a driver takes between two items.
pub fn goes_on(outcome: Option<bool>, passing: bool) -> (more: bool)
    ensures
        more == (outcome == Some(passing)),
{
    match outcome {
        Some(verdict) => verdict == passing,
        None => false,
    }
}

/// Merges per-item outcomes into all the values, or the failure.
///
/// `Ok` exactly when no outcome is missing; the values are then the outcomes'
/// own, in order.
pub fn gather<R>(outcomes: Vec<Option<R>>) -> (result: KeyPathResult<Vec<R>>)
    ensures
        result is Ok <==> complete(outcomes@),
        result matches Ok(out) ==> out@ == values(outcomes@),
        result matches Err(e) ==> e@ == access_failed(),
{
    let mut out: Vec<R> = Vec::new();
    let ghost all = outcomes@;
    for outcome in it: outcomes
        invariant
            all == it.seq(),
            out@.len() == it.index(),
            forall|j: int| 0 <= j < it.index() ==> all[j] == Some(#[trigger] out@[j]),
    {
        match outcome {
            Some(r) => {
                out.push(r);
            },
            None => {
                return Err(access_failure());
            },
        }
    }
    assert forall|j: int| 0 <= j < all.len() implies (#[trigger] all[j]) is Some by {
        assert(all[j] == Some(out@[j]));
    }
    assert(out@ =~= values(all));
    Ok(out)
}

/// Merges per-item verdicts into the items kept, or the failure.
///
/// `Ok` exactly when no verdict is missing; the items are then those whose
/// verdict is `true`, in the order they stand in.
pub fn select<T>(items: Vec<T>, verdicts: &Vec<Option<bool>>) -> (result: KeyPathResult<Vec<T>>)
    requires
        verdicts@.len() == items@.len(),
    ensures
        result is Ok <==> complete(verdicts@),
        result matches Ok(out) ==> out@ == kept(items@, values(verdicts@)),
        result matches Err(e) ==> e@ == access_failed(),
{
    let mut out: Vec<T> = Vec::new();
    let ghost all = items@;
    let ghost mut seen: Seq<bool> = Seq::empty();
    let mut i: usize = 0;
    assert(all.len() <= usize::MAX) by {
        assert(verdicts@.len() == verdicts.len());
    }
    for item in it: items
        invariant
            all == it.seq(),
            i == it.index(),
            verdicts@.len() == all.len(),
            all.len() <= usize::MAX,
            seen.len() == it.index(),
            forall|j: int| 0 <= j < it.index() ==> verdicts@[j] == Some(#[trigger] seen[j]),
            out@ == kept(all.take(it.index() as int), seen),
    {
        let ghost n = it.index() as int;
        assert(all.take(n + 1) == all.take(n).push(item));
        let keep = match verdicts[i] {
            Some(keep) => keep,
            None => {
                return Err(access_failure());
            },
        };
        proof {
            lemma_chosen_push(all.take(n), seen, item, keep, true);
            seen = seen.push(keep);
        }
        if keep {
            out.push(item);
        }
        i += 1;
    }
    assert(all.take(all.len() as int) == all);
    assert forall|j: int| 0 <= j < verdicts@.len() implies (#[trigger] verdicts@[j]) is Some by {
        assert(verdicts@[j] == Some(seen[j]));
    }
    assert(seen =~= values(verdicts@));
    Ok(out)
}

/// Merges per-item verdicts into the number of `true` ones, or the failure.
pub fn tally(verdicts: &Vec<Option<bool>>) -> (result: KeyPathResult<usize>)
    ensures
        result is Ok <==> complete(verdicts@),
        result matches Ok(n) ==> n == hits(values(verdicts@)),
        result matches Err(e) ==> e@ == access_failed(),
{
    let mut count: usize = 0;
    let ghost mut seen: Seq<bool> = Seq::empty();
    let mut i: usize = 0;
    while i < verdicts.len()
        invariant
            i <= verdicts@.len(),
            seen.len() == i,
            forall|j: int| 0 <= j < i ==> verdicts@[j] == Some(#[trigger] seen[j]),
            count == hits(seen),
            count <= i,
        decreases verdicts@.len() - i,
    {
        let hit = match verdicts[i] {
            Some(hit) => hit,
            None => {
                return Err(access_failure());
            },
        };
        proof {
            lemma_chosen_push(seen, seen, hit, hit, true);
            seen = seen.push(hit);
        }
        if hit {
            count += 1;
        }
        i += 1;
    }
    assert forall|j: int| 0 <= j < verdicts@.len() implies (#[trigger] verdicts@[j]) is Some by {
        assert(verdicts@[j] == Some(seen[j]));
    }
    assert(seen =~= values(verdicts@));
    Ok(count)
}

/// Scans per-item verdicts while they are `passing`.
///
/// `Ok(Some(k))`: position `k` is where the scan ends, and its verdict is
/// `!passing`. `Ok(None)`: every verdict is `passing`. `Err`: the outcome where
/// the scan ends is missing. Outcomes after the end of the scan are not looked at.
pub fn first_other(verdicts: &Vec<Option<bool>>, passing: bool) -> (result: KeyPathResult<
    Option<usize>,
>)
    ensures
        result matches Ok(Some(k)) ==> k == scan_end(verdicts@, passing) && k < verdicts@.len()
            && verdicts@[k as int] == Some(!passing),
        result matches Ok(None) ==> scan_end(verdicts@, passing) == verdicts@.len(),
        result matches Err(e) ==> e@ == access_failed() && scan_end(
            verdicts@,
            passing,
        ) < verdicts@.len() && verdicts@[scan_end(verdicts@, passing)] is None,
{
    proof {
        lemma_scan_end(verdicts@, passing);
    }
    let mut i: usize = 0;
    while i < verdicts.len()
        invariant
            i <= verdicts@.len(),
            i <= scan_end(verdicts@, passing),
        decreases verdicts@.len() - i,
    {
        proof {
            lemma_scan_end(verdicts@, passing);
        }
        match verdicts[i] {
            Some(verdict) => {
                if verdict != passing {
                    return Ok(Some(i));
                }
            },
            None => {
                return Err(access_failure());
            },
        }
        proof {
            if i == scan_end(verdicts@, passing) {
                assert(verdicts@[i as int] == Some(passing));
            }
        }
        i += 1;
    }
    Ok(None)
}

/// Outcomes of `f` on every item merge into what mapping `f` returns.
pub proof fn lemma_gather_maps<T, V, K: KeyPath<T, V>, R, F: Fn(&V) -> R>(
    keypath: &K,
    f: &F,
    items: Seq<T>,
    per_item: Seq<Option<R>>,
    result: KeyPathResult<Vec<R>>,
)
    requires
        applied_each(keypath, f, items, per_item),
        result is Ok <==> complete(per_item),
        result matches Ok(out) ==> out@ == values(per_item),
        result matches Err(e) ==> e@ == access_failed(),
    ensures
        maps_to(keypath, f, items, result),
{
    if result is Ok {
        assert forall|i: int| 0 <= i < items.len() implies present(keypath, #[trigger] items[i]) by {
            assert(per_item[i] is Some);
        }
    } else {
        let i = choose|i: int| 0 <= i < per_item.len() && !((#[trigger] per_item[i]) is Some);
        assert(!present(keypath, items[i]));
    }
}

/// Clones of every item's field merge into what collecting returns.
pub proof fn lemma_gather_collects<T, V: Clone, K: KeyPath<T, V>>(
    keypath: &K,
    items: Seq<T>,
    per_item: Seq<Option<V>>,
    result: KeyPathResult<Vec<V>>,
)
    requires
        copied_each(keypath, items, per_item),
        result is Ok <==> complete(per_item),
        result matches Ok(out) ==> out@ == values(per_item),
        result matches Err(e) ==> e@ == access_failed(),
    ensures
        collects_to(keypath, items, result),
{
    if result is Ok {
        assert forall|i: int| 0 <= i < items.len() implies present(keypath, #[trigger] items[i]) by {
            assert(per_item[i] is Some);
        }
    } else {
        let i = choose|i: int| 0 <= i < per_item.len() && !((#[trigger] per_item[i]) is Some);
        assert(!present(keypath, items[i]));
    }
}

/// Verdicts on every item merge into what filtering returns.
pub proof fn lemma_select_filters<T, V, K: KeyPath<T, V>, F: Fn(&V) -> bool>(
    keypath: &K,
    predicate: &F,
    items: Seq<T>,
    per_item: Seq<Option<bool>>,
    result: KeyPathResult<Vec<T>>,
)
    requires
        applied_each(keypath, predicate, items, per_item),
        result is Ok <==> complete(per_item),
        result matches Ok(out) ==> out@ == kept(items, values(per_item)),
        result matches Err(e) ==> e@ == access_failed(),
    ensures
        filters_to(keypath, predicate, items, result),
{
    if result is Ok {
        assert forall|i: int| 0 <= i < items.len() implies present(keypath, #[trigger] items[i]) by {
            assert(per_item[i] is Some);
        }
        assert(outcomes(predicate, fields(keypath, items), values(per_item)));
    } else {
        let i = choose|i: int| 0 <= i < per_item.len() && !((#[trigger] per_item[i]) is Some);
        assert(!present(keypath, items[i]));
    }
}

/// Verdicts on every item merge into what counting returns.
pub proof fn lemma_tally_counts<T, V, K: KeyPath<T, V>, F: Fn(&V) -> bool>(
    keypath: &K,
    predicate: &F,
    items: Seq<T>,
    per_item: Seq<Option<bool>>,
    result: KeyPathResult<usize>,
)
    requires
        applied_each(keypath, predicate, items, per_item),
        result is Ok <==> complete(per_item),
        result matches Ok(n) ==> n == hits(values(per_item)),
        result matches Err(e) ==> e@ == access_failed(),
    ensures
        counts_to(keypath, predicate, items, result),
{
    if result is Ok {
        assert forall|i: int| 0 <= i < items.len() implies present(keypath, #[trigger] items[i]) by {
            assert(per_item[i] is Some);
        }
        assert(outcomes(predicate, fields(keypath, items), values(per_item)));
    } else {
        let i = choose|i: int| 0 <= i < per_item.len() && !((#[trigger] per_item[i]) is Some);
        assert(!present(keypath, items[i]));
    }
}

/// The verdicts are enough to decide a scan over `items` that goes on while
/// the verdict is `passing`: there is one for each item from the front, as
/// far as they go, and where they stop short of the items the scan ends within them.
pub open spec fn decides_scan<T, V, K: KeyPath<T, V>, F: Fn(&V) -> bool>(
    keypath: &K,
    predicate: &F,
    items: Seq<T>,
    per_item: Seq<Option<bool>>,
    passing: bool,
) -> bool {
    &&& per_item.len() <= items.len()
    &&& applied_each(keypath, predicate, items.take(per_item.len() as int), per_item)
    &&& per_item.len() < items.len() ==> scan_end(per_item, passing) < per_item.len()
}

/// Where a scan over the verdicts ends is where the scan over the items
/// stops, fails or runs through.
pub proof fn lemma_decided_scan<T, V, K: KeyPath<T, V>, F: Fn(&V) -> bool>(
    keypath: &K,
    predicate: &F,
    items: Seq<T>,
    per_item: Seq<Option<bool>>,
    passing: bool,
)
    requires
        decides_scan(keypath, predicate, items, per_item, passing),
    ensures
        0 <= scan_end(per_item, passing) <= per_item.len(),
        each_before(keypath, predicate, items, scan_end(per_item, passing), passing),
        scan_end(per_item, passing) < per_item.len() && per_item[scan_end(per_item, passing)]
            is Some ==> stops_at(keypath, predicate, items, scan_end(per_item, passing), passing),
        scan_end(per_item, passing) < per_item.len() && per_item[scan_end(per_item, passing)]
            is None ==> fails_at(keypath, predicate, items, scan_end(per_item, passing), passing),
        scan_end(per_item, passing) == per_item.len() ==> per_item.len() == items.len(),
{
    let seen = items.take(per_item.len() as int);
    let k = scan_end(per_item, passing);
    lemma_scan_end(per_item, passing);
    assert forall|j: int| 0 <= j < k implies present(keypath, #[trigger] items[j]) && yields(
        predicate,
        field(keypath, items[j]),
        passing,
    ) by {
        assert(per_item[j] == Some(passing));
        assert(applied(keypath, predicate, seen[j], per_item[j]));
    }
    if k < per_item.len() {
        assert(applied(keypath, predicate, seen[k], per_item[k]));
    }
}

/// Takes out the item a scan for the first `true` verdict ends at.
///
/// `Ok(Some(x))`: the scan ends at a `true` verdict, and `x` is the item
/// there. `Ok(None)`: every verdict is `false`. `Err`: the outcome where the
/// scan ends is missing.
pub fn take_found<T>(items: Vec<T>, verdicts: &Vec<Option<bool>>) -> (result: KeyPathResult<
    Option<T>,
>)
    requires
        verdicts@.len() <= items@.len(),
    ensures
        result matches Ok(Some(x)) ==> scan_end(verdicts@, false) < verdicts@.len()
            && verdicts@[scan_end(verdicts@, false)] == Some(true) && x == items@[scan_end(
            verdicts@,
            false,
        )],
        result matches Ok(None) ==> scan_end(verdicts@, false) == verdicts@.len(),
        result matches Err(e) ==> e@ == access_failed() && scan_end(verdicts@, false)
            < verdicts@.len() && verdicts@[scan_end(verdicts@, false)] is None,
{
    match first_other(verdicts, false) {
        Ok(Some(k)) => {
            let mut rest = items;
            let found = rest.swap_remove(k);
            Ok(Some(found))
        },
        Ok(None) => Ok(None),
        Err(e) => Err(e),
    }
}

/// Whether a scan that goes on while the verdict is `passing` reaches the end.
///
/// `Ok(true)`: every verdict is `passing`. `Ok(false)`: the scan ends at
/// another verdict. `Err`: the outcome where the scan ends is missing.
pub fn ran_through(verdicts: &Vec<Option<bool>>, passing: bool) -> (result: KeyPathResult<bool>)
    ensures
        result matches Ok(through) ==> through == (scan_end(verdicts@, passing) == verdicts@.len()),
        result matches Ok(false) ==> verdicts@[scan_end(verdicts@, passing)] == Some(!passing),
        result matches Err(e) ==> e@ == access_failed() && scan_end(
            verdicts@,
            passing,
        ) < verdicts@.len() && verdicts@[scan_end(verdicts@, passing)] is None,
{
    match first_other(verdicts, passing) {
        Ok(Some(_)) => Ok(false),
        Ok(None) => Ok(true),
        Err(e) => Err(e),
    }
}

/// The item taken out where the scan ends is what finding returns.
pub proof fn lemma_found_finds<T, V, K: KeyPath<T, V>, F: Fn(&V) -> bool>(
    keypath: &K,
    predicate: &F,
    items: Seq<T>,
    per_item: Seq<Option<bool>>,
    result: KeyPathResult<Option<T>>,
)
    requires
        decides_scan(keypath, predicate, items, per_item, false),
        result matches Ok(Some(x)) ==> scan_end(per_item, false) < per_item.len() && per_item[scan_end(
            per_item,
            false,
        )] == Some(true) && x == items[scan_end(per_item, false)],
        result matches Ok(None) ==> scan_end(per_item, false) == per_item.len(),
        result matches Err(e) ==> e@ == access_failed() && scan_end(per_item, false)
            < per_item.len() && per_item[scan_end(per_item, false)] is None,
    ensures
        finds(keypath, predicate, items, result),
        all_present(keypath, items) ==> result is Ok,
{
    lemma_decided_scan(keypath, predicate, items, per_item, false);
    if result is Err {
        assert(!present(keypath, items[scan_end(per_item, false)]));
    }
}

/// Whether the scan for a `true` verdict ended before the end is what asking
/// for any item returns.
pub proof fn lemma_through_any<T, V, K: KeyPath<T, V>, F: Fn(&V) -> bool>(
    keypath: &K,
    predicate: &F,
    items: Seq<T>,
    per_item: Seq<Option<bool>>,
    through: KeyPathResult<bool>,
    result: KeyPathResult<bool>,
)
    requires
        decides_scan(keypath, predicate, items, per_item, false),
        through matches Ok(b) ==> b == (scan_end(per_item, false) == per_item.len()),
        through matches Ok(false) ==> per_item[scan_end(per_item, false)] == Some(true),
        through matches Err(e) ==> e@ == access_failed() && scan_end(per_item, false)
            < per_item.len() && per_item[scan_end(per_item, false)] is None,
        result == match through {
            Ok(b) => Ok::<bool, KeyPathError>(!b),
            Err(e) => Err(e),
        },
    ensures
        any_holds(keypath, predicate, items, result),
        all_present(keypath, items) ==> result is Ok,
{
    lemma_decided_scan(keypath, predicate, items, per_item, false);
    if result is Err {
        assert(!present(keypath, items[scan_end(per_item, false)]));
    }
}

/// Whether the scan for a `false` verdict reached the end is what asking for
/// all items returns.
pub proof fn lemma_through_all<T, V, K: KeyPath<T, V>, F: Fn(&V) -> bool>(
    keypath: &K,
    predicate: &F,
    items: Seq<T>,
    per_item: Seq<Option<bool>>,
    result: KeyPathResult<bool>,
)
    requires
        decides_scan(keypath, predicate, items, per_item, true),
        result matches Ok(b) ==> b == (scan_end(per_item, true) == per_item.len()),
        result matches Ok(false) ==> per_item[scan_end(per_item, true)] == Some(false),
        result matches Err(e) ==> e@ == access_failed() && scan_end(per_item, true)
            < per_item.len() && per_item[scan_end(per_item, true)] is None,
    ensures
        all_hold(keypath, predicate, items, result),
        all_present(keypath, items) ==> result is Ok,
{
    lemma_decided_scan(keypath, predicate, items, per_item, true);
    if result is Err {
        assert(!present(keypath, items[scan_end(per_item, true)]));
    }
}

/// The outcomes of every item decide any scan.
pub proof fn lemma_all_outcomes_decide<T, V, K: KeyPath<T, V>, F: Fn(&V) -> bool>(
    keypath: &K,
    predicate: &F,
    items: Seq<T>,
    per_item: Seq<Option<bool>>,
    passing: bool,
)
    requires
        applied_each(keypath, predicate, items, per_item),
    ensures
        decides_scan(keypath, predicate, items, per_item, passing),
{
    assert(items.take(per_item.len() as int) == items);
}

} // verus!
