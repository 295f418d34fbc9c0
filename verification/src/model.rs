//! The vocabulary the contracts are written in.
//!
//! An accessor is pure, so its reads are a function of the item. A caller's
//! closure is described by what it may return (`call_ensures`), which leaves
//! room for closures that are not functions of their arguments; the contracts
//! therefore speak of *a* sequence of outcomes the closure produced.

use vstd::prelude::*;
use crate::error::{access_failed, KeyPathResult};
use crate::keypath::KeyPath;

verus! {

/// The field is there.
pub open spec fn present<T, V, K: KeyPath<T, V>>(keypath: &K, item: T) -> bool {
    keypath.read(item) is Some
}

/// The field `keypath` reaches in `item`; meaningful where it is present.
pub open spec fn field<T, V, K: KeyPath<T, V>>(keypath: &K, item: T) -> V {
    keypath.read(item)->0
}

/// Every item's field is present.
pub open spec fn all_present<T, V, K: KeyPath<T, V>>(keypath: &K, items: Seq<T>) -> bool {
    forall|i: int| 0 <= i < items.len() ==> present(keypath, #[trigger] items[i])
}

/// The field of each item, in order; meaningful where every field is present.
pub open spec fn fields<T, V, K: KeyPath<T, V>>(keypath: &K, items: Seq<T>) -> Seq<V> {
    Seq::new(items.len(), |i: int| field(keypath, items[i]))
}

/// `f` may be called on `v`.
pub open spec fn accepts<V, R, F: Fn(&V) -> R>(f: &F, v: V) -> bool {
    call_requires(*f, (&v,))
}

/// `r` is a possible result of `f(&v)`.
pub open spec fn yields<V, R, F: Fn(&V) -> R>(f: &F, v: V, r: R) -> bool {
    call_ensures(*f, (&v,), r)
}

/// `f` may be called on every field that is present in `items`.
pub open spec fn accepts_fields<T, V, K: KeyPath<T, V>, R, F: Fn(&V) -> R>(
    f: &F,
    keypath: &K,
    items: Seq<T>,
) -> bool {
    forall|i: int|
        0 <= i < items.len() && present(keypath, #[trigger] items[i]) ==> accepts(
            f,
            field(keypath, items[i]),
        )
}

/// `outputs` holds, position by position, a possible result of `f` on `inputs`.
pub open spec fn outcomes<V, R, F: Fn(&V) -> R>(f: &F, inputs: Seq<V>, outputs: Seq<R>) -> bool {
    &&& outputs.len() == inputs.len()
    &&& forall|i: int| 0 <= i < inputs.len() ==> yields(f, inputs[i], #[trigger] outputs[i])
}

/// `f` is a function of its argument: whatever it returns on `v` is `model(v)`.
pub open spec fn decided_by<V, R, F: Fn(&V) -> R>(f: &F, model: spec_fn(V) -> R) -> bool {
    forall|v: V, r: R| #[trigger] yields(f, v, r) ==> r == model(v)
}

/// The items whose verdict equals `wanted`, in the order they stand in.
pub open spec fn chosen<T>(items: Seq<T>, verdicts: Seq<bool>, wanted: bool) -> Seq<T>
    decreases items.len(),
{
    if items.len() == 0 || verdicts.len() != items.len() {
        Seq::empty()
    } else {
        let rest = chosen(items.drop_last(), verdicts.drop_last(), wanted);
        if verdicts.last() == wanted {
            rest.push(items.last())
        } else {
            rest
        }
    }
}

/// The items whose verdict is `true`, in the order they stand in.
pub open spec fn kept<T>(items: Seq<T>, verdicts: Seq<bool>) -> Seq<T> {
    chosen(items, verdicts, true)
}

/// The items whose verdict is `false`, in the order they stand in.
pub open spec fn dropped<T>(items: Seq<T>, verdicts: Seq<bool>) -> Seq<T> {
    chosen(items, verdicts, false)
}

/// The verdicts that pick out the positions whose key is `g`.
pub open spec fn has_key<G>(keys: Seq<G>, g: G) -> Seq<bool> {
    Seq::new(keys.len(), |i: int| keys[i] == g)
}

/// How many verdicts are `true`.
pub open spec fn hits(verdicts: Seq<bool>) -> nat
    decreases verdicts.len(),
{
    if verdicts.len() == 0 {
        0
    } else {
        hits(verdicts.drop_last()) + if verdicts.last() { 1nat } else { 0nat }
    }
}

/// `copies` holds, position by position, a clone of `sources`.
pub open spec fn clones_of<T: Clone>(sources: Seq<T>, copies: Seq<T>) -> bool {
    &&& copies.len() == sources.len()
    &&& forall|i: int| 0 <= i < sources.len() ==> cloned(sources[i], #[trigger] copies[i])
}

/// Choosing by a verdict takes each item to exactly one side.
pub proof fn lemma_chosen_lengths<T>(items: Seq<T>, verdicts: Seq<bool>)
    requires
        verdicts.len() == items.len(),
    ensures
        kept(items, verdicts).len() + dropped(items, verdicts).len() == items.len(),
        kept(items, verdicts).len() == hits(verdicts),
    decreases items.len(),
{
    if items.len() > 0 {
        lemma_chosen_lengths(items.drop_last(), verdicts.drop_last());
    }
}

/// One more item and its verdict extend the chosen items at the end.
pub proof fn lemma_chosen_push<T>(items: Seq<T>, verdicts: Seq<bool>, item: T, verdict: bool, wanted: bool)
    requires
        verdicts.len() == items.len(),
    ensures
        chosen(items.push(item), verdicts.push(verdict), wanted) == if verdict == wanted {
            chosen(items, verdicts, wanted).push(item)
        } else {
            chosen(items, verdicts, wanted)
        },
        hits(verdicts.push(verdict)) == hits(verdicts) + if verdict { 1nat } else { 0nat },
{
    assert(items.push(item).drop_last() == items);
    assert(verdicts.push(verdict).drop_last() == verdicts);
}

/// An item whose verdict is `true` has a place of its own among the kept
/// items: as many are before it there as have a `true` verdict before it.
pub proof fn lemma_kept_place<T>(items: Seq<T>, verdicts: Seq<bool>, i: int)
    requires
        verdicts.len() == items.len(),
        0 <= i < items.len(),
        verdicts[i],
    ensures
        hits(verdicts.take(i)) < kept(items, verdicts).len(),
        kept(items, verdicts)[hits(verdicts.take(i)) as int] == items[i],
    decreases items.len(),
{
    let fewer = items.drop_last();
    let earlier = verdicts.drop_last();
    lemma_chosen_lengths(fewer, earlier);
    if i == items.len() - 1 {
        assert(verdicts.take(i) == earlier);
    } else {
        lemma_kept_place(fewer, earlier, i);
        assert(earlier.take(i) == verdicts.take(i));
    }
}

/// Where no verdict is the wanted one, nothing is chosen.
pub proof fn lemma_none_chosen<T>(items: Seq<T>, verdicts: Seq<bool>, wanted: bool)
    requires
        verdicts.len() == items.len(),
        forall|i: int| 0 <= i < verdicts.len() ==> verdicts[i] != wanted,
    ensures
        chosen(items, verdicts, wanted) == Seq::<T>::empty(),
    decreases items.len(),
{
    if items.len() > 0 {
        lemma_none_chosen(items.drop_last(), verdicts.drop_last(), wanted);
    }
}

/// Where the predicate is a function of the field, its verdicts are that function's values.
pub proof fn lemma_decided_verdicts<V, F: Fn(&V) -> bool>(
    f: &F,
    model: spec_fn(V) -> bool,
    inputs: Seq<V>,
    verdicts: Seq<bool>,
)
    requires
        decided_by(f, model),
        outcomes(f, inputs, verdicts),
    ensures
        verdicts == Seq::new(inputs.len(), |i: int| model(inputs[i])),
{
    assert(verdicts =~= Seq::new(inputs.len(), |i: int| model(inputs[i])));
}

/// Every item before position `upto` has its field, and the predicate answered `verdict` on it.
pub open spec fn each_before<T, V, K: KeyPath<T, V>, F: Fn(&V) -> bool>(
    keypath: &K,
    predicate: &F,
    items: Seq<T>,
    upto: int,
    verdict: bool,
) -> bool {
    forall|j: int|
        0 <= j < upto ==> present(keypath, #[trigger] items[j]) && yields(
            predicate,
            field(keypath, items[j]),
            verdict,
        )
}

/// A scan that goes on while the predicate answers `passing` stops at `k`:
/// the item there has its field and is the first on which the answer differs.
pub open spec fn stops_at<T, V, K: KeyPath<T, V>, F: Fn(&V) -> bool>(
    keypath: &K,
    predicate: &F,
    items: Seq<T>,
    k: int,
    passing: bool,
) -> bool {
    &&& 0 <= k < items.len()
    &&& each_before(keypath, predicate, items, k, passing)
    &&& present(keypath, items[k])
    &&& yields(predicate, field(keypath, items[k]), !passing)
}

/// A scan that goes on while the predicate answers `passing` fails at `k`:
/// the item there is the first without its field, and no item before it stopped the scan.
pub open spec fn fails_at<T, V, K: KeyPath<T, V>, F: Fn(&V) -> bool>(
    keypath: &K,
    predicate: &F,
    items: Seq<T>,
    k: int,
    passing: bool,
) -> bool {
    &&& 0 <= k < items.len()
    &&& each_before(keypath, predicate, items, k, passing)
    &&& !present(keypath, items[k])
}

/// A scan that goes on while the predicate answers `passing` reaches the end.
pub open spec fn runs_through<T, V, K: KeyPath<T, V>, F: Fn(&V) -> bool>(
    keypath: &K,
    predicate: &F,
    items: Seq<T>,
    passing: bool,
) -> bool {
    each_before(keypath, predicate, items, items.len() as int, passing)
}

/// `result` is what mapping `f` over the fields of `items` may return: `Ok`
/// exactly when every field is present, then with one entry per item, each a
/// result of `f` on that item's field.
pub open spec fn maps_to<T, V, K: KeyPath<T, V>, R, F: Fn(&V) -> R>(
    keypath: &K,
    f: &F,
    items: Seq<T>,
    result: KeyPathResult<Vec<R>>,
) -> bool {
    &&& result is Ok <==> all_present(keypath, items)
    &&& result matches Ok(out) ==> outcomes(f, fields(keypath, items), out@)
    &&& result matches Err(e) ==> e@ == access_failed()
}

/// `result` is what filtering `items` by `predicate` may return: `Ok` exactly
/// when every field is present, then with the items chosen by a sequence of
/// verdicts, one per item and each a result of `predicate` on that item's field.
pub open spec fn filters_to<T, V, K: KeyPath<T, V>, F: Fn(&V) -> bool>(
    keypath: &K,
    predicate: &F,
    items: Seq<T>,
    result: KeyPathResult<Vec<T>>,
) -> bool {
    &&& result is Ok <==> all_present(keypath, items)
    &&& result matches Ok(out) ==> exists|verdicts: Seq<bool>| #[trigger]
        outcomes(predicate, fields(keypath, items), verdicts) && out@ == kept(items, verdicts)
    &&& result matches Err(e) ==> e@ == access_failed()
}

/// `result` is what looking for the first item that satisfies `predicate` may
/// return. The scan stops at the first match, so items after it are not read:
/// `Ok(Some(x))` with `x` the item the scan stopped at, `Ok(None)` where the
/// predicate answered `false` on every item, `Err` where a field was absent
/// before any match.
pub open spec fn finds<T, V, K: KeyPath<T, V>, F: Fn(&V) -> bool>(
    keypath: &K,
    predicate: &F,
    items: Seq<T>,
    result: KeyPathResult<Option<T>>,
) -> bool {
    &&& result matches Ok(Some(x)) ==> exists|k: int| #[trigger]
        stops_at(keypath, predicate, items, k, false) && x == items[k]
    &&& result matches Ok(None) ==> runs_through(keypath, predicate, items, false)
    &&& result matches Err(e) ==> e@ == access_failed() && exists|k: int| #[trigger]
        fails_at(keypath, predicate, items, k, false)
}

/// `result` is what collecting the fields of `items` may return: `Ok` exactly
/// when every field is present, then with a clone of each item's field, in order.
pub open spec fn collects_to<T, V: Clone, K: KeyPath<T, V>>(
    keypath: &K,
    items: Seq<T>,
    result: KeyPathResult<Vec<V>>,
) -> bool {
    &&& result is Ok <==> all_present(keypath, items)
    &&& result matches Ok(out) ==> clones_of(fields(keypath, items), out@)
    &&& result matches Err(e) ==> e@ == access_failed()
}

/// `result` is what counting the items that satisfy `predicate` may return:
/// `Ok` exactly when every field is present, then with the number of `true`
/// verdicts in a sequence of verdicts, one per item.
pub open spec fn counts_to<T, V, K: KeyPath<T, V>, F: Fn(&V) -> bool>(
    keypath: &K,
    predicate: &F,
    items: Seq<T>,
    result: KeyPathResult<usize>,
) -> bool {
    &&& result is Ok <==> all_present(keypath, items)
    &&& result matches Ok(n) ==> exists|verdicts: Seq<bool>| #[trigger]
        outcomes(predicate, fields(keypath, items), verdicts) && n == hits(verdicts)
    &&& result matches Err(e) ==> e@ == access_failed()
}

/// `result` is what asking whether any item satisfies `predicate` may return.
/// The scan stops at the first item that does: `Ok(true)` where it stopped,
/// `Ok(false)` where the predicate answered `false` on every item, `Err` where
/// a field was absent before any match.
pub open spec fn any_holds<T, V, K: KeyPath<T, V>, F: Fn(&V) -> bool>(
    keypath: &K,
    predicate: &F,
    items: Seq<T>,
    result: KeyPathResult<bool>,
) -> bool {
    &&& result matches Ok(true) ==> exists|k: int| #[trigger]
        stops_at(keypath, predicate, items, k, false)
    &&& result matches Ok(false) ==> runs_through(keypath, predicate, items, false)
    &&& result matches Err(e) ==> e@ == access_failed() && exists|k: int| #[trigger]
        fails_at(keypath, predicate, items, k, false)
}

/// `result` is what asking whether every item satisfies `predicate` may
/// return. The scan stops at the first item that does not: `Ok(false)` where it
/// stopped, `Ok(true)` where the predicate answered `true` on every item,
/// `Err` where a field was absent before any item failed the predicate.
pub open spec fn all_hold<T, V, K: KeyPath<T, V>, F: Fn(&V) -> bool>(
    keypath: &K,
    predicate: &F,
    items: Seq<T>,
    result: KeyPathResult<bool>,
) -> bool {
    &&& result matches Ok(false) ==> exists|k: int| #[trigger]
        stops_at(keypath, predicate, items, k, true)
    &&& result matches Ok(true) ==> runs_through(keypath, predicate, items, true)
    &&& result matches Err(e) ==> e@ == access_failed() && exists|k: int| #[trigger]
        fails_at(keypath, predicate, items, k, true)
}

} // verus!
