//! The operations as methods of a collection that is only borrowed: items the
//! result holds are clones, and the collection is left as it was.

use vstd::prelude::*;
use vstd::std_specs::hash::*;
use core::cmp::Ordering;
use std::collections::{HashMap, HashSet};
use std::hash::Hash;
use crate::error::{
    access_failed, access_failure, empty_window, invalid_window, window_empty, window_invalid,
    KeyPathResult,
};
use crate::composable::{apply_keypath_operation, operates};
use crate::higher_order::{
    accepts_comparisons, compares, group_by_keypath, grouped, may_compare, paired_outcomes,
    shorter, sort_by_keypath, sorted_by, zip_with_keypath,
};
use crate::sorting::answers;
use crate::keypath::KeyPath;
use crate::model::{
    accepts, accepts_fields, all_hold, all_present, any_holds, clones_of, collects_to, counts_to,
    dropped, each_before, fails_at, field, fields, finds, has_key, hits, kept,
    lemma_chosen_lengths, lemma_chosen_push, lemma_none_chosen, outcomes, present, stops_at,
};

verus! {

/// A borrowed item, as the item itself.
pub open spec fn lent<T>(result: KeyPathResult<Option<&T>>) -> KeyPathResult<Option<T>> {
    match result {
        Ok(Some(x)) => Ok(Some(*x)),
        Ok(None) => Ok(None),
        Err(e) => Err(e),
    }
}

/// `f` may be called on every run of `width` values.
pub open spec fn accepts_windows<V, R, F: Fn(&[V]) -> R>(f: &F, width: int) -> bool {
    forall|window: &[V]| window@.len() == width ==> #[trigger] call_requires(*f, (window,))
}

/// `r` is a possible result of `f` on clones of `values`.
pub open spec fn aggregates<V: Clone, R, F: Fn(&[V]) -> R>(f: &F, values: Seq<V>, r: R) -> bool {
    exists|window: &[V]| clones_of(values, window@) && #[trigger] call_ensures(*f, (window,), r)
}

/// `out` holds one entry for each run of `width` consecutive values, in
/// order of where the run starts: `len - width + 1` of them, or none where
/// there are fewer than `width` values. The entry at `i` is a result of `f` on
/// clones of the values at `i .. i + width`.
pub open spec fn windows_to<V: Clone, R, F: Fn(&[V]) -> R>(
    f: &F,
    values: Seq<V>,
    width: int,
    out: Seq<R>,
) -> bool {
    &&& out.len() == if values.len() >= width {
        values.len() - width + 1
    } else {
        0
    }
    &&& forall|i: int|
        0 <= i < out.len() ==> aggregates(f, values.subrange(i, i + width), #[trigger] out[i])
}

/// How often `v` occurs in `values`.
pub open spec fn occurrences<V>(values: Seq<V>, v: V) -> nat {
    hits(has_key(values, v))
}

/// Operations on a borrowed collection, each reading through one accessor.
///
/// Every operation fails fast: the first item whose field is absent ends the
/// call with `InvalidAccess`, and nothing partial is returned.
pub trait KeyPathsCollectionExt<T>: View<V = Seq<T>> {
    /// Collects a clone of every item's field, in order.
    fn collect_keypath<V, K>(&self, keypath: K) -> (result: KeyPathResult<Vec<V>>) where
        K: KeyPath<T, V>,
        V: Clone,

        ensures
            collects_to(&keypath, self@, result),
            result matches Ok(out) ==> out@.len() == self@.len(),
    ;

    /// Splits clones of the items by `predicate`: those it answers `true` on,
    /// and the rest, each side in the order of the collection.
    ///
    /// `Ok` exactly when every field is present. The two sides are then chosen
    /// from clones of the items by one sequence of verdicts, so every item is
    /// on exactly one side.
    fn partition_by_keypath<V, K, F>(&self, keypath: K, predicate: F) -> (result: KeyPathResult<
        (Vec<T>, Vec<T>),
    >) where T: Clone, K: KeyPath<T, V>, F: Fn(&V) -> bool
        requires
            accepts_fields(&predicate, &keypath, self@),
        ensures
            result is Ok <==> all_present(&keypath, self@),
            result matches Ok(sides) ==> exists|verdicts: Seq<bool>, copies: Seq<T>| #[trigger]
                outcomes(&predicate, fields(&keypath, self@), verdicts) && #[trigger] clones_of(
                    self@,
                    copies,
                ) && sides.0@ == kept(copies, verdicts) && sides.1@ == dropped(copies, verdicts),
            result matches Ok(sides) ==> sides.0@.len() + sides.1@.len() == self@.len(),
            result matches Err(e) ==> e@ == access_failed(),
    ;

    /// Groups clones of the items by the key `f` gives for each item's field.
    ///
    /// `Ok` exactly when every field is present. There is then a sequence of
    /// keys, one per item, such that the map has a bucket for exactly the keys
    /// that occur, holding clones of the items with that key in the order they stand in.
    fn group_by_keypath<V, K, F, G>(&self, keypath: K, f: F) -> (result: KeyPathResult<
        HashMap<G, Vec<T>>,
    >) where K: KeyPath<T, V>, F: Fn(&V) -> G, G: Hash + Eq, T: Clone
        requires
            obeys_key_model::<G>(),
            accepts_fields(&f, &keypath, self@),
        ensures
            result is Ok <==> all_present(&keypath, self@),
            result matches Ok(groups) ==> exists|keys: Seq<G>, copies: Seq<T>| #[trigger]
                outcomes(&f, fields(&keypath, self@), keys) && #[trigger] clones_of(self@, copies)
                    && grouped(copies, keys, groups@),
            result matches Err(e) ==> e@ == access_failed(),
    ;

    /// Sorts the collection in place by the field, stably.
    ///
    /// `Ok` exactly when every field is present; otherwise the collection is
    /// left as it was.
    fn sort_by_keypath<V, K, F>(&mut self, keypath: K, compare: F) -> (result: KeyPathResult<()>)
        where K: KeyPath<T, V>, F: Fn(&V, &V) -> Ordering
        requires
            accepts_comparisons(&compare, &keypath, old(self)@),
        ensures
            result is Ok <==> all_present(&keypath, old(self)@),
            result is Ok ==> exists|origin: Seq<int>| #[trigger]
                sorted_by(&keypath, &compare, old(self)@, final(self)@, origin),
            result matches Err(e) ==> e@ == access_failed() && final(self)@ == old(self)@,
    ;

    /// Finds the first item on whose field `predicate` answers `true`.
    ///
    /// The scan stops at the first match, so items after it are not read.
    fn find_by_keypath<V, K, F>(&self, keypath: K, predicate: F) -> (result: KeyPathResult<
        Option<&T>,
    >) where K: KeyPath<T, V>, F: Fn(&V) -> bool
        requires
            accepts_fields(&predicate, &keypath, self@),
        ensures
            finds(&keypath, &predicate, self@, lent(result)),
            all_present(&keypath, self@) ==> result is Ok,
    ;

    /// Whether `predicate` answers `true` on some item's field.
    ///
    /// The scan stops at the first such item, so items after it are not read.
    fn any_by_keypath<V, K, F>(&self, keypath: K, predicate: F) -> (result: KeyPathResult<bool>)
        where K: KeyPath<T, V>, F: Fn(&V) -> bool
        requires
            accepts_fields(&predicate, &keypath, self@),
        ensures
            any_holds(&keypath, &predicate, self@, result),
            all_present(&keypath, self@) ==> result is Ok,
    ;

    /// Whether `predicate` answers `true` on every item's field.
    ///
    /// The scan stops at the first item on which it does not, so items after
    /// it are not read.
    fn all_by_keypath<V, K, F>(&self, keypath: K, predicate: F) -> (result: KeyPathResult<bool>)
        where K: KeyPath<T, V>, F: Fn(&V) -> bool
        requires
            accepts_fields(&predicate, &keypath, self@),
        ensures
            all_hold(&keypath, &predicate, self@, result),
            all_present(&keypath, self@) ==> result is Ok,
    ;

    /// Counts the items on whose field `predicate` answers `true`.
    fn count_by_keypath<V, K, F>(&self, keypath: K, predicate: F) -> (result: KeyPathResult<usize>)
        where K: KeyPath<T, V>, F: Fn(&V) -> bool
        requires
            accepts_fields(&predicate, &keypath, self@),
        ensures
            counts_to(&keypath, &predicate, self@, result),
            result matches Ok(n) ==> n <= self@.len(),
    ;

    /// The set of the field's values.
    ///
    /// `Ok` exactly when every field is present; the set then holds exactly
    /// the clones taken of the fields, one of each item's.
    fn unique_by_keypath<V, K>(&self, keypath: K) -> (result: KeyPathResult<HashSet<V>>) where
        K: KeyPath<T, V>,
        V: Hash + Eq + Clone,

        requires
            obeys_key_model::<V>(),
        ensures
            result is Ok <==> all_present(&keypath, self@),
            result matches Ok(values) ==> exists|copies: Seq<V>| #[trigger]
                clones_of(fields(&keypath, self@), copies) && values@ == copies.to_set(),
            result matches Err(e) ==> e@ == access_failed(),
    ;

    /// The field's values, each with the number of items that have it.
    ///
    /// `Ok` exactly when every field is present; the map then has exactly the
    /// clones taken of the fields as keys, each with how often it occurs
    /// among them.
    fn distinct_by_keypath<V, K>(&self, keypath: K) -> (result: KeyPathResult<HashMap<V, usize>>)
        where K: KeyPath<T, V>, V: Hash + Eq + Clone
        requires
            obeys_key_model::<V>(),
        ensures
            result is Ok <==> all_present(&keypath, self@),
            result matches Ok(counts) ==> exists|copies: Seq<V>| #[trigger]
                clones_of(fields(&keypath, self@), copies) && (forall|v: V| #[trigger]
                    counts@.contains_key(v) <==> copies.contains(v)) && (forall|v: V|
                    counts@.contains_key(v) ==> #[trigger] counts@[v] == occurrences(copies, v)),
            result matches Err(e) ==> e@ == access_failed(),
    ;

    /// Combines this collection with another position by position, up to the
    /// length of the shorter.
    fn zip_with_keypath<U, V1, V2, K1, K2, F, R>(
        &self,
        other: &[U],
        keypath1: K1,
        keypath2: K2,
        f: F,
    ) -> (result: KeyPathResult<Vec<R>>) where
        K1: KeyPath<T, V1>,
        K2: KeyPath<U, V2>,
        F: Fn(&V1, &V2) -> R,

        requires
            forall|i: int|
                0 <= i < self@.len() && i < other@.len() && present(&keypath1, self@[i])
                    && present(&keypath2, other@[i]) ==> #[trigger] call_requires(
                    f,
                    (&field(&keypath1, self@[i]), &field(&keypath2, other@[i])),
                ),
        ensures
            result is Ok <==> all_present(
                &keypath1,
                self@.take(shorter(self@.len() as int, other@.len() as int)),
            ) && all_present(
                &keypath2,
                other@.take(shorter(self@.len() as int, other@.len() as int)),
            ),
            result matches Ok(out) ==> paired_outcomes(
                &f,
                fields(&keypath1, self@.take(shorter(self@.len() as int, other@.len() as int))),
                fields(&keypath2, other@.take(shorter(self@.len() as int, other@.len() as int))),
                out@,
            ),
            result matches Ok(out) ==> out@.len() == shorter(
                self@.len() as int,
                other@.len() as int,
            ),
            result matches Err(e) ==> e@ == access_failed(),
    ;

    /// Applies `f` to every run of `window_size` consecutive fields.
    ///
    /// A window of no width, or wider than the collection, is refused with
    /// `CollectionError` before anything is read. Otherwise `Ok` exactly when
    /// every field is present, with `len - window_size + 1` entries.
    fn window_by_keypath<V, K, F, R>(&self, keypath: K, window_size: usize, f: F) -> (result:
        KeyPathResult<Vec<R>>) where K: KeyPath<T, V>, V: Clone, F: Fn(&[V]) -> R
        requires
            accepts_windows(&f, window_size as int),
        ensures
            result is Ok <==> 0 < window_size <= self@.len() && all_present(&keypath, self@),
            result matches Ok(out) ==> windows_to(
                &f,
                fields(&keypath, self@),
                window_size as int,
                out@,
            ),
            result matches Ok(out) ==> out@.len() == self@.len() - window_size + 1,
            result matches Err(e) ==> e@ == if 0 < window_size <= self@.len() {
                access_failed()
            } else {
                window_invalid(window_size as nat)
            },
    ;

    /// Applies `f` to the last `window_size` fields each time that many have
    /// been read, going through the items once.
    ///
    /// A window of no width is refused with `CollectionError` before anything
    /// is read. Otherwise `Ok` exactly when every field is present, with one
    /// entry per full window: none where the collection is shorter than the window.
    fn rolling_by_keypath<V, K, F, R>(&self, keypath: K, window_size: usize, f: F) -> (result:
        KeyPathResult<Vec<R>>) where K: KeyPath<T, V>, V: Clone, F: Fn(&[V]) -> R
        requires
            accepts_windows(&f, window_size as int),
        ensures
            result is Ok <==> 0 < window_size && all_present(&keypath, self@),
            result matches Ok(out) ==> windows_to(
                &f,
                fields(&keypath, self@),
                window_size as int,
                out@,
            ),
            result matches Err(e) ==> e@ == if 0 < window_size {
                access_failed()
            } else {
                window_empty()
            },
    ;
}

impl<T> KeyPathsCollectionExt<T> for Vec<T> {
    fn collect_keypath<V, K>(&self, keypath: K) -> (result: KeyPathResult<Vec<V>>) where
        K: KeyPath<T, V>,
        V: Clone,
     {
        let mut out: Vec<V> = Vec::new();
        let mut i: usize = 0;
        while i < self.len()
            invariant
                i <= self@.len(),
                all_present(&keypath, self@.take(i as int)),
                clones_of(fields(&keypath, self@.take(i as int)), out@),
            decreases self@.len() - i,
        {
            assert(self@.take(i as int + 1).drop_last() == self@.take(i as int));
            match keypath.get(&self[i]) {
                Some(v) => {
                    out.push(v.clone());
                },
                None => {
                    return Err(access_failure());
                },
            }
            i += 1;
        }
        assert(self@.take(i as int) == self@);
        Ok(out)
    }

    fn partition_by_keypath<V, K, F>(&self, keypath: K, predicate: F) -> (result: KeyPathResult<
        (Vec<T>, Vec<T>),
    >) where T: Clone, K: KeyPath<T, V>, F: Fn(&V) -> bool {
        let mut left: Vec<T> = Vec::new();
        let mut right: Vec<T> = Vec::new();
        let ghost mut verdicts: Seq<bool> = Seq::empty();
        let ghost mut copies: Seq<T> = Seq::empty();
        let mut i: usize = 0;
        while i < self.len()
            invariant
                i <= self@.len(),
                accepts_fields(&predicate, &keypath, self@),
                all_present(&keypath, self@.take(i as int)),
                outcomes(&predicate, fields(&keypath, self@.take(i as int)), verdicts),
                clones_of(self@.take(i as int), copies),
                left@ == kept(copies, verdicts),
                right@ == dropped(copies, verdicts),
            decreases self@.len() - i,
        {
            assert(self@.take(i as int + 1).drop_last() == self@.take(i as int));
            let keep = match keypath.get(&self[i]) {
                Some(v) => predicate(v),
                None => {
                    return Err(access_failure());
                },
            };
            let copy = self[i].clone();
            proof {
                lemma_chosen_push(copies, verdicts, copy, keep, true);
                lemma_chosen_push(copies, verdicts, copy, keep, false);
                verdicts = verdicts.push(keep);
                copies = copies.push(copy);
            }
            if keep {
                left.push(copy);
            } else {
                right.push(copy);
            }
            i += 1;
        }
        proof {
            assert(self@.take(i as int) == self@);
            lemma_chosen_lengths(copies, verdicts);
        }
        Ok((left, right))
    }

    fn group_by_keypath<V, K, F, G>(&self, keypath: K, f: F) -> (result: KeyPathResult<
        HashMap<G, Vec<T>>,
    >) where K: KeyPath<T, V>, F: Fn(&V) -> G, G: Hash + Eq, T: Clone {
        group_by_keypath(self.as_slice(), keypath, f)
    }

    fn sort_by_keypath<V, K, F>(&mut self, keypath: K, compare: F) -> (result: KeyPathResult<()>)
        where K: KeyPath<T, V>, F: Fn(&V, &V) -> Ordering {
        sort_by_keypath(self, keypath, compare)
    }

    fn find_by_keypath<V, K, F>(&self, keypath: K, predicate: F) -> (result: KeyPathResult<
        Option<&T>,
    >) where K: KeyPath<T, V>, F: Fn(&V) -> bool {
        let mut i: usize = 0;
        while i < self.len()
            invariant
                i <= self@.len(),
                accepts_fields(&predicate, &keypath, self@),
                each_before(&keypath, &predicate, self@, i as int, false),
            decreases self@.len() - i,
        {
            let hit = match keypath.get(&self[i]) {
                Some(v) => predicate(v),
                None => {
                    assert(fails_at(&keypath, &predicate, self@, i as int, false));
                    return Err(access_failure());
                },
            };
            if hit {
                assert(stops_at(&keypath, &predicate, self@, i as int, false));
                return Ok(Some(&self[i]));
            }
            i += 1;
        }
        Ok(None)
    }

    fn any_by_keypath<V, K, F>(&self, keypath: K, predicate: F) -> (result: KeyPathResult<bool>)
        where K: KeyPath<T, V>, F: Fn(&V) -> bool {
        let mut i: usize = 0;
        while i < self.len()
            invariant
                i <= self@.len(),
                accepts_fields(&predicate, &keypath, self@),
                each_before(&keypath, &predicate, self@, i as int, false),
            decreases self@.len() - i,
        {
            let hit = match keypath.get(&self[i]) {
                Some(v) => predicate(v),
                None => {
                    assert(fails_at(&keypath, &predicate, self@, i as int, false));
                    return Err(access_failure());
                },
            };
            if hit {
                assert(stops_at(&keypath, &predicate, self@, i as int, false));
                return Ok(true);
            }
            i += 1;
        }
        Ok(false)
    }

    fn all_by_keypath<V, K, F>(&self, keypath: K, predicate: F) -> (result: KeyPathResult<bool>)
        where K: KeyPath<T, V>, F: Fn(&V) -> bool {
        let mut i: usize = 0;
        while i < self.len()
            invariant
                i <= self@.len(),
                accepts_fields(&predicate, &keypath, self@),
                each_before(&keypath, &predicate, self@, i as int, true),
            decreases self@.len() - i,
        {
            let hit = match keypath.get(&self[i]) {
                Some(v) => predicate(v),
                None => {
                    assert(fails_at(&keypath, &predicate, self@, i as int, true));
                    return Err(access_failure());
                },
            };
            if !hit {
                assert(stops_at(&keypath, &predicate, self@, i as int, true));
                return Ok(false);
            }
            i += 1;
        }
        Ok(true)
    }

    fn count_by_keypath<V, K, F>(&self, keypath: K, predicate: F) -> (result: KeyPathResult<usize>)
        where K: KeyPath<T, V>, F: Fn(&V) -> bool {
        let mut count: usize = 0;
        let ghost mut verdicts: Seq<bool> = Seq::empty();
        let mut i: usize = 0;
        while i < self.len()
            invariant
                i <= self@.len(),
                accepts_fields(&predicate, &keypath, self@),
                all_present(&keypath, self@.take(i as int)),
                outcomes(&predicate, fields(&keypath, self@.take(i as int)), verdicts),
                count == hits(verdicts),
                count <= i,
            decreases self@.len() - i,
        {
            assert(self@.take(i as int + 1).drop_last() == self@.take(i as int));
            let hit = match keypath.get(&self[i]) {
                Some(v) => predicate(v),
                None => {
                    return Err(access_failure());
                },
            };
            proof {
                lemma_chosen_push(self@.take(i as int), verdicts, self@[i as int], hit, true);
                verdicts = verdicts.push(hit);
            }
            if hit {
                count += 1;
            }
            i += 1;
        }
        assert(self@.take(i as int) == self@);
        Ok(count)
    }

    fn unique_by_keypath<V, K>(&self, keypath: K) -> (result: KeyPathResult<HashSet<V>>) where
        K: KeyPath<T, V>,
        V: Hash + Eq + Clone,
     {
        broadcast use group_hash_axioms;

        let mut values: HashSet<V> = HashSet::new();
        let ghost mut copies: Seq<V> = Seq::empty();
        let mut i: usize = 0;
        while i < self.len()
            invariant
                i <= self@.len(),
                obeys_key_model::<V>(),
                all_present(&keypath, self@.take(i as int)),
                clones_of(fields(&keypath, self@.take(i as int)), copies),
                values@ == copies.to_set(),
            decreases self@.len() - i,
        {
            assert(self@.take(i as int + 1).drop_last() == self@.take(i as int));
            match keypath.get(&self[i]) {
                Some(v) => {
                    let copy = v.clone();
                    proof {
                        let more = copies.push(copy);
                        assert forall|x: V| more.to_set().contains(x) <==> copies.to_set().insert(
                            copy,
                        ).contains(x) by {
                            if more.contains(x) {
                                let j = choose|j: int| 0 <= j < more.len() && more[j] == x;
                                if j < copies.len() {
                                    assert(copies[j] == x);
                                }
                            }
                            if copies.contains(x) {
                                let j = choose|j: int| 0 <= j < copies.len() && copies[j] == x;
                                assert(more[j] == x);
                            }
                            if x == copy {
                                assert(more[copies.len() as int] == x);
                            }
                        }
                        assert(more.to_set() =~= copies.to_set().insert(copy));
                        copies = copies.push(copy);
                    }
                    values.insert(copy);
                },
                None => {
                    return Err(access_failure());
                },
            }
            i += 1;
        }
        assert(self@.take(i as int) == self@);
        Ok(values)
    }

    fn distinct_by_keypath<V, K>(&self, keypath: K) -> (result: KeyPathResult<HashMap<V, usize>>)
        where K: KeyPath<T, V>, V: Hash + Eq + Clone {
        broadcast use group_hash_axioms;

        let mut counts: HashMap<V, usize> = HashMap::new();
        let ghost mut copies: Seq<V> = Seq::empty();
        let mut i: usize = 0;
        while i < self.len()
            invariant
                i <= self@.len(),
                obeys_key_model::<V>(),
                all_present(&keypath, self@.take(i as int)),
                clones_of(fields(&keypath, self@.take(i as int)), copies),
                forall|v: V| #[trigger] counts@.contains_key(v) <==> copies.contains(v),
                forall|v: V|
                    counts@.contains_key(v) ==> #[trigger] counts@[v] == occurrences(copies, v),
            decreases self@.len() - i,
        {
            assert(self@.take(i as int + 1).drop_last() == self@.take(i as int));
            match keypath.get(&self[i]) {
                Some(v) => {
                    let copy = v.clone();
                    let seen = match counts.get(&copy) {
                        Some(n) => *n,
                        None => 0,
                    };
                    proof {
                        lemma_chosen_lengths(copies, has_key(copies, copy));
                        if !counts@.contains_key(copy) {
                            lemma_none_chosen(copies, has_key(copies, copy), true);
                        }
                        assert(seen == occurrences(copies, copy));
                        assert(seen <= copies.len());
                    }
                    let ghost before = counts@;
                    let ghost c = copy;
                    counts.insert(copy, seen + 1);
                    proof {
                        let copies2 = copies.push(c);
                        assert forall|x: V| #[trigger] counts@.contains_key(x) <==> copies2.contains(
                            x,
                        ) by {
                            if copies2.contains(x) {
                                let j = choose|j: int| 0 <= j < copies2.len() && copies2[j] == x;
                                if j < copies.len() {
                                    assert(copies[j] == x);
                                }
                            }
                            if x == c {
                                assert(copies2[copies.len() as int] == x);
                            } else if before.contains_key(x) {
                                let j = choose|j: int| 0 <= j < copies.len() && copies[j] == x;
                                assert(copies2[j] == x);
                            }
                        }
                        assert forall|x: V| counts@.contains_key(x) implies #[trigger] counts@[x]
                            == occurrences(copies2, x) by {
                            assert(has_key(copies2, x) == has_key(copies, x).push(c == x));
                            lemma_chosen_push(copies, has_key(copies, x), c, c == x, true);
                        }
                        copies = copies2;
                    }
                },
                None => {
                    return Err(access_failure());
                },
            }
            i += 1;
        }
        assert(self@.take(i as int) == self@);
        Ok(counts)
    }

    fn zip_with_keypath<U, V1, V2, K1, K2, F, R>(
        &self,
        other: &[U],
        keypath1: K1,
        keypath2: K2,
        f: F,
    ) -> (result: KeyPathResult<Vec<R>>) where
        K1: KeyPath<T, V1>,
        K2: KeyPath<U, V2>,
        F: Fn(&V1, &V2) -> R,
     {
        zip_with_keypath(self.as_slice(), other, keypath1, keypath2, f)
    }

    fn window_by_keypath<V, K, F, R>(&self, keypath: K, window_size: usize, f: F) -> (result:
        KeyPathResult<Vec<R>>) where K: KeyPath<T, V>, V: Clone, F: Fn(&[V]) -> R {
        if window_size == 0 || window_size > self.len() {
            return Err(invalid_window(window_size));
        }
        let mut out: Vec<R> = Vec::new();
        let last = self.len() - window_size;
        let ghost values = fields(&keypath, self@);
        let mut i: usize = 0;
        while i <= last
            invariant
                0 < window_size <= self@.len() <= usize::MAX,
                last == self@.len() - window_size,
                i <= last + 1,
                values == fields(&keypath, self@),
                accepts_windows(&f, window_size as int),
                i > 0 ==> all_present(&keypath, self@.take(i + window_size - 1)),
                out@.len() == i,
                forall|p: int|
                    0 <= p < i ==> aggregates(
                        &f,
                        values.subrange(p, p + window_size),
                        #[trigger] out@[p],
                    ),
            decreases last + 1 - i,
        {
            let mut window: Vec<V> = Vec::new();
            let mut j: usize = 0;
            while j < window_size
                invariant
                    j <= window_size,
                    i + window_size <= self@.len() <= usize::MAX,
                    values == fields(&keypath, self@),
                    i > 0 ==> all_present(&keypath, self@.take(i + window_size - 1)),
                    all_present(&keypath, self@.subrange(i as int, i + j)),
                    clones_of(values.subrange(i as int, i + j), window@),
                decreases window_size - j,
            {
                match keypath.get(&self[i + j]) {
                    Some(v) => {
                        window.push(v.clone());
                    },
                    None => {
                        return Err(access_failure());
                    },
                }
                assert(values.subrange(i as int, i + j + 1) == values.subrange(
                    i as int,
                    i + j,
                ).push(values[i + j]));
                assert(self@.subrange(i as int, i + j + 1).drop_last() == self@.subrange(
                    i as int,
                    i + j,
                ));
                j += 1;
            }
            let handed = window.as_slice();
            let r = f(handed);
            proof {
                assert(clones_of(values.subrange(i as int, i + window_size), handed@)
                    && call_ensures(f, (handed,), r));
                assert forall|p: int| 0 <= p < i + window_size implies present(
                    &keypath,
                    #[trigger] self@.take(i + window_size)[p],
                ) by {
                    if p < i {
                        assert(present(&keypath, self@.take(i + window_size - 1)[p]));
                    } else {
                        assert(present(
                            &keypath,
                            self@.subrange(i as int, i + window_size)[p - i],
                        ));
                    }
                }
            }
            out.push(r);
            i += 1;
        }
        assert(self@.take(self@.len() as int) == self@);
        Ok(out)
    }

    fn rolling_by_keypath<V, K, F, R>(&self, keypath: K, window_size: usize, f: F) -> (result:
        KeyPathResult<Vec<R>>) where K: KeyPath<T, V>, V: Clone, F: Fn(&[V]) -> R {
        if window_size == 0 {
            return Err(empty_window());
        }
        let mut out: Vec<R> = Vec::new();
        let mut window: Vec<V> = Vec::new();
        let mut i: usize = 0;
        while i < self.len()
            invariant
                0 < window_size,
                i <= self@.len(),
                accepts_windows(&f, window_size as int),
                all_present(&keypath, self@.take(i as int)),
                window@.len() == if i < window_size {
                    i as int
                } else {
                    window_size - 1
                },
                clones_of(
                    fields(&keypath, self@).subrange(i - window@.len(), i as int),
                    window@,
                ),
                windows_to(
                    &f,
                    fields(&keypath, self@).take(i as int),
                    window_size as int,
                    out@,
                ),
            decreases self@.len() - i,
        {
            assert(self@.take(i as int + 1).drop_last() == self@.take(i as int));
            let ghost values = fields(&keypath, self@);
            let ghost start = i - window@.len();
            match keypath.get(&self[i]) {
                Some(v) => {
                    window.push(v.clone());
                },
                None => {
                    return Err(access_failure());
                },
            }
            assert(values.subrange(start, i + 1) == values.subrange(start, i as int).push(
                values[i as int],
            ));
            assert(clones_of(values.subrange(start, i + 1), window@));
            if window.len() == window_size {
                let handed = window.as_slice();
                let r = f(handed);
                proof {
                    assert(clones_of(values.subrange(start, start + window_size), handed@)
                        && call_ensures(f, (handed,), r));
                    assert forall|p: int| 0 <= p < out@.len() implies aggregates(
                        &f,
                        values.take(i + 1).subrange(p, p + window_size),
                        #[trigger] out@[p],
                    ) by {
                        assert(values.take(i + 1).subrange(p, p + window_size) == values.take(
                            i as int,
                        ).subrange(p, p + window_size));
                    }
                    assert(values.take(i + 1).subrange(start, start + window_size)
                        == values.subrange(start, start + window_size));
                }
                out.push(r);
                let _ = window.remove(0);
                assert(values.subrange(start + 1, i + 1) == values.subrange(start, i + 1).remove(0));
            } else {
                assert(out@.len() == 0);
            }
            i += 1;
        }
        assert(self@.take(i as int) == self@);
        assert(fields(&keypath, self@).take(i as int) == fields(&keypath, self@));
        Ok(out)
    }
}

/// What a comparison by field returns on two items: an answer of `compare`
/// on their fields, or the access failure where either field is absent.
pub open spec fn compares_fields<T, V, K: KeyPath<T, V>, F: Fn(&V, &V) -> Ordering>(
    keypath: &K,
    compare: &F,
    a: T,
    b: T,
    result: KeyPathResult<Ordering>,
) -> bool {
    &&& result is Ok <==> present(keypath, a) && present(keypath, b)
    &&& result matches Ok(o) ==> compares(
        compare,
        field(keypath, a),
        field(keypath, b),
        o,
    )
    &&& result matches Err(e) ==> e@ == access_failed()
}

/// What a test by field returns on two items: an answer of `equality` on
/// their fields, or the access failure where either field is absent.
pub open spec fn equates_fields<T, V, K: KeyPath<T, V>, E: Fn(&V, &V) -> bool>(
    keypath: &K,
    equality: &E,
    a: T,
    b: T,
    result: KeyPathResult<bool>,
) -> bool {
    &&& result is Ok <==> present(keypath, a) && present(keypath, b)
    &&& result matches Ok(same) ==> answers(
        equality,
        field(keypath, a),
        field(keypath, b),
        same,
    )
    &&& result matches Err(e) ==> e@ == access_failed()
}

/// Binds an accessor and a comparison of fields into a comparison of items.
///
/// The comparison may be called on any two items and returns what
/// `compares_fields` says.
pub fn create_keypath_comparator<T, V, K, F>(keypath: K, compare: F) -> (comparator: impl Fn(
    &T,
    &T,
) -> KeyPathResult<Ordering>) where K: KeyPath<T, V>, F: Fn(&V, &V) -> Ordering
    requires
        forall|a: V, b: V| #[trigger] may_compare(&compare, a, b),
    ensures
        forall|a: T, b: T| #[trigger] call_requires(comparator, (&a, &b)),
        forall|a: T, b: T, result: KeyPathResult<Ordering>| #[trigger]
            call_ensures(comparator, (&a, &b), result) ==> compares_fields(
                &keypath,
                &compare,
                a,
                b,
                result,
            ),
{
    move |a: &T, b: &T| -> (result: KeyPathResult<Ordering>)
        ensures
            compares_fields(&keypath, &compare, *a, *b, result),
        {
            let x = match keypath.get(a) {
                Some(x) => x,
                None => {
                    return Err(access_failure());
                },
            };
            let y = match keypath.get(b) {
                Some(y) => y,
                None => {
                    return Err(access_failure());
                },
            };
            assert(may_compare(&compare, *x, *y));
            Ok(compare(x, y))
        }
}

/// Binds an accessor and a hash of fields into a hash of items.
///
/// The hash may be called on every item and returns a result of `hasher` on
/// its field, or the access failure where the field is absent.
pub fn create_keypath_hasher<T, V, K, H>(keypath: K, hasher: H) -> (hash: impl Fn(
    &T,
) -> KeyPathResult<u64>) where K: KeyPath<T, V>, H: Fn(&V) -> u64
    requires
        forall|v: V| #[trigger] accepts(&hasher, v),
    ensures
        forall|item: T| #[trigger] call_requires(hash, (&item,)),
        forall|item: T, result: KeyPathResult<u64>| #[trigger]
            call_ensures(hash, (&item,), result) ==> operates(
                &keypath,
                &hasher,
                item,
                result,
            ),
{
    move |item: &T| -> (result: KeyPathResult<u64>)
        ensures
            operates(&keypath, &hasher, *item, result),
        { apply_keypath_operation(&keypath, &hasher, item) }
}

/// Binds an accessor and a test of two fields into a test of two items.
///
/// The test may be called on any two items and returns what `equates_fields` says.
pub fn create_keypath_equality<T, V, K, E>(keypath: K, equality: E) -> (test: impl Fn(
    &T,
    &T,
) -> KeyPathResult<bool>) where K: KeyPath<T, V>, E: Fn(&V, &V) -> bool
    requires
        forall|a: V, b: V| #[trigger] call_requires(equality, (&a, &b)),
    ensures
        forall|a: T, b: T| #[trigger] call_requires(test, (&a, &b)),
        forall|a: T, b: T, result: KeyPathResult<bool>| #[trigger]
            call_ensures(test, (&a, &b), result) ==> equates_fields(
                &keypath,
                &equality,
                a,
                b,
                result,
            ),
{
    move |a: &T, b: &T| -> (result: KeyPathResult<bool>)
        ensures
            equates_fields(&keypath, &equality, *a, *b, result),
        {
            let x = match keypath.get(a) {
                Some(x) => x,
                None => {
                    return Err(access_failure());
                },
            };
            let y = match keypath.get(b) {
                Some(y) => y,
                None => {
                    return Err(access_failure());
                },
            };
            assert(call_requires(equality, (&*x, &*y)));
            Ok(equality(x, y))
        }
}

} // verus!
