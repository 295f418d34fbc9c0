//! The operations on the values of an ordered map.

use vstd::prelude::*;
use vstd::laws_cmp::obeys_cmp;
use vstd::std_specs::btree::*;
use vstd::std_specs::iter::IteratorSpec;
use std::collections::BTreeMap;
use crate::error::{access_failed, access_failure, KeyPathResult};
use crate::keypath::KeyPath;
use crate::model::{field, present, yields};
use crate::specialized::{
    accepts_values, all_values_present, clones_exactly, values_filtered, values_mapped,
};

verus! {

/// Operations on the values of an ordered map.
pub trait KeyPathsBTreeMapExt<K, V>: View<V = Map<K, V>> {
    /// Replaces every value by `f` of its field, under the same key.
    ///
    /// `Ok` exactly when every value has its field.
    fn map_values_keypath<T, P, F, R>(&self, keypath: P, f: F) -> (result: KeyPathResult<
        BTreeMap<K, R>,
    >) where K: Clone + Ord, P: KeyPath<V, T>, F: Fn(&T) -> R
        requires
            obeys_cmp::<K>(),
            clones_exactly::<K>(),
            accepts_values(&f, &keypath, self@),
        ensures
            result is Ok <==> all_values_present(&keypath, self@),
            result matches Ok(out) ==> values_mapped(&keypath, &f, self@, out@),
            result matches Err(e) ==> e@ == access_failed(),
    ;

    /// Keeps the entries on whose value's field `predicate` answers `true`.
    ///
    /// `Ok` exactly when every value has its field.
    fn filter_values_keypath<T, P, F>(&self, keypath: P, predicate: F) -> (result: KeyPathResult<
        BTreeMap<K, V>,
    >) where K: Clone + Ord, V: Clone, P: KeyPath<V, T>, F: Fn(&T) -> bool
        requires
            obeys_cmp::<K>(),
            clones_exactly::<K>(),
            accepts_values(&predicate, &keypath, self@),
        ensures
            result is Ok <==> all_values_present(&keypath, self@),
            result matches Ok(out) ==> exists|verdicts: Map<K, bool>| #[trigger]
                values_filtered(&keypath, &predicate, self@, verdicts, out@),
            result matches Err(e) ==> e@ == access_failed(),
    ;
}

impl<K, V> KeyPathsBTreeMapExt<K, V> for BTreeMap<K, V> {
    fn map_values_keypath<T, P, F, R>(&self, keypath: P, f: F) -> (result: KeyPathResult<
        BTreeMap<K, R>,
    >) where K: Clone + Ord, P: KeyPath<V, T>, F: Fn(&T) -> R {
        broadcast use group_btree_axioms;

        let mut out: BTreeMap<K, R> = BTreeMap::new();
        let ghost pairs = self.iter().remaining();
        for pair in it: self.iter()
            invariant
                obeys_cmp::<K>(),
                clones_exactly::<K>(),
                accepts_values(&f, &keypath, self@),
                it.seq() == pairs,
                pairs == self.iter().remaining(),
                forall|k: K| #[trigger]
                    out@.contains_key(k) <==> exists|j: int|
                        0 <= j < it.index() && *(#[trigger] pairs[j]).0 == k,
                forall|j: int|
                    0 <= j < it.index() ==> present(&keypath, *(#[trigger] pairs[j]).1) && yields(
                        &f,
                        field(&keypath, *pairs[j].1),
                        out@[*pairs[j].0],
                    ),
        {
            let ghost n = it.index();
            let (key, value) = pair;
            assert(pair == pairs[n]);
            assert(self@.contains_key(*pairs[n].0) && self@[*pairs[n].0] == *pairs[n].1);
            let r = match keypath.get(value) {
                Some(v) => f(v),
                None => {
                    return Err(access_failure());
                },
            };
            let ghost before = out@;
            let same_key = key.clone();
            assert(cloned(*key, same_key));
            out.insert(same_key, r);
            proof {
                assert(out@ == before.insert(*key, r));
                assert forall|k: K| #[trigger] out@.contains_key(k) <==> exists|j: int|
                    0 <= j < n + 1 && *(#[trigger] pairs[j]).0 == k by {
                    if before.contains_key(k) {
                        let j = choose|j: int| 0 <= j < n && *(#[trigger] pairs[j]).0 == k;
                        assert(*pairs[j].0 == k);
                    }
                    if k == *key {
                        assert(*pairs[n].0 == k);
                    }
                }
                assert forall|j: int| 0 <= j < n + 1 implies present(
                    &keypath,
                    *(#[trigger] pairs[j]).1,
                ) && yields(&f, field(&keypath, *pairs[j].1), out@[*pairs[j].0]) by {
                    if j < n {
                        assert(self@.contains_key(*pairs[j].0) && self@[*pairs[j].0] == *pairs[j].1);
                        if *pairs[j].0 == *key {
                            assert(pairs[j] == pairs[n]);
                        }
                    }
                }
            }
        }
        proof {
            assert forall|k: K| #[trigger] self@.contains_key(k) implies present(
                &keypath,
                self@[k],
            ) && out@.contains_key(k) && yields(&f, field(&keypath, self@[k]), out@[k]) by {
                assert(pairs.contains((&k, &self@[k])));
                let j = choose|j: int| 0 <= j < pairs.len() && pairs[j] == (&k, &self@[k]);
                assert(*pairs[j].0 == k);
            }
            assert forall|k: K| #[trigger] out@.contains_key(k) implies self@.contains_key(k) by {
                let j = choose|j: int| 0 <= j < pairs.len() && *(#[trigger] pairs[j]).0 == k;
                assert(self@.contains_key(*pairs[j].0));
            }
            assert(out@.dom() =~= self@.dom());
        }
        Ok(out)
    }

    fn filter_values_keypath<T, P, F>(&self, keypath: P, predicate: F) -> (result: KeyPathResult<
        BTreeMap<K, V>,
    >) where K: Clone + Ord, V: Clone, P: KeyPath<V, T>, F: Fn(&T) -> bool {
        broadcast use group_btree_axioms;

        let mut out: BTreeMap<K, V> = BTreeMap::new();
        let entries = self.iter();
        let ghost pairs = entries.remaining();
        let ghost mut verdicts: Map<K, bool> = Map::empty();
        for pair in it: entries
            invariant
                obeys_cmp::<K>(),
                clones_exactly::<K>(),
                accepts_values(&predicate, &keypath, self@),
                it.seq() == pairs,
                pairs == self.iter().remaining(),
                pairs.no_duplicates(),
                forall|k: K| #[trigger]
                    verdicts.contains_key(k) <==> exists|j: int|
                        0 <= j < it.index() && *(#[trigger] pairs[j]).0 == k,
                forall|k: K| #[trigger]
                    verdicts.contains_key(k) ==> self@.contains_key(k) && present(
                        &keypath,
                        self@[k],
                    ) && yields(&predicate, field(&keypath, self@[k]), verdicts[k]),
                forall|k: K| #[trigger] out@.contains_key(k) <==> verdicts.contains_key(k) && verdicts[k],
                forall|k: K| #[trigger] out@.contains_key(k) ==> cloned(self@[k], out@[k]),
        {
            let ghost n = it.index();
            let (key, value) = pair;
            assert(pair == pairs[n]);
            assert(self@.contains_key(*pairs[n].0) && self@[*pairs[n].0] == *pairs[n].1);
            let keep = match keypath.get(value) {
                Some(v) => predicate(v),
                None => {
                    return Err(access_failure());
                },
            };
            let ghost before = verdicts;
            proof {
                if before.contains_key(*key) {
                    let j = choose|j: int| 0 <= j < n && *(#[trigger] pairs[j]).0 == *key;
                    assert(self@.contains_key(*pairs[j].0) && self@[*pairs[j].0] == *pairs[j].1);
                    assert(pairs[j] == pairs[n]);
                    assert(false);
                }
                verdicts = verdicts.insert(*key, keep);
            }
            if keep {
                let same_key = key.clone();
                assert(cloned(*key, same_key));
                let copy = value.clone();
                assert(cloned(*value, copy));
                out.insert(same_key, copy);
            }
            proof {
                assert forall|k: K| #[trigger] verdicts.contains_key(k) <==> exists|j: int|
                    0 <= j < n + 1 && *(#[trigger] pairs[j]).0 == k by {
                    if before.contains_key(k) {
                        let j = choose|j: int| 0 <= j < n && *(#[trigger] pairs[j]).0 == k;
                        assert(*pairs[j].0 == k);
                    }
                    if k == *key {
                        assert(*pairs[n].0 == k);
                    }
                }
            }
        }
        proof {
            assert forall|k: K| #[trigger] self@.contains_key(k) implies verdicts.contains_key(k) by {
                assert(pairs.contains((&k, &self@[k])));
                let j = choose|j: int| 0 <= j < pairs.len() && pairs[j] == (&k, &self@[k]);
                assert(*pairs[j].0 == k);
            }
            assert(verdicts.dom() =~= self@.dom());
        }
        let result: KeyPathResult<BTreeMap<K, V>> = Ok(out);
        assert(values_filtered(&keypath, &predicate, self@, verdicts, result->Ok_0@));
        result
    }
}

} // verus!
