//! The operations on the values of a map: the keys stay, the values are
//! mapped or filtered through an accessor.

pub mod hash_map;
pub mod btree_map;

use vstd::prelude::*;
use crate::keypath::KeyPath;
use crate::model::{accepts, field, present, yields};

verus! {

/// A clone of a key is the key.
pub open spec fn clones_exactly<K: Clone>() -> bool {
    forall|a: K, b: K| #[trigger] cloned(a, b) ==> a == b
}

/// Every value of the map has its field.
pub open spec fn all_values_present<K, V, T, P: KeyPath<V, T>>(keypath: &P, map: Map<K, V>) -> bool {
    forall|k: K| #[trigger] map.contains_key(k) ==> present(keypath, map[k])
}

/// `f` may be called on the field of every value that has it.
pub open spec fn accepts_values<K, V, T, P: KeyPath<V, T>, R, F: Fn(&T) -> R>(
    f: &F,
    keypath: &P,
    map: Map<K, V>,
) -> bool {
    forall|k: K|
        #[trigger] map.contains_key(k) && present(keypath, map[k]) ==> accepts(
            f,
            field(keypath, map[k]),
        )
}

/// `out` has the keys of `map`, each with a result of `f` on the field of its value.
pub open spec fn values_mapped<K, V, T, P: KeyPath<V, T>, R, F: Fn(&T) -> R>(
    keypath: &P,
    f: &F,
    map: Map<K, V>,
    out: Map<K, R>,
) -> bool {
    &&& out.dom() == map.dom()
    &&& forall|k: K| #[trigger] map.contains_key(k) ==> yields(f, field(keypath, map[k]), out[k])
}

/// `out` has the keys of `map` whose verdict is `true`, each with a clone of
/// its value; the verdict of a key is a result of `predicate` on the field of
/// its value.
pub open spec fn values_filtered<K, V: Clone, T, P: KeyPath<V, T>, F: Fn(&T) -> bool>(
    keypath: &P,
    predicate: &F,
    map: Map<K, V>,
    verdicts: Map<K, bool>,
    out: Map<K, V>,
) -> bool {
    &&& verdicts.dom() == map.dom()
    &&& forall|k: K|
        #[trigger] map.contains_key(k) ==> yields(predicate, field(keypath, map[k]), verdicts[k])
    &&& forall|k: K| #[trigger] out.contains_key(k) <==> map.contains_key(k) && verdicts[k]
    &&& forall|k: K| #[trigger] out.contains_key(k) ==> cloned(map[k], out[k])
}

} // verus!
