//! The names most callers need, in one place.

pub use crate::collections::KeyPathsCollectionExt;
pub use crate::composable::{
    chain_keypath_ops, pipe, unless_keypath, when_keypath, KeyPathsChain,
};
pub use crate::error::{IntoKeyPathError, KeyPathError, KeyPathResult};
pub use crate::higher_order::{
    collect_keypath, filter_by_keypath, find_by_keypath, fold_keypath, group_by_keypath,
    map_keypath, map_keypath_collection, partition_by_keypath, sort_by_keypath, zip_with_keypath,
};
pub use crate::keypath::{compose, Composed, Identity, KeyPath, WritableKeyPath};
pub use crate::traits::KeyPathsOperable;
