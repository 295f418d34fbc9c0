//! Typed, composable field accessors ("keypaths") and the collection
//! operations built on them: map, filter, find, fold, partition, group, sort,
//! zip, window and rolling, each with a machine-checked contract.
//!
//! An accessor ([`keypath`]) reads a field that may be absent. The operations
//! come as free functions ([`higher_order`]), as methods of a borrowed vector
//! ([`collections`]) or of a map ([`specialized`]), and in a chain
//! ([`composable`]). They run in one of three ways: one item after another,
//! on a pool of workers ([`parallel`]), or one step per item as items arrive
//! ([`incremental`]); the last two are built from the per-item half and the
//! merges of [`engine`], and [`strategy`] lets the caller choose among the
//! three at run time. What a contract says is written in the vocabulary of
//! [`model`], and what holds across operations and strategies is in [`laws`].

pub mod error;
pub mod keypath;
pub mod model;
pub mod sorting;
pub mod merging;
pub mod higher_order;
pub mod composable;
pub mod collections;
pub mod specialized;
pub mod engine;
pub mod parallel;
pub mod incremental;
pub mod strategy;
pub mod laws;
pub mod traits;
pub mod examples;
pub mod prelude;
