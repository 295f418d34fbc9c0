//! The operations at work on a small set of records.

pub mod data;
pub mod sample;
pub mod text;
pub mod picking;
pub mod basic;
pub mod advanced;
pub mod composable;
pub mod performance;
pub mod error_handling;
