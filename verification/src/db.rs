//! The id conversions between Discord and SQLite, under the path of the
//! database helpers.

pub use crate::database::{from_i64, to_i64};
