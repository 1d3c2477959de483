//! A container based on a sparse set: it stores values and hands out a key for each of them.

pub mod effects;
pub mod history;
pub mod iter;
pub mod laws;
pub mod model;
mod sparse_entry;
mod sparse_key;
mod sparse_set;
mod storage;

pub use iter::{KeyValues, Keys, Values, ValuesMut};
pub use sparse_key::SparseKey;
pub use sparse_set::SparseSet;
