//! A hash map whose entries can be read while they are written.

pub mod borrowed;
pub mod call_laws;
pub mod capacity;
pub mod entry;
pub mod guard;
pub mod hash_metadata;
pub mod hasher;
pub mod invariants;
pub mod laws;
pub mod map;
pub mod probe;
pub mod state;
pub mod table;
pub mod table_laws;

pub use guard::{ReadGuard, WriteGuard};
pub use map::{JanusMap, TryInsertError};
pub use table::{DentTable, InsertNew, InsertReplace, InsertResult, RawTable};
