//! Sinks of record batches.

use vstd::prelude::*;

pub mod lance;
pub mod lance_index;
pub mod laws;

pub use lance::{LanceWriter, WriteMode, WriteOptions};
pub use lance_index::LanceIndexPlan;

verus! {

/// What a finished write comes to.
#[derive(Clone, Copy, Debug, PartialEq, Eq, Structural)]
pub struct WriteSummary {
    pub rows_written: u64,
}

}
