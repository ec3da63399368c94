//! Sources of record batches.

use vstd::prelude::*;

use crate::error::{Error, Result};
use crate::error_struct::at;

pub mod columns;
pub mod huggingface;
pub mod huggingface_laws;
pub mod index_laws;
pub mod indexed_rows;
pub mod parquet;
pub mod warc;
pub mod warc_batch;
pub mod warc_bytes;
pub mod warc_index;
pub mod warc_laws;
pub mod warc_record;
pub mod warc_stream;
pub mod work_units;

pub use huggingface::HuggingFaceSource;
pub use warc::{warc_schema, WarcSource};

verus! {

pub const DEFAULT_MAX_READ_PARALLELISM: usize = 8;

/// How many bytes a source has read, and how many there are.
#[derive(Clone, Copy, Debug, PartialEq, Eq, Structural)]
pub struct ReadMetricsSnapshot {
    pub bytes_read: u64,
    pub total_bytes: u64,
}

/// Counts the bytes that a source reads.
#[derive(Debug)]
pub struct ReadMetrics {
    bytes_read: u64,
    total_bytes: u64,
}

impl View for ReadMetrics {
    type V = ReadMetricsSnapshot;

    closed spec fn view(&self) -> ReadMetricsSnapshot {
        ReadMetricsSnapshot { bytes_read: self.bytes_read, total_bytes: self.total_bytes }
    }
}

impl Default for ReadMetrics {
    fn default() -> (metrics: Self)
        ensures
            metrics@ == (ReadMetricsSnapshot { bytes_read: 0, total_bytes: 0 }),
    {
        ReadMetrics { bytes_read: 0, total_bytes: 0 }
    }
}

impl ReadMetrics {
    /// Adds to the bytes read. The count starts over when it is full.
    pub fn add_bytes_read(&mut self, bytes: usize)
        ensures
            final(self)@ == (ReadMetricsSnapshot {
                bytes_read: old(self)@.bytes_read.wrapping_add(bytes as u64),
                ..old(self)@
            }),
    {
        self.bytes_read = self.bytes_read.wrapping_add(bytes as u64);
    }

    pub fn set_total_bytes(&mut self, bytes: u64)
        ensures
            final(self)@ == (ReadMetricsSnapshot { total_bytes: bytes, ..old(self)@ }),
    {
        self.total_bytes = bytes;
    }

    pub fn snapshot(&self) -> (snapshot: ReadMetricsSnapshot)
        ensures
            snapshot == self@,
    {
        ReadMetricsSnapshot { bytes_read: self.bytes_read, total_bytes: self.total_bytes }
    }
}

/// How many bytes a read has added to a buffer that held `before`.
pub fn bytes_filled(before: usize, after: usize) -> (filled: usize)
    ensures
        filled == if after >= before {
            after - before
        } else {
            0
        },
{
    if after >= before {
        after - before
    } else {
        0
    }
}

/// How a source reads.
#[derive(Clone, Copy, Debug, PartialEq, Eq, Structural)]
pub struct SourceReadOptions {
    pub max_read_parallelism: usize,
}

impl Default for SourceReadOptions {
    fn default() -> (options: Self)
        ensures
            options.max_read_parallelism == DEFAULT_MAX_READ_PARALLELISM,
    {
        SourceReadOptions { max_read_parallelism: DEFAULT_MAX_READ_PARALLELISM }
    }
}

impl SourceReadOptions {
    /// Checks that something can be read at all.
    pub fn validate(self) -> (valid: Result<Self>)
        ensures
            match valid {
                Ok(valid) => self.max_read_parallelism > 0 && valid == self,
                Err(error) => self.max_read_parallelism == 0 && error@
                    == crate::error::internal_error("max_read_parallelism must be positive"@),
            },
    {
        if self.max_read_parallelism == 0 {
            return Err(Error::message(
                "max_read_parallelism must be positive".to_owned(),
                at("src/source.rs", 130, 24),
            ));
        }
        Ok(self)
    }
}

/// How many of `count` reads run at once: at least one, at most
/// `max_read_parallelism`.
pub open spec fn parallelism_for(count: nat, max_read_parallelism: nat) -> nat {
    let few = if count < max_read_parallelism {
        count
    } else {
        max_read_parallelism
    };
    if few == 0 {
        1
    } else {
        few
    }
}

/// How many of `count` reads run at once.
pub fn read_parallelism(count: usize, max_read_parallelism: usize) -> (parallelism: usize)
    ensures
        parallelism == parallelism_for(count as nat, max_read_parallelism as nat),
{
    let few: usize = if count < max_read_parallelism {
        count
    } else {
        max_read_parallelism
    };
    if few == 0 {
        1
    } else {
        few
    }
}

/// Reads are never more at once than `max_read_parallelism` allows, nor more
/// than there are, and never fewer than both.
pub proof fn law_parallelism_is_capped(count: nat, max_read_parallelism: nat)
    requires
        max_read_parallelism > 0,
    ensures
        1 <= parallelism_for(count, max_read_parallelism) <= max_read_parallelism,
        count > 0 ==> parallelism_for(count, max_read_parallelism) <= count,
        0 < count <= max_read_parallelism ==> parallelism_for(count, max_read_parallelism) == count,
        count >= max_read_parallelism ==> parallelism_for(count, max_read_parallelism)
            == max_read_parallelism,
        count == 0 ==> parallelism_for(count, max_read_parallelism) == 1,
{
}

}
