//! Reports, per compression algorithm, how many bytes of physical storage
//! are consumed by file data on a copy-on-write filesystem versus how many
//! logical bytes are referenced, deduplicating physical extents that are
//! shared between files.
//!
//! The crate holds the verified core: the byte-level decoder for the kernel
//! tree-search protocol, the cursor logic that resumes a truncated search,
//! the per-file statistics accumulator with its shared-extent registry, and
//! the mergeable `Statistic` aggregate. Opening files, issuing the ioctl and
//! rendering the final table are left to the surrounding binary.

pub mod btrfs;
pub mod bytes;
pub mod stats;
pub mod walk;
