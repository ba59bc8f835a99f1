//! Grouping files into symlink directories by creation-time clusters.
//!
//! A run of the tool lists the files of one directory, reads each file's
//! creation timestamp, hands the timestamps to a density-based clustering
//! engine, groups the files by the cluster each was assigned to, and
//! materializes the groups as a tree of symlinks — optionally also as tags
//! on the original files.
//!
//! This crate holds the verified heart of that pipeline: everything that is
//! a function from plain values to plain values. [`features`] keeps the
//! files whose timestamp could be read, aligned with their timestamps;
//! [`cluster`] groups the classified files into the cluster mapping;
//! [`plan`] turns the mapping into the exact symlink tree and tag list to
//! create. Listing directories, reading metadata, running the clustering
//! engine (whose interface is floating point) and carrying the plans out are
//! thin unverified shells around these functions.

pub mod digits;
pub mod paths;
pub mod cluster;
pub mod features;
pub mod plan;

use vstd::prelude::*;

verus! {

/// A file-creation timestamp, in whole seconds since the Unix epoch.
pub type TimeSec = u64;

} // verus!
