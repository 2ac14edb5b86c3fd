//! The directory-merge engine.
//!
//! Merging moves the contents of a source tree into a destination tree. The
//! engine never touches the file system itself. It is a pair of state
//! machines that say which operation comes next and take the operation's
//! result as their next input: `entry` settles one directory entry, `engine`
//! walks the tree breadth-first and decides when a drained source directory
//! is removed.
//!
//! `laws` states what holds of every step of the machines, whatever they
//! are answered. `model` describes a file system that answers them, so that
//! a merge can be followed to its end, and states what a merge does to it
//! where source or destination is missing or the source is drained. On that
//! file system `frame` shows that a merge changes nothing outside its two
//! trees and makes up nothing, `keeping` that only `Replace` ever writes
//! over what the destination holds, `lossless` that a merge under a `Skip`
//! default loses nothing, `idempotence` that a merge that has succeeded
//! under another default leaves nothing to merge, `rest` that a merge of
//! trees in which only skipped files are left moves nothing, `settling`
//! that every merge that has succeeded leaves the trees so, and
//! `collisions` what becomes of files whose names are taken.

use vstd::prelude::*;

pub mod collisions;
pub mod engine;
pub mod entry;
pub mod frame;
pub mod idempotence;
pub mod keeping;
pub mod laws;
pub mod lossless;
pub mod model;
pub mod rest;
pub mod settling;

verus! {

/// What a path turned out to be when it was looked at.
#[derive(Debug, Clone, Copy, PartialEq, Eq, Structural)]
pub enum EntryKind {
    /// Nothing is there.
    Missing,
    /// A regular file.
    File,
    /// A directory.
    Dir,
    /// Something else (a device, a socket).
    Other,
}

/// Why an entry, or a whole merge, failed.
#[derive(Debug, Clone, Copy, PartialEq, Eq, Structural)]
pub enum MergeError {
    /// A file-system operation failed; the number is the system's error
    /// code, or 0 where it gave none.
    Io(i32),
    /// The destination of the merge exists and is not a directory.
    DestNotDirectory,
    /// Source and destination of an entry exist with different kinds.
    TypeConflict,
    /// A source entry was gone when its turn came.
    SourceVanished,
    /// Every numbered name was taken by a different file.
    TooManyDuplicates,
    /// A machine was given an answer to a question it had not asked.
    UnexpectedEvent,
}

} // verus!
