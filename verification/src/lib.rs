//! Enumeration of a directory tree under a configurable inclusion policy.
//!
//! The library works on an in-memory snapshot of a directory subtree
//! ([`tree::FsNode`]) and produces a deterministic, ordered list of relative
//! path strings, governed by a [`policy::ScanPolicy`]: five boolean inclusion
//! flags plus a caller-chosen separator token. The traversal is depth-first;
//! a directory's descendants appear immediately after the directory's own
//! entry, before the next sibling.
//!
//! Reading the snapshot out of a real filesystem is left to the embedding
//! program: it is plain I/O, and everything the library decides about an
//! entry depends only on the entry's name and kind, both of which the
//! snapshot carries.

pub mod laws;
pub mod policy;
pub mod scan;
pub mod tree;
