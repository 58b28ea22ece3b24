//! What one pass over the asset directory found, as plain values.
//!
//! The program around this library walks the directory once: it lists the root,
//! and lists each sub-directory of the root one level deep. It records here what
//! it met, failures included, and decides nothing. Which of it makes up the index
//! is decided in [`crate::utils::indexed_images`].

use vstd::prelude::*;

verus! {

/// One entry of a category directory.
#[derive(Debug)]
pub enum FileScan {
    /// The entry could not be read.
    Unreadable,
    /// A regular file, by its base name with the extension, in its own spelling.
    File(String),
    /// A nested directory, or anything else that is not a regular file.
    Other,
}

/// What listing a sub-directory of the root gave.
#[derive(Debug)]
pub enum DirScan {
    /// The directory could not be listed.
    Failed,
    /// Its entries, in the order in which the file system gave them.
    Listed(Vec<FileScan>),
}

/// One entry of the root directory.
#[derive(Debug)]
pub enum RootEntry {
    /// The entry could not be read.
    Unreadable,
    /// A sub-directory, by its base name, and what listing it gave.
    Directory { name: String, listing: DirScan },
    /// A file at the root, or anything else that is not a directory.
    Other,
}

/// What looking at the root directory gave.
#[derive(Debug)]
pub enum RootScan {
    /// Nothing exists at the root path.
    Missing,
    /// The root path names something that is not a directory.
    NotADirectory,
    /// The root directory could not be listed.
    Failed,
    /// Its entries, in the order in which the file system gave them.
    Listed(Vec<RootEntry>),
}

} // verus!
