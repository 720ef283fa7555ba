//! What the cache asks of the file system and the clock, and what it is told back.
//!
//! The cache never touches the outside itself. It names an [`Action`], the caller
//! carries it out, and the caller's answer decides the next one.

use vstd::prelude::*;

verus! {

/// What sets one directory under construction apart from all others.
#[derive(Debug, Clone, Copy, PartialEq, Eq, Structural)]
pub struct Tmp {
    /// The process that builds it.
    pub pid: u32,
    /// The suffix that the process took for it.
    pub suffix: u64,
}

/// A path of the cache. `base` counts the candidate directories of the cache.
#[derive(Debug, Clone, Copy, PartialEq, Eq, Structural)]
pub enum Place {
    /// The candidate directory itself.
    Base { base: usize },
    /// The published directory of this version.
    Target { base: usize },
    /// The file that marks the published directory as complete.
    Sentinel { base: usize },
    /// The directory that this version is built in.
    Tmp { base: usize, tmp: Tmp },
    /// An entry of the candidate directory, by its position in the listing.
    Sibling { base: usize, at: usize },
}

/// One thing to do outside the library.
#[derive(Debug, Clone, Copy, PartialEq, Eq, Structural)]
pub enum Action {
    /// Find the user's cache directory and the system's temporary directory.
    Locate,
    /// Ask whether there is a regular file.
    ProbeFile { place: Place },
    /// Create a directory and its missing parents.
    CreateDirs { place: Place },
    /// Read the process id and the clock, and take the next tick.
    TakeStamp,
    /// Remove a directory with all it holds. Failing is no error.
    RemoveTree { place: Place },
    /// Unpack the embedded runtime into a directory.
    Unpack { place: Place },
    /// Rename a directory.
    Rename { from: Place, to: Place },
    /// List a directory and read the clock.
    List { place: Place },
    /// Ask for the kind and age of an entry, without following a symbolic link.
    Describe { place: Place },
}

/// A moment of one process.
#[derive(Debug, Clone, Copy, PartialEq, Eq, Structural)]
pub struct Stamp {
    pub pid: u32,
    /// Nanoseconds since the epoch, `None` for a clock that stands before it.
    pub clock: Option<u128>,
    /// A count that the process raises with every stamp.
    pub tick: u64,
}

/// What is known of a directory entry.
#[derive(Debug, Clone, Copy, PartialEq, Eq, Structural)]
pub struct EntryMeta {
    pub is_dir: bool,
    /// When it was last modified, in nanoseconds from the epoch, where the
    /// platform tells.
    pub modified: Option<i128>,
}

/// An answer to an action.
#[derive(Debug, Clone, Copy, PartialEq, Eq, Structural)]
pub enum Reply {
    /// Whether the action succeeded, or what a probe found.
    Answer { yes: bool },
    /// The stamp that was taken.
    Stamped { stamp: Stamp },
    /// The time of the listing in nanoseconds from the epoch, `None` where the
    /// directory could not be listed.
    Listed { now: Option<i128> },
    /// What is known of the entry, `None` where it could not be described.
    Described { meta: Option<EntryMeta> },
}

} // verus!
