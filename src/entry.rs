//! What the walk found: entries, their kinds and their timestamps.

use vstd::prelude::*;

verus! {

/// The type of a filesystem object, as the walk saw it.
#[derive(Clone, Copy, Debug, PartialEq, Eq, Structural)]
pub enum FileKind {
    File,
    Dir,
    Symlink,
    Other,
    Unknown,
}

/// A filesystem object that the walk reached.
#[derive(Debug)]
pub struct Entry {
    /// The path as the walk produced it: the walk's root, then the names
    /// below it, joined by separators.
    pub path: Vec<u8>,
    pub kind: FileKind,
    /// The number of steps below the walk's root; the root is at 0.
    pub depth: usize,
}

/// The mathematical value of an `Entry`.
pub struct EntryView {
    pub path: Seq<u8>,
    pub kind: FileKind,
    pub depth: usize,
}

impl View for Entry {
    type V = EntryView;

    open spec fn view(&self) -> EntryView {
        EntryView { path: self.path@, kind: self.kind, depth: self.depth }
    }
}

impl Entry {
    pub fn new(path: Vec<u8>, kind: FileKind, depth: usize) -> (r: Entry)
        ensures
            r@ == (EntryView { path: path@, kind, depth }),
    {
        Entry { path, kind, depth }
    }

    pub fn is_dir(&self) -> (r: bool)
        ensures
            r == (self.kind == FileKind::Dir),
    {
        self.kind == FileKind::Dir
    }
}

/// An entry with the time it is ordered by, in nanoseconds since the Unix
/// epoch.
#[derive(Debug)]
pub struct TimedEntry {
    pub entry: Entry,
    pub timestamp: u128,
}

/// The mathematical value of a `TimedEntry`.
pub struct TimedEntryView {
    pub entry: EntryView,
    pub timestamp: u128,
}

impl View for TimedEntry {
    type V = TimedEntryView;

    open spec fn view(&self) -> TimedEntryView {
        TimedEntryView { entry: self.entry@, timestamp: self.timestamp }
    }
}

impl TimedEntry {
    pub fn new(entry: Entry, timestamp: u128) -> (r: TimedEntry)
        ensures
            r@ == (TimedEntryView { entry: entry@, timestamp }),
    {
        TimedEntry { entry, timestamp }
    }
}

/// The values of a sequence of timed entries.
pub open spec fn views(s: Seq<TimedEntry>) -> Seq<TimedEntryView> {
    s.map_values(|e: TimedEntry| e@)
}

/// Which time of a file orders the listing.
#[derive(Clone, Copy, Debug, PartialEq, Eq, Structural)]
pub enum TimeAttribute {
    Modified,
    Created,
}

/// The timestamp given to an entry whose time could not be read: the
/// epoch, so that such entries sort after every other.
pub const FALLBACK_TIMESTAMP: u128 = 0;

/// The timestamp that orders an entry, from the times that reading its
/// metadata gave (`None` where that failed).
pub fn resolve_timestamp(attribute: TimeAttribute, modified: Option<u128>, created: Option<u128>)
    -> (r: u128)
    ensures
        r == match (if attribute == TimeAttribute::Modified { modified } else { created }) {
            Some(t) => t,
            None => FALLBACK_TIMESTAMP,
        },
{
    let found = match attribute {
        TimeAttribute::Modified => modified,
        TimeAttribute::Created => created,
    };
    match found {
        Some(t) => t,
        None => FALLBACK_TIMESTAMP,
    }
}

} // verus!
