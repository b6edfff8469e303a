//! Mtime-based staleness checking: is a destination artifact at least as
//! new as the source it was generated from?
//!
//! The decision is a pure function of the metadata the caller read from
//! the filesystem: the destination's modification time (or its absence),
//! and either the source file's modification time or, for a source
//! directory, the modification times of every non-directory entry of the
//! whole tree.  Missing or unreadable metadata of a file maps to the
//! epoch origin, which is treated as infinitely old.

use vstd::prelude::*;

verus! {

/// Nanoseconds in a second; the `nanos` field stays below it.
pub const NANOS_PER_SEC: u32 = 1000000000;

/// An instant, as a duration since the epoch origin.  Absence of
/// metadata maps to the epoch itself.
#[derive(Clone, Copy, Debug, PartialEq, Eq, Structural)]
pub struct Timestamp {
    pub secs: u64,
    pub nanos: u32,
}

pub open spec fn ts_le(a: Timestamp, b: Timestamp) -> bool {
    a.secs < b.secs || (a.secs == b.secs && a.nanos <= b.nanos)
}

pub open spec fn ts_lt(a: Timestamp, b: Timestamp) -> bool {
    a.secs < b.secs || (a.secs == b.secs && a.nanos < b.nanos)
}

impl Timestamp {
    pub open spec fn well_formed(self) -> bool {
        self.nanos < NANOS_PER_SEC
    }

    /// The epoch origin, the timestamp of anything whose metadata cannot
    /// be read.
    pub fn epoch() -> (r: Timestamp)
        ensures
            r == (Timestamp { secs: 0, nanos: 0 }),
            r.well_formed(),
    {
        Timestamp { secs: 0, nanos: 0 }
    }

    pub fn le(&self, other: &Timestamp) -> (r: bool)
        ensures
            r == ts_le(*self, *other),
    {
        self.secs < other.secs || (self.secs == other.secs && self.nanos <= other.nanos)
    }

    pub fn lt(&self, other: &Timestamp) -> (r: bool)
        ensures
            r == ts_lt(*self, *other),
    {
        self.secs < other.secs || (self.secs == other.secs && self.nanos < other.nanos)
    }
}

/// What the caller read about a source: a regular file's modification
/// time, or the modification times of every non-directory entry found by
/// walking a source directory's whole tree.
pub enum SourceMeta {
    File { mtime: Timestamp },
    Dir { entry_mtimes: Vec<Timestamp> },
}

/// The staleness decision.  A missing destination is never up to date.
/// A source file is up to date when its mtime is at most the
/// destination's; entries of a source directory must be strictly older
/// than the destination.  The asymmetry is deliberate and preserved.
pub open spec fn up_to_date_spec(src: SourceMeta, dst: Option<Timestamp>) -> bool {
    match dst {
        Option::None => false,
        Option::Some(threshold) => match src {
            SourceMeta::File { mtime } => ts_le(mtime, threshold),
            SourceMeta::Dir { entry_mtimes } => forall|k: int|
                0 <= k < entry_mtimes@.len() ==> ts_lt(#[trigger] entry_mtimes@[k], threshold),
        },
    }
}

/// Every entry of a source directory tree must be strictly older than
/// the threshold taken from the destination.
pub fn dir_up_to_date(entry_mtimes: &Vec<Timestamp>, threshold: &Timestamp) -> (r: bool)
    ensures
        r == forall|k: int|
            0 <= k < entry_mtimes@.len() ==> ts_lt(#[trigger] entry_mtimes@[k], *threshold),
{
    let mut k: usize = 0;
    while k < entry_mtimes.len()
        invariant
            k <= entry_mtimes@.len(),
            forall|t: int| 0 <= t < k ==> ts_lt(#[trigger] entry_mtimes@[t], *threshold),
        decreases entry_mtimes@.len() - k,
    {
        if !entry_mtimes[k].lt(threshold) {
            return false;
        }
        k += 1;
    }
    true
}

/// Returns whether `dst` is up to date given that the file or files in
/// `src` are used to generate it.  `dst` is `None` when the destination
/// does not exist on the filesystem.
pub fn up_to_date(src: &SourceMeta, dst: &Option<Timestamp>) -> (r: bool)
    ensures
        r == up_to_date_spec(*src, *dst),
{
    match dst {
        Option::None => false,
        Option::Some(threshold) => match src {
            SourceMeta::File { mtime } => mtime.le(threshold),
            SourceMeta::Dir { entry_mtimes } => dir_up_to_date(entry_mtimes, threshold),
        },
    }
}

/// A destination that does not exist is never up to date, whatever the
/// source looks like.
pub proof fn law_missing_destination_stale(src: SourceMeta)
    ensures
        !up_to_date_spec(src, Option::None),
{
}

/// A source file is up to date exactly when its mtime is at most the
/// destination's; making the source strictly newer flips the result.
pub proof fn law_file_threshold(mtime: Timestamp, threshold: Timestamp)
    ensures
        up_to_date_spec(SourceMeta::File { mtime }, Option::Some(threshold)) == ts_le(
            mtime,
            threshold,
        ),
        ts_lt(threshold, mtime) ==> !up_to_date_spec(
            SourceMeta::File { mtime },
            Option::Some(threshold),
        ),
{
}

/// A directory entry exactly as new as the destination already makes the
/// destination stale: entries are compared strictly, unlike the
/// top-level file case.
pub proof fn law_dir_entry_strict(entry_mtimes: Vec<Timestamp>, threshold: Timestamp, k: int)
    requires
        0 <= k < entry_mtimes@.len(),
        !ts_lt(entry_mtimes@[k], threshold),
    ensures
        !up_to_date_spec(SourceMeta::Dir { entry_mtimes }, Option::Some(threshold)),
{
    let s = SourceMeta::Dir { entry_mtimes };
    assert(s matches SourceMeta::Dir { entry_mtimes: e } && e == entry_mtimes);
    if up_to_date_spec(s, Option::Some(threshold)) {
        assert(ts_lt(entry_mtimes@[k], threshold));
        assert(false);
    }
}

} // verus!
