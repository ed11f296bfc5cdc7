use vstd::prelude::*;

verus! {

/// Everything that can go wrong in a run.
///
/// `Enumeration` and `Io` end the whole run; the others concern one shard,
/// which is then left out of the report while the run goes on.
#[derive(Debug, Clone, PartialEq, Eq)]
pub enum StatsError {
    /// A shard's path is too shallow to derive its language and snapshot.
    Enumeration { path: String },
    /// The shard's compressed stream could not be read at line `line`.
    Decode { path: String, line: u64 },
    /// The record at line `line` of the shard is malformed.
    Parse { path: String, line: u64 },
    /// A count of the shard, or of its key in the table, would pass `u64::MAX`.
    Overflow { path: String, line: u64 },
    /// The destination could not be created or written.
    Io { path: String },
}

impl StatsError {
    /// The path that the error is about.
    pub fn path(&self) -> (r: &String)
        ensures
            r@ == self.path_view(),
    {
        match self {
            StatsError::Enumeration { path } => path,
            StatsError::Decode { path, .. } => path,
            StatsError::Parse { path, .. } => path,
            StatsError::Overflow { path, .. } => path,
            StatsError::Io { path } => path,
        }
    }

    pub open spec fn path_view(&self) -> Seq<char> {
        match self {
            StatsError::Enumeration { path } => path@,
            StatsError::Decode { path, .. } => path@,
            StatsError::Parse { path, .. } => path@,
            StatsError::Overflow { path, .. } => path@,
            StatsError::Io { path } => path@,
        }
    }
}

} // verus!
