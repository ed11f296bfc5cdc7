use vstd::prelude::*;

use crate::limiter::Limiter;

verus! {

#[verifier::external_type_specification]
#[verifier::external_body]
pub struct ExPathBuf(std::path::PathBuf);

/// The settings of a run.
pub struct Args {
    /// Folder holding the shards.
    pub src: std::path::PathBuf,
    /// File the report is written to.
    pub dst: std::path::PathBuf,
    /// The snapshot whose shards are counted.
    pub snapshot: String,
    /// How many shards are processed at once.
    pub threads: usize,
}

impl Args {
    /// The limiter for this run's shard tasks: `threads` slots.
    pub fn limiter(&self) -> (r: Limiter)
        ensures
            r.capacity_view() == self.threads,
            r.active_view() == 0,
    {
        Limiter::new(self.threads)
    }

    /// The snapshots whose shards the run counts: the one it was given.
    pub fn allow_list(&self) -> (r: Option<Vec<String>>)
        ensures
            r matches Some(v) && v@.len() == 1 && v@[0]@ == self.snapshot@,
    {
        let mut v: Vec<String> = Vec::new();
        v.push(self.snapshot.clone());
        Some(v)
    }
}

} // verus!
