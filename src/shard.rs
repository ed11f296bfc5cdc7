use vstd::prelude::*;
use vstd::string::StringSliceAdditionalSpecFns;
use vstd::utf8::encode_utf8;

use crate::error::StatsError;
use crate::text::{count_tokens, token_count};

verus! {

/// One shard to process: its file and the labels derived from its path.
#[derive(Debug, Clone, PartialEq, Eq)]
pub struct ShardDescriptor {
    pub path: String,
    pub lang: String,
    pub snapshot: String,
}

/// The statistics of one shard, or the totals of one key of the table.
///
/// The character count is reported equal to the byte count.
#[derive(Debug, Clone, PartialEq, Eq, Default)]
pub struct ShardStats {
    pub snapshot: String,
    pub lang: String,
    pub num_docs: u64,
    pub num_toks: u64,
    pub num_bytes: u64,
    pub num_chars: u64,
}

/// The length in bytes of the UTF-8 encoding of `s`.
pub open spec fn byte_len(s: Seq<char>) -> nat {
    encode_utf8(s).len()
}

/// The sum of the token counts of `records`.
pub open spec fn total_tokens(records: Seq<Seq<char>>) -> nat
    decreases records.len(),
{
    if records.len() == 0 {
        0
    } else {
        total_tokens(records.drop_last()) + token_count(records.last())
    }
}

/// The sum of the byte lengths of `records`.
pub open spec fn total_bytes(records: Seq<Seq<char>>) -> nat
    decreases records.len(),
{
    if records.len() == 0 {
        0
    } else {
        total_bytes(records.drop_last()) + byte_len(records.last())
    }
}

/// The counts of `records` all fit in a `u64`.
pub open spec fn tally_fits(records: Seq<Seq<char>>) -> bool {
    &&& records.len() <= u64::MAX
    &&& total_tokens(records) <= u64::MAX
    &&& total_bytes(records) <= u64::MAX
}

proof fn lemma_chars_fit_bytes(s: Seq<char>)
    ensures
        s.len() <= byte_len(s),
    decreases s.len(),
{
    if s.len() > 0 {
        lemma_chars_fit_bytes(s.drop_first());
    }
}

/// The running counts of one shard whose records are read one at a time.
pub struct ShardTally {
    shard: ShardDescriptor,
    num_docs: u64,
    num_toks: u64,
    num_bytes: u64,
    records: Ghost<Seq<Seq<char>>>,
}

impl ShardTally {
    /// The contents of the records counted so far, in order.
    pub closed spec fn records(&self) -> Seq<Seq<char>> {
        self.records@
    }

    /// The shard being counted.
    pub closed spec fn shard(&self) -> ShardDescriptor {
        self.shard
    }

    /// The counts are those of the records seen.
    pub closed spec fn wf(&self) -> bool {
        &&& self.num_docs == self.records@.len()
        &&& self.num_toks == total_tokens(self.records@)
        &&& self.num_bytes == total_bytes(self.records@)
    }

    /// A tally of `shard` that has seen no record.
    pub fn new(shard: ShardDescriptor) -> (r: ShardTally)
        ensures
            r.wf(),
            r.shard() == shard,
            r.records() == Seq::<Seq<char>>::empty(),
    {
        ShardTally { shard, num_docs: 0, num_toks: 0, num_bytes: 0, records: Ghost(Seq::empty()) }
    }

    /// Counts one record whose text is `content`: one document, its tokens and
    /// its bytes. Where a count would pass `u64::MAX`, the tally is left as it
    /// was and the error names the shard and the record's line.
    pub fn record(&mut self, content: &str) -> (r: Result<(), StatsError>)
        requires
            old(self).wf(),
            content.spec_bytes().len() <= usize::MAX,
        ensures
            final(self).wf(),
            final(self).shard() == old(self).shard(),
            r is Ok <==> tally_fits(old(self).records().push(content@)),
            r is Ok ==> final(self).records() == old(self).records().push(content@),
            r is Err ==> final(self).records() == old(self).records(),
            r matches Err(StatsError::Overflow { path, line }) ==> path@ == old(
                self,
            ).shard().path@ && line == old(self).records().len(),
            r is Err ==> r->Err_0 is Overflow,
    {
        let ghost next = self.records@.push(content@);
        proof {
            assert(next.drop_last() =~= self.records@);
            lemma_chars_fit_bytes(content@);
        }
        let bytes = content.len();
        let toks = count_tokens(content);
        if self.num_docs == u64::MAX || self.num_toks > u64::MAX - toks as u64 || self.num_bytes
            > u64::MAX - bytes as u64 {
            return Err(
                StatsError::Overflow { path: self.shard.path.clone(), line: self.num_docs },
            );
        }
        self.num_docs = self.num_docs + 1;
        self.num_toks = self.num_toks + toks as u64;
        self.num_bytes = self.num_bytes + bytes as u64;
        self.records = Ghost(next);
        Ok(())
    }

    /// The error for a shard whose stream could not be read past the records
    /// counted so far.
    pub fn decode_failed(self) -> (e: StatsError)
        requires
            self.wf(),
        ensures
            e matches StatsError::Decode { path, line } && path@ == self.shard().path@ && line
                == self.records().len(),
    {
        StatsError::Decode { path: self.shard.path, line: self.num_docs }
    }

    /// The error for a shard whose next record is malformed.
    pub fn parse_failed(self) -> (e: StatsError)
        requires
            self.wf(),
        ensures
            e matches StatsError::Parse { path, line } && path@ == self.shard().path@ && line
                == self.records().len(),
    {
        StatsError::Parse { path: self.shard.path, line: self.num_docs }
    }

    /// The statistics of the shard after its last record: one document per
    /// record, and the sums of their token and byte counts, under the labels
    /// derived from the shard's path. A language label inside a record does
    /// not change the key, so that a whole shard counts under one key.
    pub fn finish(self) -> (s: ShardStats)
        requires
            self.wf(),
        ensures
            s.lang@ == self.shard().lang@,
            s.snapshot@ == self.shard().snapshot@,
            s.num_docs == self.records().len(),
            s.num_toks == total_tokens(self.records()),
            s.num_bytes == total_bytes(self.records()),
            s.num_chars == s.num_bytes,
    {
        ShardStats {
            snapshot: self.shard.snapshot,
            lang: self.shard.lang,
            num_docs: self.num_docs,
            num_toks: self.num_toks,
            num_bytes: self.num_bytes,
            num_chars: self.num_bytes,
        }
    }
}

} // verus!
