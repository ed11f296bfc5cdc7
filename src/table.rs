use vstd::prelude::*;

use crate::error::StatsError;
use crate::order::{
    KeyView, key_less, lemma_key_less_irreflexive, lemma_key_less_total,
    lemma_key_less_transitive, str_less,
};
use crate::shard::ShardStats;

verus! {

/// The four counts of a key, as mathematical integers.
pub struct Totals {
    pub docs: nat,
    pub toks: nat,
    pub bytes: nat,
    pub chars: nat,
}

/// A row of the table: its key and its counts.
pub type RowView = (KeyView, Totals);

/// The key that `s` is grouped under.
pub open spec fn key_of(s: ShardStats) -> KeyView {
    (s.snapshot@, s.lang@)
}

pub open spec fn totals_of(s: ShardStats) -> Totals {
    Totals {
        docs: s.num_docs as nat,
        toks: s.num_toks as nat,
        bytes: s.num_bytes as nat,
        chars: s.num_chars as nat,
    }
}

pub open spec fn row_of(s: ShardStats) -> RowView {
    (key_of(s), totals_of(s))
}

pub open spec fn rows_of(s: Seq<ShardStats>) -> Seq<RowView> {
    s.map_values(|x: ShardStats| row_of(x))
}

pub open spec fn add_totals(a: Totals, b: Totals) -> Totals {
    Totals {
        docs: a.docs + b.docs,
        toks: a.toks + b.toks,
        bytes: a.bytes + b.bytes,
        chars: a.chars + b.chars,
    }
}

pub open spec fn totals_fit(t: Totals) -> bool {
    &&& t.docs <= u64::MAX
    &&& t.toks <= u64::MAX
    &&& t.bytes <= u64::MAX
    &&& t.chars <= u64::MAX
}

/// The table `m` after merging the row `r`: a new entry where its key is
/// absent, else the counts added field by field onto the entry.
pub open spec fn merged(m: Map<KeyView, Totals>, r: RowView) -> Map<KeyView, Totals> {
    if m.contains_key(r.0) {
        m.insert(r.0, add_totals(m[r.0], r.1))
    } else {
        m.insert(r.0, r.1)
    }
}

/// Merging `r` into `m` keeps every count within `u64`.
pub open spec fn merge_fits(m: Map<KeyView, Totals>, r: RowView) -> bool {
    m.contains_key(r.0) ==> totals_fit(add_totals(m[r.0], r.1))
}

/// The table `m` after merging `rows`, first to last.
pub open spec fn merge_all(m: Map<KeyView, Totals>, rows: Seq<RowView>) -> Map<KeyView, Totals>
    decreases rows.len(),
{
    if rows.len() == 0 {
        m
    } else {
        merged(merge_all(m, rows.drop_last()), rows.last())
    }
}

/// Every merge of `rows` into `m`, first to last, keeps the counts within `u64`.
pub open spec fn merge_all_fits(m: Map<KeyView, Totals>, rows: Seq<RowView>) -> bool
    decreases rows.len(),
{
    rows.len() == 0 || (merge_all_fits(m, rows.drop_last()) && merge_fits(
        merge_all(m, rows.drop_last()),
        rows.last(),
    ))
}

/// The table built from nothing by merging `rows`.
pub open spec fn table_of(rows: Seq<RowView>) -> Map<KeyView, Totals> {
    merge_all(Map::empty(), rows)
}

/// Rows in strictly increasing order of key: keys unique, order fixed.
pub open spec fn rows_sorted(rows: Seq<RowView>) -> bool {
    forall|i: int, j: int| 0 <= i < j < rows.len() ==> key_less(rows[i].0, rows[j].0)
}

/// Whether the key of `a` comes before that of `b`.
fn stats_key_less(a: &ShardStats, b: &ShardStats) -> (r: bool)
    ensures
        r == key_less(key_of(*a), key_of(*b)),
{
    str_less(a.snapshot.as_str(), b.snapshot.as_str()) || (a.snapshot == b.snapshot && str_less(
        a.lang.as_str(),
        b.lang.as_str(),
    ))
}

fn copy_stats(s: &ShardStats) -> (r: ShardStats)
    ensures
        row_of(r) == row_of(*s),
{
    ShardStats {
        snapshot: s.snapshot.clone(),
        lang: s.lang.clone(),
        num_docs: s.num_docs,
        num_toks: s.num_toks,
        num_bytes: s.num_bytes,
        num_chars: s.num_chars,
    }
}

/// Per-key totals of the shards merged so far.
///
/// Entries are kept in increasing order of key, so that the rows come out in
/// the same order whatever order the shards were merged in.
pub struct AggregateTable {
    entries: Vec<ShardStats>,
    model: Ghost<Map<KeyView, Totals>>,
}

impl View for AggregateTable {
    type V = Map<KeyView, Totals>;

    closed spec fn view(&self) -> Map<KeyView, Totals> {
        self.model@
    }
}

impl AggregateTable {
    /// The entries, as rows, in the order they are kept.
    pub closed spec fn row_view(&self) -> Seq<RowView> {
        rows_of(self.entries@)
    }

    pub closed spec fn wf(&self) -> bool {
        &&& rows_sorted(rows_of(self.entries@))
        &&& forall|i: int|
            0 <= i < self.entries@.len() ==> {
                &&& #[trigger] self.model@.contains_key(key_of(self.entries@[i]))
                &&& self.model@[key_of(self.entries@[i])] == totals_of(self.entries@[i])
            }
        &&& forall|k: KeyView|
            #[trigger] self.model@.contains_key(k) ==> exists|i: int|
                0 <= i < self.entries@.len() && key_of(self.entries@[i]) == k
    }

    /// An empty table.
    pub fn new() -> (r: AggregateTable)
        ensures
            r.wf(),
            r@ == Map::<KeyView, Totals>::empty(),
    {
        AggregateTable { entries: Vec::new(), model: Ghost(Map::empty()) }
    }

    /// Merges the statistics of one shard under their key: a new entry where
    /// the key is absent, else the counts added onto the entry. Where a sum
    /// would pass `u64::MAX`, the table is left as it was and the result is
    /// false.
    pub fn merge(&mut self, stats: ShardStats) -> (r: bool)
        requires
            old(self).wf(),
        ensures
            final(self).wf(),
            r == merge_fits(old(self)@, row_of(stats)),
            r ==> final(self)@ == merged(old(self)@, row_of(stats)),
            !r ==> final(self)@ == old(self)@,
    {
        let ghost k = key_of(stats);
        let ghost rows = rows_of(self.entries@);
        let mut i: usize = 0;
        let mut stop = false;
        while i < self.entries.len() && !stop
            invariant
                self.wf(),
                self.entries@ == old(self).entries@,
                self.model@ == old(self).model@,
                rows == rows_of(self.entries@),
                stop ==> i < self.entries@.len() && key_less(k, key_of(self.entries@[i as int])),
                k == key_of(stats),
                0 <= i <= self.entries@.len(),
                forall|j: int| 0 <= j < i ==> key_less(#[trigger] key_of(self.entries@[j]), k),
            decreases self.entries@.len() - i + if stop { 0int } else { 1int },
        {
            assert(rows[i as int] == row_of(self.entries@[i as int]));
            let e = &self.entries[i];
            if e.snapshot == stats.snapshot && e.lang == stats.lang {
                assert(key_of(*e) == k);
                assert(self.model@.contains_key(k));
                if e.num_docs > u64::MAX - stats.num_docs || e.num_toks > u64::MAX - stats.num_toks
                    || e.num_bytes > u64::MAX - stats.num_bytes || e.num_chars > u64::MAX
                    - stats.num_chars {
                    return false;
                }
                let updated = ShardStats {
                    snapshot: e.snapshot.clone(),
                    lang: e.lang.clone(),
                    num_docs: e.num_docs + stats.num_docs,
                    num_toks: e.num_toks + stats.num_toks,
                    num_bytes: e.num_bytes + stats.num_bytes,
                    num_chars: e.num_chars + stats.num_chars,
                };
                let ghost old_entries = self.entries@;
                let ghost old_model = self.model@;
                proof {
                    lemma_key_less_irreflexive(k);
                    assert forall|j: int| 0 <= j < old_entries.len() && j != i implies key_of(
                        old_entries[j],
                    ) != k by {
                        assert(rows[j] == row_of(old_entries[j]));
                        if j > i {
                            assert(key_less(rows[i as int].0, rows[j].0));
                        } else {
                            assert(key_less(key_of(self.entries@[j]), k));
                        }
                    }
                }
                self.entries.set(i, updated);
                self.model = Ghost(merged(old_model, row_of(stats)));
                proof {
                    let new_rows = rows_of(self.entries@);
                    assert(new_rows =~= rows.update(i as int, row_of(updated)));
                    assert forall|a: int, b: int| 0 <= a < b < new_rows.len() implies key_less(
                        new_rows[a].0,
                        new_rows[b].0,
                    ) by {
                        assert(new_rows[a].0 == rows[a].0);
                        assert(new_rows[b].0 == rows[b].0);
                    }
                    assert forall|j: int| 0 <= j < self.entries@.len() implies {
                        &&& #[trigger] self.model@.contains_key(key_of(self.entries@[j]))
                        &&& self.model@[key_of(self.entries@[j])] == totals_of(self.entries@[j])
                    } by {
                        if j != i {
                            assert(self.entries@[j] == old_entries[j]);
                            assert(key_of(old_entries[j]) != k);
                        } else {
                            assert(old_model[k] == totals_of(old_entries[j]));
                        }
                    }
                    assert forall|kk: KeyView| #[trigger]
                        self.model@.contains_key(kk) implies exists|j: int|
                        0 <= j < self.entries@.len() && key_of(self.entries@[j]) == kk by {
                        if kk == k {
                            assert(key_of(self.entries@[i as int]) == kk);
                        } else {
                            assert(old_model.contains_key(kk));
                            let j = choose|j: int|
                                0 <= j < old_entries.len() && key_of(old_entries[j]) == kk;
                            assert(key_of(self.entries@[j]) == kk);
                        }
                    }
                }
                return true;
            }
            if stats_key_less(&stats, e) {
                stop = true;
            } else {
                proof {
                    lemma_key_less_total(k, key_of(*e));
                }
                i = i + 1;
            }
        }
        let ghost old_entries = self.entries@;
        let ghost old_model = self.model@;
        assert(self.wf());
        proof {
            lemma_key_less_irreflexive(k);
            assert forall|j: int| i <= j < old_entries.len() implies key_less(
                k,
                #[trigger] key_of(old_entries[j]),
            ) by {
                assert(rows[i as int] == row_of(old_entries[i as int]));
                assert(rows[j] == row_of(old_entries[j]));
                if j > i {
                    assert(key_less(rows[i as int].0, rows[j].0));
                    lemma_key_less_transitive(k, key_of(old_entries[i as int]), key_of(old_entries[j]));
                }
            }
            assert(!old_model.contains_key(k)) by {
                if old_model.contains_key(k) {
                    let j = choose|j: int|
                        0 <= j < old_entries.len() && key_of(old_entries[j]) == k;
                    if j >= i {
                        assert(key_less(k, key_of(old_entries[j])));
                    }
                }
            }
        }
        let ghost row = row_of(stats);
        let ghost moved = stats;
        self.entries.insert(i, stats);
        self.model = Ghost(merged(old_model, row));
        proof {
            let new_rows = rows_of(self.entries@);
            assert(new_rows =~= rows.insert(i as int, row));
            assert forall|a: int, b: int| 0 <= a < b < new_rows.len() implies key_less(
                new_rows[a].0,
                new_rows[b].0,
            ) by {
                if b < i {
                } else if a < i && b == i {
                    assert(new_rows[a] == row_of(old_entries[a]));
                } else if a < i {
                    assert(new_rows[a] == row_of(old_entries[a]));
                    assert(new_rows[b] == row_of(old_entries[b - 1]));
                    assert(key_less(rows[a].0, rows[b - 1].0));
                } else if a == i {
                    assert(new_rows[b] == row_of(old_entries[b - 1]));
                } else {
                    assert(key_less(rows[a - 1].0, rows[b - 1].0));
                }
            }
            assert forall|j: int| 0 <= j < self.entries@.len() implies {
                &&& #[trigger] self.model@.contains_key(key_of(self.entries@[j]))
                &&& self.model@[key_of(self.entries@[j])] == totals_of(self.entries@[j])
            } by {
                assert(self.model@ == old_model.insert(k, row.1));
                if j < i {
                    assert(self.entries@[j] == old_entries[j]);
                    assert(key_less(key_of(old_entries[j]), k));
                    assert(old_model.contains_key(key_of(old_entries[j])));
                } else if j > i {
                    assert(self.entries@[j] == old_entries[j - 1]);
                    assert(key_less(k, key_of(old_entries[j - 1])));
                    assert(old_model.contains_key(key_of(old_entries[j - 1])));
                } else {
                    assert(self.entries@[j] == moved);
                }
            }
            assert forall|kk: KeyView| #[trigger]
                self.model@.contains_key(kk) implies exists|j: int|
                0 <= j < self.entries@.len() && key_of(self.entries@[j]) == kk by {
                if kk == k {
                    assert(key_of(self.entries@[i as int]) == kk);
                } else {
                    assert(old_model.contains_key(kk));
                    let j = choose|j: int|
                        0 <= j < old_entries.len() && key_of(old_entries[j]) == kk;
                    if j < i {
                        assert(key_of(self.entries@[j]) == kk);
                    } else {
                        assert(key_of(self.entries@[j + 1]) == kk);
                    }
                }
            }
        }
        true
    }

    /// Merges the outcome of one shard: its statistics where it succeeded,
    /// nothing where it failed. The result is the one error to report for
    /// the shard, if any: the shard's own error, or an overflow of its key's
    /// totals, in which case the table is left as it was.
    pub fn merge_outcome(&mut self, path: &String, outcome: Result<ShardStats, StatsError>) -> (r:
        Option<StatsError>)
        requires
            old(self).wf(),
        ensures
            final(self).wf(),
            outcome is Err ==> final(self)@ == old(self)@ && r == Some(outcome->Err_0),
            outcome is Ok ==> (r is None <==> merge_fits(old(self)@, row_of(outcome->Ok_0))),
            outcome is Ok && r is None ==> final(self)@ == merged(
                old(self)@,
                row_of(outcome->Ok_0),
            ),
            outcome is Ok && r is Some ==> final(self)@ == old(self)@,
            outcome is Ok && r is Some ==> (r->Some_0 matches StatsError::Overflow { path: p, line }
                && p@ == path@ && line == outcome->Ok_0.num_docs),
    {
        match outcome {
            Err(e) => Some(e),
            Ok(stats) => {
                let docs = stats.num_docs;
                if self.merge(stats) {
                    None
                } else {
                    Some(StatsError::Overflow { path: path.clone(), line: docs })
                }
            },
        }
    }

    /// The entries, one row per key, in increasing order of key.
    pub fn rows(&self) -> (r: Vec<ShardStats>)
        requires
            self.wf(),
        ensures
            rows_of(r@) == self.row_view(),
            rows_sorted(rows_of(r@)),
            table_of(rows_of(r@)) == self@,
    {
        let mut out: Vec<ShardStats> = Vec::new();
        let mut i: usize = 0;
        while i < self.entries.len()
            invariant
                0 <= i <= self.entries@.len(),
                out@.len() == i,
                forall|j: int| 0 <= j < i ==> row_of(#[trigger] out@[j]) == row_of(self.entries@[j]),
            decreases self.entries@.len() - i,
        {
            out.push(copy_stats(&self.entries[i]));
            i = i + 1;
        }
        proof {
            assert(rows_of(out@) =~= self.row_view());
            lemma_export_round_trip(*self);
        }
        out
    }

    /// A table built by merging `rows`, first to last; none where a total
    /// would pass `u64::MAX`.
    pub fn from_rows(rows: &Vec<ShardStats>) -> (r: Option<AggregateTable>)
        ensures
            r is Some <==> merge_all_fits(Map::empty(), rows_of(rows@)),
            r matches Some(t) ==> t.wf() && t@ == table_of(rows_of(rows@)),
    {
        let ghost all = rows_of(rows@);
        let mut t = AggregateTable::new();
        let mut i: usize = 0;
        while i < rows.len()
            invariant
                all == rows_of(rows@),
                0 <= i <= rows@.len(),
                t.wf(),
                t@ == merge_all(Map::empty(), all.take(i as int)),
                merge_all_fits(Map::empty(), all.take(i as int)),
            decreases rows@.len() - i,
        {
            let ghost before = all.take(i as int);
            proof {
                assert(all.take(i + 1).drop_last() =~= before);
                assert(all.take(i + 1).last() == row_of(rows@[i as int]));
            }
            let s = copy_stats(&rows[i]);
            if !t.merge(s) {
                proof {
                    if merge_all_fits(Map::empty(), all) {
                        lemma_fits_prefix(Map::empty(), all, i + 1);
                    }
                }
                return None;
            }
            i = i + 1;
        }
        proof {
            assert(all.take(i as int) =~= all);
        }
        Some(t)
    }
}

/// Merging a prefix of `rows` fits wherever merging all of them does.
proof fn lemma_fits_prefix(m: Map<KeyView, Totals>, rows: Seq<RowView>, n: int)
    requires
        0 <= n <= rows.len(),
        merge_all_fits(m, rows),
    ensures
        merge_all_fits(m, rows.take(n)),
    decreases rows.len(),
{
    if n < rows.len() {
        assert(rows.drop_last().take(n) =~= rows.take(n));
        lemma_fits_prefix(m, rows.drop_last(), n);
    } else {
        assert(rows.take(n) =~= rows);
    }
}

/// Rows in strictly increasing key order build the table that holds exactly
/// those rows.
proof fn lemma_table_of_sorted(rows: Seq<RowView>)
    requires
        rows_sorted(rows),
    ensures
        forall|i: int|
            0 <= i < rows.len() ==> #[trigger] table_of(rows).contains_key(rows[i].0)
                && table_of(rows)[rows[i].0] == rows[i].1,
        forall|k: KeyView| #[trigger]
            table_of(rows).contains_key(k) ==> exists|i: int| 0 <= i < rows.len() && rows[i].0 == k,
    decreases rows.len(),
{
    if rows.len() > 0 {
        let init = rows.drop_last();
        let last = rows.last();
        assert(rows_sorted(init));
        lemma_table_of_sorted(init);
        lemma_key_less_irreflexive(last.0);
        assert(!table_of(init).contains_key(last.0)) by {
            if table_of(init).contains_key(last.0) {
                let i = choose|i: int| 0 <= i < init.len() && init[i].0 == last.0;
                assert(key_less(rows[i].0, rows[rows.len() - 1].0));
            }
        }
        assert(table_of(rows) == table_of(init).insert(last.0, last.1));
        assert forall|i: int| 0 <= i < rows.len() implies #[trigger] table_of(rows).contains_key(
            rows[i].0,
        ) && table_of(rows)[rows[i].0] == rows[i].1 by {
            if i < rows.len() - 1 {
                assert(rows[i] == init[i]);
                assert(key_less(rows[i].0, rows[rows.len() - 1].0));
            }
        }
        assert forall|k: KeyView| #[trigger] table_of(rows).contains_key(k) implies exists|i: int|
            0 <= i < rows.len() && rows[i].0 == k by {
            if k != last.0 {
                assert(table_of(init).contains_key(k));
                let i = choose|i: int| 0 <= i < init.len() && init[i].0 == k;
                assert(rows[i] == init[i]);
            } else {
                assert(rows[rows.len() - 1].0 == k);
            }
        }
    }
}

/// Exporting the table as rows and merging those rows into an empty table
/// gives back the same key-to-counts mapping; the rows have unique keys in
/// increasing order.
pub proof fn lemma_export_round_trip(t: AggregateTable)
    requires
        t.wf(),
    ensures
        rows_sorted(t.row_view()),
        table_of(t.row_view()) == t@,
{
    let rows = t.row_view();
    lemma_table_of_sorted(rows);
    assert forall|i: int| 0 <= i < rows.len() implies rows[i] == row_of(t.entries@[i]) by {}
    assert forall|k: KeyView| #[trigger] table_of(rows).contains_key(k) implies t@.contains_key(k)
        && table_of(rows)[k] == t@[k] by {
        let i = choose|i: int| 0 <= i < rows.len() && rows[i].0 == k;
        assert(rows[i] == row_of(t.entries@[i]));
    }
    assert forall|k: KeyView| #[trigger] t@.contains_key(k) implies table_of(rows).contains_key(k) by {
        let i = choose|i: int| 0 <= i < t.entries@.len() && key_of(t.entries@[i]) == k;
        assert(rows[i] == row_of(t.entries@[i]));
        assert(rows[i].0 == k);
        assert(table_of(rows).contains_key(rows[i].0));
    }
    assert(table_of(rows) =~= t@);
}

/// Merging two rows gives the same table in either order.
pub proof fn lemma_merge_commutes(m: Map<KeyView, Totals>, a: RowView, b: RowView)
    ensures
        merged(merged(m, a), b) == merged(merged(m, b), a),
{
    if a.0 == b.0 {
        if m.contains_key(a.0) {
            let x = m[a.0];
            assert(add_totals(add_totals(x, a.1), b.1) == add_totals(add_totals(x, b.1), a.1));
        } else {
            assert(add_totals(a.1, b.1) == add_totals(b.1, a.1));
        }
    }
    assert(merged(merged(m, a), b) =~= merged(merged(m, b), a));
}

/// Merging the row at `j` last gives the same table as merging it in place.
proof fn lemma_merge_all_move_last(m: Map<KeyView, Totals>, rows: Seq<RowView>, j: int)
    requires
        0 <= j < rows.len(),
    ensures
        merge_all(m, rows) == merged(merge_all(m, rows.remove(j)), rows[j]),
    decreases rows.len(),
{
    if j == rows.len() - 1 {
        assert(rows.remove(j) =~= rows.drop_last());
    } else {
        let init = rows.drop_last();
        lemma_merge_all_move_last(m, init, j);
        assert(rows.remove(j).drop_last() =~= init.remove(j));
        assert(rows.remove(j).last() == rows.last());
        lemma_merge_commutes(merge_all(m, init.remove(j)), rows[j], rows.last());
    }
}

/// The table does not depend on the order in which rows are merged: any
/// two orders of the same rows, each counted as often, give the same
/// key-to-counts mapping.
pub proof fn lemma_merge_order_independent(first: Seq<RowView>, second: Seq<RowView>)
    requires
        first.to_multiset() == second.to_multiset(),
    ensures
        table_of(first) == table_of(second),
{
    lemma_merge_all_order_independent(Map::empty(), first, second);
}

proof fn lemma_merge_all_order_independent(
    m: Map<KeyView, Totals>,
    first: Seq<RowView>,
    second: Seq<RowView>,
)
    requires
        first.to_multiset() == second.to_multiset(),
    ensures
        merge_all(m, first) == merge_all(m, second),
    decreases first.len(),
{
    broadcast use vstd::seq_lib::to_multiset_len;

    if first.len() == 0 {
        vstd::seq_lib::to_multiset_len(first);
        vstd::seq_lib::to_multiset_len(second);
        assert(second.len() == 0);
        assert(second =~= first);
    } else {
        let x = first.last();
        let n = first.len() - 1;
        vstd::seq_lib::to_multiset_remove(first, n);
        assert(first.remove(n) =~= first.drop_last());
        vstd::seq_lib::to_multiset_contains(first, x);
        assert(first[n] == x);
        assert(first.contains(x));
        vstd::seq_lib::to_multiset_contains(second, x);
        let j = choose|j: int| 0 <= j < second.len() && second[j] == x;
        vstd::seq_lib::to_multiset_remove(second, j);
        lemma_merge_all_order_independent(m, first.drop_last(), second.remove(j));
        lemma_merge_all_move_last(m, second, j);
    }
}

} // verus!
