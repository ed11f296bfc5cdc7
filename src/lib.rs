//! Aggregate document, token and byte statistics over a corpus of
//! compressed, line-delimited shards, grouped by language and snapshot.
//!
//! The library holds the logic of a run: deriving each shard's labels from
//! its path, counting the records of one shard as they stream by, gating how
//! many shards are worked on at once, and merging per-shard statistics into
//! one table whose totals do not depend on the order in which shards finish.
//! Walking directories, decompressing, decoding records and writing the
//! report are left to the caller, which hands the library plain values.

mod cli;
mod enumerate;
mod error;
mod limiter;
mod order;
mod record;
mod shard;
mod table;
mod text;

pub use cli::Args;
pub use enumerate::{
    allowed, describe_shard, descriptor_view, descriptors_view, enumeration, file_view,
    files_view, has_suffix, is_shard_name, labels_of, lang_dir_suffix, lang_label, lang_of_dir,
    parts_view, select_shards, shard_extension, ShardFile,
};
pub use error::StatsError;
pub use limiter::{Limiter, DEFAULT_CONCURRENCY};
pub use order::{key_less, str_less, text_less, KeyView};
pub use record::WarcHeaders;
pub use shard::{
    byte_len, tally_fits, total_bytes, total_tokens, ShardDescriptor, ShardStats, ShardTally,
};
pub use table::{
    add_totals, key_of, lemma_export_round_trip, lemma_merge_commutes,
    lemma_merge_order_independent, merge_all, merge_all_fits, merge_fits, merged, row_of, rows_of,
    rows_sorted, table_of, totals_fit, totals_of, AggregateTable, RowView, Totals,
};
pub use text::{count_tokens, is_token_start, token_count, white_space};
