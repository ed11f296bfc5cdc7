use oscar_statistics::{
    count_tokens, describe_shard, is_shard_name, lang_of_dir, select_shards, str_less,
    AggregateTable, Args, Limiter, ShardDescriptor, ShardFile, ShardStats, ShardTally, StatsError,
    DEFAULT_CONCURRENCY,
};

fn shard(path: &str, lang: &str, snapshot: &str) -> ShardDescriptor {
    ShardDescriptor { path: path.to_string(), lang: lang.to_string(), snapshot: snapshot.to_string() }
}

fn words(n: usize) -> String {
    let mut s = String::new();
    for i in 0..n {
        if i > 0 {
            s.push(' ');
        }
        s.push_str("w");
    }
    s
}

fn tally(desc: ShardDescriptor, records: &[String]) -> ShardStats {
    let mut t = ShardTally::new(desc);
    for r in records {
        t.record(r).unwrap();
    }
    t.finish()
}

fn stats(snapshot: &str, lang: &str, docs: u64, toks: u64, bytes: u64) -> ShardStats {
    ShardStats {
        snapshot: snapshot.to_string(),
        lang: lang.to_string(),
        num_docs: docs,
        num_toks: toks,
        num_bytes: bytes,
        num_chars: bytes,
    }
}

fn file(path: &str) -> ShardFile {
    ShardFile {
        path: path.to_string(),
        parts: path.split('/').filter(|p| !p.is_empty()).map(|p| p.to_string()).collect(),
    }
}

#[test]
fn two_shards_end_to_end() {
    let en: Vec<String> = vec![words(5), words(6), words(7)];
    let fr: Vec<String> = vec![words(10), words(4)];
    let mut table = AggregateTable::new();
    assert!(table.merge(tally(shard("2023-01/en_meta/a.jsonl.zst", "en", "2023-01"), &en)));
    assert!(table.merge(tally(shard("2023-01/fr_meta/b.jsonl.zst", "fr", "2023-01"), &fr)));
    let rows = table.rows();
    assert_eq!(rows.len(), 2);
    assert_eq!(rows[0].lang, "en");
    assert_eq!(rows[0].num_docs, 3);
    assert_eq!(rows[0].num_toks, 18);
    assert_eq!(rows[1].lang, "fr");
    assert_eq!(rows[1].num_docs, 2);
    assert_eq!(rows[1].num_toks, 14);
}

#[test]
fn shard_contribution_sums_records() {
    let records = vec!["héllo world".to_string(), "  a\tb\nc  ".to_string(), String::new()];
    let s = tally(shard("x/en_meta/a.zst", "en", "x"), &records);
    assert_eq!(s.num_docs, 3);
    assert_eq!(s.num_toks, 2 + 3);
    assert_eq!(s.num_bytes, 12 + 9);
    assert_eq!(s.num_chars, s.num_bytes);
    assert_eq!(s.lang, "en");
    assert_eq!(s.snapshot, "x");
}

#[test]
fn tokens_split_on_unicode_white_space() {
    assert_eq!(count_tokens(""), 0);
    assert_eq!(count_tokens("   "), 0);
    assert_eq!(count_tokens("one"), 1);
    assert_eq!(count_tokens(" one  two\tthree\n"), 3);
    assert_eq!(count_tokens("a\u{3000}b\u{a0}c"), 3);
    assert_eq!(count_tokens("a-b,c"), 1);
}

#[test]
fn decode_and_parse_errors_name_shard_and_line() {
    let mut t = ShardTally::new(shard("s/en_meta/a.zst", "en", "s"));
    t.record("one two").unwrap();
    t.record("three").unwrap();
    assert_eq!(t.decode_failed(), StatsError::Decode { path: "s/en_meta/a.zst".to_string(), line: 2 });
    let t = ShardTally::new(shard("s/en_meta/b.zst", "en", "s"));
    assert_eq!(t.parse_failed(), StatsError::Parse { path: "s/en_meta/b.zst".to_string(), line: 0 });
}

#[test]
fn failed_shard_contributes_nothing() {
    let mut table = AggregateTable::new();
    assert!(table.merge(stats("s", "en", 1, 2, 3)));
    let err = StatsError::Parse { path: "s/en_meta/bad.zst".to_string(), line: 4 };
    let path = "s/en_meta/bad.zst".to_string();
    let reported = table.merge_outcome(&path, Err(err.clone()));
    assert_eq!(reported, Some(err));
    let rows = table.rows();
    assert_eq!(rows, vec![stats("s", "en", 1, 2, 3)]);
    let ok = table.merge_outcome(&path, Ok(stats("s", "fr", 1, 1, 1)));
    assert_eq!(ok, None);
    assert_eq!(table.rows().len(), 2);
}

#[test]
fn overflow_of_a_key_is_reported_and_leaves_table() {
    let mut table = AggregateTable::new();
    assert!(table.merge(stats("s", "en", u64::MAX, 0, 0)));
    assert!(!table.merge(stats("s", "en", 1, 0, 0)));
    let path = "s/en_meta/c.zst".to_string();
    let r = table.merge_outcome(&path, Ok(stats("s", "en", 1, 0, 0)));
    assert_eq!(r, Some(StatsError::Overflow { path, line: 1 }));
    assert_eq!(table.rows(), vec![stats("s", "en", u64::MAX, 0, 0)]);
}

#[test]
fn merge_order_does_not_matter() {
    let parts = vec![
        stats("2023-01", "fr", 2, 14, 30),
        stats("2023-01", "en", 3, 18, 40),
        stats("2022-05", "en", 1, 1, 1),
        stats("2023-01", "en", 4, 5, 6),
    ];
    let mut forward = AggregateTable::new();
    for p in parts.iter() {
        assert!(forward.merge(p.clone()));
    }
    let mut backward = AggregateTable::new();
    for p in parts.iter().rev() {
        assert!(backward.merge(p.clone()));
    }
    assert_eq!(forward.rows(), backward.rows());
    assert_eq!(
        forward.rows(),
        vec![
            stats("2022-05", "en", 1, 1, 1),
            stats("2023-01", "en", 7, 23, 46),
            stats("2023-01", "fr", 2, 14, 30),
        ]
    );
}

#[test]
fn rows_round_trip() {
    let mut table = AggregateTable::new();
    assert!(table.merge(stats("b", "zh", 5, 6, 7)));
    assert!(table.merge(stats("a", "en", 1, 2, 3)));
    assert!(table.merge(stats("a", "de", 8, 9, 10)));
    let rows = table.rows();
    let back = AggregateTable::from_rows(&rows).unwrap();
    assert_eq!(back.rows(), rows);
    assert_eq!(rows[0], stats("a", "de", 8, 9, 10));
}

#[test]
fn from_rows_merges_repeated_keys_and_refuses_overflow() {
    let rows = vec![stats("a", "en", 1, 2, 3), stats("a", "en", 1, 2, 3)];
    let t = AggregateTable::from_rows(&rows).unwrap();
    assert_eq!(t.rows(), vec![stats("a", "en", 2, 4, 6)]);
    let big = vec![stats("a", "en", u64::MAX, 0, 0), stats("a", "en", 1, 0, 0)];
    assert!(AggregateTable::from_rows(&big).is_none());
}

#[test]
fn limiter_admits_at_most_capacity() {
    let mut limiter = Limiter::new(2);
    assert!(limiter.try_acquire());
    assert!(limiter.try_acquire());
    assert!(!limiter.try_acquire());
    assert_eq!(limiter.active(), 2);
    limiter.release();
    assert_eq!(limiter.active(), 1);
    assert!(limiter.try_acquire());
    assert!(!limiter.try_acquire());
    assert_eq!(limiter.capacity(), 2);
    assert_eq!(DEFAULT_CONCURRENCY, 10);
}

#[test]
fn limiter_active_count_never_passes_capacity() {
    for k in 1..5usize {
        let mut limiter = Limiter::new(k);
        let mut held = 0usize;
        for step in 0..40usize {
            if step % 3 == 2 && held > 0 {
                limiter.release();
                held -= 1;
            } else if limiter.try_acquire() {
                held += 1;
            }
            assert!(limiter.active() <= k);
            assert_eq!(limiter.active(), held);
        }
    }
}

#[test]
fn labels_come_from_the_path() {
    let d = describe_shard(&file("corpus/2023-01/en_meta/en_meta_part_1.jsonl.zst")).unwrap();
    assert_eq!(d.lang, "en");
    assert_eq!(d.snapshot, "2023-01");
    assert_eq!(d.path, "corpus/2023-01/en_meta/en_meta_part_1.jsonl.zst");
    let d = describe_shard(&file("2023-01/fr/part.zst")).unwrap();
    assert_eq!(d.lang, "fr");
    let e = describe_shard(&file("en_meta/part.zst")).unwrap_err();
    assert_eq!(e, StatsError::Enumeration { path: "en_meta/part.zst".to_string() });
    assert_eq!(lang_of_dir("de_meta"), "de");
    assert_eq!(lang_of_dir("_meta"), "");
}

#[test]
fn shard_names_end_with_extension() {
    assert!(is_shard_name("a.jsonl.zst"));
    assert!(is_shard_name(".zst"));
    assert!(!is_shard_name("a.jsonl"));
    assert!(!is_shard_name("zst"));
}

#[test]
fn selection_filters_extension_and_snapshot() {
    let files = vec![
        file("root/2023-01/en_meta/a.zst"),
        file("root/2023-01/en_meta/readme.txt"),
        file("root/2022-05/fr_meta/b.zst"),
        file("root/2023-01/fr_meta/c.zst"),
    ];
    let all = select_shards(&files, &None).unwrap();
    assert_eq!(all.len(), 3);
    let only = select_shards(&files, &Some(vec!["2023-01".to_string()])).unwrap();
    assert_eq!(only.len(), 2);
    assert_eq!(only[0].lang, "en");
    assert_eq!(only[1].lang, "fr");
    assert_eq!(only[1].path, "root/2023-01/fr_meta/c.zst");
    let shallow = vec![file("root/2023-01/en_meta/a.zst"), file("x/b.zst")];
    assert_eq!(
        select_shards(&shallow, &None),
        Err(StatsError::Enumeration { path: "x/b.zst".to_string() })
    );
    let skipped = vec![file("notes.txt")];
    assert_eq!(select_shards(&skipped, &None).unwrap().len(), 0);
}

#[test]
fn text_order_is_lexicographic() {
    assert!(str_less("a", "b"));
    assert!(str_less("", "a"));
    assert!(str_less("ab", "abc"));
    assert!(!str_less("abc", "ab"));
    assert!(!str_less("same", "same"));
    assert!(str_less("Z", "a"));
    assert!(str_less("z", "é"));
}

#[test]
fn args_give_limiter_and_allow_list() {
    let args = Args {
        src: std::path::PathBuf::from("in"),
        dst: std::path::PathBuf::from("out.parquet"),
        snapshot: "2023-01".to_string(),
        threads: 3,
    };
    assert_eq!(args.limiter().capacity(), 3);
    assert_eq!(args.allow_list(), Some(vec!["2023-01".to_string()]));
}
