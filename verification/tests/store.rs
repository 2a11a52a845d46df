use inpedia::db::Db;
use inpedia::error::DbError;
use inpedia::models::{AssetInsert, AssetRow, MemoRow, QuoteInsert, QuoteRow};

fn insert(tags: &[&str], memo: Option<&str>) -> QuoteInsert {
    QuoteInsert {
        quote: "存在するとは知覚されることである".to_string(),
        source_title: Some("人知原理論".to_string()),
        source_author: Some("バークリー".to_string()),
        source_url: None,
        tags: tags.iter().map(|t| t.to_string()).collect(),
        memo: memo.map(|m| m.to_string()),
    }
}

fn quote_row(id: &str, created_at: &str, tags_json: &str) -> QuoteRow {
    QuoteRow {
        id: id.to_string(),
        quote: format!("quote {}", id),
        source_title: None,
        source_author: None,
        source_url: None,
        tags_json: tags_json.to_string(),
        embedding: None,
        created_at: created_at.to_string(),
    }
}

fn memo_row(id: i64, quote_id: &str, version: i64, memo: &str) -> MemoRow {
    MemoRow {
        id,
        quote_id: quote_id.to_string(),
        version,
        memo: memo.to_string(),
        created_at: "2024-01-01T00:00:00+00:00".to_string(),
    }
}

#[test]
fn inserted_quote_reads_back() {
    let mut db = Db::new();
    let id = db
        .insert_quote_at(
            "q1".to_string(),
            "2024-03-04T05:06:07+00:00".to_string(),
            &insert(&["哲学", "認識論"], Some("初版")),
            Some(vec![0x3f80_0000, 0x4000_0000]),
        )
        .unwrap();
    assert_eq!(id, "q1");
    let q = db.get_quote("q1").unwrap();
    assert_eq!(q.quote, "存在するとは知覚されることである");
    assert_eq!(q.source_author.as_deref(), Some("バークリー"));
    assert_eq!(q.source_title.as_deref(), Some("人知原理論"));
    assert_eq!(q.source_url, None);
    assert_eq!(q.tags, vec!["哲学".to_string(), "認識論".to_string()]);
    assert_eq!(q.created_at.day(), "2024-03-04");
    let versions = db.get_memo_versions("q1");
    assert_eq!(versions.len(), 1);
    assert_eq!(versions[0].version, 1);
    assert_eq!(versions[0].memo, "初版");
    assert_eq!(versions[0].id, 1);
    let embeddings = db.all_embeddings();
    assert_eq!(embeddings, vec![("q1".to_string(), vec![0x3f80_0000, 0x4000_0000])]);
    assert!(db.get_quote("q2").is_none());
}

#[test]
fn first_memo_defaults_to_empty() {
    let mut db = Db::new();
    db.insert_quote_at("q1".to_string(), "2024-01-01T00:00:00Z".to_string(), &insert(&[], None), None)
        .unwrap();
    let latest = db.latest_memo("q1").unwrap();
    assert_eq!(latest.version, 1);
    assert_eq!(latest.memo, "");
    assert!(db.all_embeddings().is_empty());
}

#[test]
fn random_ids_are_uuids() {
    let mut db = Db::new();
    let a = db.insert_quote(&insert(&[], None), None).unwrap();
    let b = db.insert_quote(&insert(&[], None), None).unwrap();
    assert_eq!(a.len(), 36);
    assert_ne!(a, b);
    assert!(db.get_quote(&a).is_some());
    assert_eq!(db.list_quotes().len(), 2);
}

#[test]
fn duplicate_id_is_refused() {
    let mut db = Db::new();
    db.insert_quote_at("q1".to_string(), "2024-01-01T00:00:00Z".to_string(), &insert(&[], None), None)
        .unwrap();
    let err = db
        .insert_quote_at("q1".to_string(), "2024-01-02T00:00:00Z".to_string(), &insert(&[], None), None)
        .unwrap_err();
    assert_eq!(err, DbError::DuplicateQuoteId);
    assert_eq!(db.list_quotes().len(), 1);
    assert_eq!(db.get_memo_versions("q1").len(), 1);
}

#[test]
fn memo_versions_count_up() {
    let mut db = Db::new();
    db.insert_quote_at("q1".to_string(), "2024-01-01T00:00:00Z".to_string(), &insert(&[], Some("a")), None)
        .unwrap();
    assert_eq!(db.add_memo_version_at("q1", "b", "2024-01-02T00:00:00Z".to_string()), Ok(2));
    assert_eq!(db.add_memo_version("q1", "c"), Ok(3));
    let versions = db.get_memo_versions("q1");
    let numbers: Vec<i64> = versions.iter().map(|v| v.version).collect();
    assert_eq!(numbers, vec![1, 2, 3]);
    let memos: Vec<&str> = versions.iter().map(|v| v.memo.as_str()).collect();
    assert_eq!(memos, vec!["a", "b", "c"]);
    let latest = db.latest_memo("q1").unwrap();
    assert_eq!((latest.version, latest.memo.as_str()), (3, "c"));
    assert_eq!(versions[1].created_at.day_minute(), "2024-01-02 00:00");
}

#[test]
fn memo_for_unknown_quote_is_refused() {
    let mut db = Db::new();
    assert_eq!(db.add_memo_version("nope", "x"), Err(DbError::UnknownQuote));
    assert!(db.latest_memo("nope").is_none());
    assert!(db.get_memo_versions("nope").is_empty());
}

#[test]
fn quotes_are_listed_newest_first() {
    let mut db = Db::new();
    db.insert_quote_at("old".to_string(), "2023-05-01T00:00:00+00:00".to_string(), &insert(&[], None), None)
        .unwrap();
    db.insert_quote_at("new".to_string(), "2024-05-01T00:00:00+00:00".to_string(), &insert(&[], None), None)
        .unwrap();
    db.insert_quote_at("mid".to_string(), "2023-12-01T00:00:00+00:00".to_string(), &insert(&[], None), None)
        .unwrap();
    let ids: Vec<String> = db.list_quotes().into_iter().map(|q| q.id).collect();
    assert_eq!(ids, vec!["new", "mid", "old"]);
}

#[test]
fn quotes_are_listed_by_tag() {
    let mut db = Db::new();
    db.insert_quote_at("a".to_string(), "2024-01-01T00:00:00Z".to_string(), &insert(&["哲学", "Ethics"], None), None)
        .unwrap();
    db.insert_quote_at("b".to_string(), "2024-01-02T00:00:00Z".to_string(), &insert(&["数学"], None), None)
        .unwrap();
    db.insert_quote_at("c".to_string(), "2024-01-03T00:00:00Z".to_string(), &insert(&["哲学史"], None), None)
        .unwrap();
    let ids = |tag: &str| -> Vec<String> {
        db.list_quotes_by_tag(tag).into_iter().map(|q| q.id).collect()
    };
    assert_eq!(ids("哲学"), vec!["a"]);
    assert_eq!(ids("哲学史"), vec!["c"]);
    assert_eq!(ids("数学"), vec!["b"]);
    assert_eq!(ids("Ethics"), vec!["a"]);
    assert!(ids("ethics").is_empty());
    assert!(ids("哲").is_empty());
    assert!(ids("哲_").is_empty());
    assert!(ids("%").is_empty());
    assert!(ids("物理").is_empty());
}

#[test]
fn tag_filter_keeps_only_quotes_that_carry_the_tag() {
    let mut db = Db::new();
    db.insert_quote(&insert(&["哲学"], None), None).unwrap();
    assert!(db.list_quotes_by_tag("哲").is_empty());
    assert_eq!(db.list_quotes_by_tag("哲学").len(), 1);
    db.insert_quote_at("q".to_string(), "2024-01-01T00:00:00Z".to_string(), &insert(&["a\"b"], None), None)
        .unwrap();
    let quoted: Vec<String> = db.list_quotes_by_tag("a\"b").into_iter().map(|q| q.id).collect();
    assert_eq!(quoted, vec!["q"]);
}

#[test]
fn assets_insert_or_ignore() {
    let mut db = Db::new();
    let first = AssetInsert { hash: "abc".to_string(), ext: "png".to_string(), note: Some("figure".to_string()) };
    db.insert_asset_at(&first, "2024-02-03T04:05:06Z".to_string());
    let again = AssetInsert { hash: "abc".to_string(), ext: "jpg".to_string(), note: None };
    db.insert_asset(&again);
    let a = db.get_asset("abc").unwrap();
    assert_eq!(a.ext, "png");
    assert_eq!(a.note.as_deref(), Some("figure"));
    assert_eq!(a.created_at.day(), "2024-02-03");
    assert!(db.get_asset("zzz").is_none());
}

#[test]
fn loaded_tables_are_checked() {
    let ok = Db::from_tables(
        vec![quote_row("a", "2024-01-01T00:00:00Z", "[]")],
        vec![memo_row(7, "a", 1, "m")],
        vec![],
        3,
    )
    .unwrap();
    assert_eq!(ok.get_memo_versions("a").len(), 1);
    let err = |r: Result<Db, DbError>| r.err().unwrap();
    assert_eq!(
        err(Db::from_tables(
            vec![quote_row("a", "x", "[]"), quote_row("a", "y", "[]")],
            vec![],
            vec![],
            0
        )),
        DbError::DuplicateQuoteId
    );
    assert_eq!(
        err(Db::from_tables(
            vec![quote_row("a", "x", "[]")],
            vec![memo_row(1, "a", 1, ""), memo_row(1, "a", 2, "")],
            vec![],
            0
        )),
        DbError::DuplicateMemoId
    );
    let asset = |h: &str| AssetRow { hash: h.to_string(), ext: "png".to_string(), note: None, created_at: "x".to_string() };
    assert_eq!(
        err(Db::from_tables(vec![], vec![], vec![asset("h"), asset("h")], 0)),
        DbError::DuplicateAssetHash
    );
    let orphans = Db::from_tables(vec![], vec![memo_row(1, "ghost", 1, "")], vec![], 0).unwrap();
    assert_eq!(orphans.get_memo_versions("ghost").len(), 1);
    assert!(orphans.get_quote("ghost").is_none());
}

#[test]
fn memo_ids_continue_after_the_last_used() {
    let mut db = Db::from_tables(
        vec![quote_row("a", "2024-01-01T00:00:00Z", "[]")],
        vec![memo_row(4, "a", 1, "m")],
        vec![],
        10,
    )
    .unwrap();
    db.add_memo_version("a", "n").unwrap();
    let versions = db.get_memo_versions("a");
    assert_eq!(versions[1].id, 11);
}

#[test]
fn counters_that_would_overflow_are_refused() {
    let mut db = Db::from_tables(
        vec![quote_row("a", "2024-01-01T00:00:00Z", "[]")],
        vec![memo_row(1, "a", i64::MAX, "m")],
        vec![],
        0,
    )
    .unwrap();
    assert_eq!(db.add_memo_version("a", "n"), Err(DbError::VersionOverflow));
    let mut db = Db::from_tables(vec![quote_row("a", "2024-01-01T00:00:00Z", "[]")], vec![], vec![], i64::MAX)
        .unwrap();
    assert_eq!(db.add_memo_version("a", "n"), Err(DbError::MemoIdOverflow));
    let e = db
        .insert_quote_at("b".to_string(), "2024-01-01T00:00:00Z".to_string(), &insert(&[], None), None)
        .unwrap_err();
    assert_eq!(e, DbError::MemoIdOverflow);
    assert!(db.get_quote("b").is_some());
}

#[test]
fn unreadable_stored_values_fall_back() {
    let db = Db::from_tables(vec![quote_row("a", "not a time", "not json")], vec![], vec![], 0).unwrap();
    let q = db.get_quote("a").unwrap();
    assert!(q.tags.is_empty());
    assert_eq!(q.created_at.day(), "1970-01-01");
    assert_eq!(q.created_at.day_minute(), "1970-01-01 00:00");
}

#[test]
fn latest_memo_takes_the_greatest_number() {
    let db = Db::from_tables(
        vec![quote_row("a", "2024-01-01T00:00:00Z", "[]")],
        vec![memo_row(1, "a", 2, "two"), memo_row(2, "a", 5, "five"), memo_row(3, "a", 3, "three")],
        vec![],
        0,
    )
    .unwrap();
    assert_eq!(db.latest_memo("a").unwrap().memo, "five");
    let order: Vec<i64> = db.get_memo_versions("a").iter().map(|v| v.version).collect();
    assert_eq!(order, vec![2, 3, 5]);
}

#[test]
fn writes_leave_other_quotes_alone() {
    let mut db = Db::new();
    db.insert_quote_at("a".to_string(), "2024-01-01T00:00:00Z".to_string(), &insert(&["x"], Some("a1")), None)
        .unwrap();
    assert_eq!(db.add_memo_version("a", "a2"), Ok(2));
    db.insert_quote_at("b".to_string(), "2024-02-01T00:00:00Z".to_string(), &insert(&["y"], None), None)
        .unwrap();
    db.insert_asset(&AssetInsert {
        hash: "h".to_string(),
        ext: "png".to_string(),
        note: None,
    });
    assert_eq!(db.add_memo_version("b", "b2"), Ok(2));
    let a = db.get_quote("a").unwrap();
    assert_eq!(a.tags, vec!["x"]);
    let numbers: Vec<i64> = db.get_memo_versions("a").iter().map(|v| v.version).collect();
    assert_eq!(numbers, vec![1, 2]);
    assert_eq!(db.latest_memo("a").unwrap().memo, "a2");
    assert_eq!(db.get_memo_versions("b")[0].id, 3);
}

#[test]
fn history_after_an_edit_is_the_old_one_and_the_new_version() {
    let mut db = Db::new();
    let id = db.insert_quote(&insert(&[], Some("v1")), None).unwrap();
    let before = db.get_memo_versions(&id);
    assert_eq!(db.add_memo_version(&id, "v2"), Ok(2));
    let after = db.get_memo_versions(&id);
    assert_eq!(after.len(), before.len() + 1);
    for (a, b) in after.iter().zip(before.iter()) {
        assert_eq!((a.id, a.version, a.memo.as_str()), (b.id, b.version, b.memo.as_str()));
    }
    assert_eq!((after[1].version, after[1].memo.as_str()), (2, "v2"));
    let latest = db.latest_memo(&id).unwrap();
    assert_eq!((latest.id, latest.memo.as_str()), (after[1].id, "v2"));
    assert_ne!(db.get_quote(&id).unwrap().created_at.day(), "1970-01-01");
}

#[test]
fn embeddings_of_a_run_of_inserts() {
    let mut db = Db::new();
    let nan = f32::NAN.to_bits() | 1;
    let a = db.insert_quote(&insert(&[], None), Some(vec![nan, 2.0f32.to_bits()])).unwrap();
    db.insert_quote(&insert(&[], None), None).unwrap();
    let c = db.insert_quote(&insert(&[], None), Some(vec![])).unwrap();
    assert_eq!(db.all_embeddings(), vec![(a, vec![nan, 2.0f32.to_bits()]), (c, vec![])]);
}
