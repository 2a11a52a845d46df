use inpedia::cli::{check_tag, current_memo, memo_changed, parse_tags, prepare_quote, quote_detail};
use inpedia::db::Db;
use inpedia::error::InputError;
use inpedia::gui::{add_quote, get_history, list_by_tag, list_quotes, quote_to_dto, search_quotes, update_memo, AddQuoteInput};
use inpedia::history::{history_entries, ChangeKind, HistoryBody};
use inpedia::models::QuoteInsert;
use inpedia::search::collect_hits;

fn seeded() -> Db {
    let mut db = Db::new();
    let input = QuoteInsert {
        quote: "汝自身を知れ".to_string(),
        source_title: None,
        source_author: Some("ソクラテス".to_string()),
        source_url: Some("https://example.org".to_string()),
        tags: vec!["哲学".to_string()],
        memo: Some("line one\nline two\n".to_string()),
    };
    db.insert_quote_at("s".to_string(), "2024-06-01T10:20:30Z".to_string(), &input, Some(vec![7]))
        .unwrap();
    db
}

#[test]
fn tag_lists_are_split_on_commas() {
    assert_eq!(parse_tags("哲学,認識論"), vec!["哲学", "認識論"]);
    assert_eq!(parse_tags(" a , ,b,"), vec!["a", "b"]);
    assert!(parse_tags("").is_empty());
    assert!(parse_tags(" , ").is_empty());
}

#[test]
fn new_quotes_are_checked() {
    let ins = prepare_quote("  引用  ", Some("著者".to_string()), None, None, Some("x, y"), None).unwrap();
    assert_eq!(ins.quote, "引用");
    assert_eq!(ins.source_author.as_deref(), Some("著者"));
    assert_eq!(ins.tags, vec!["x", "y"]);
    let err = prepare_quote(" \n", None, None, None, None, None).err().unwrap();
    assert_eq!(err, InputError::EmptyQuote);
    assert_eq!(check_tag("  "), Err(InputError::EmptyTag));
    assert_eq!(check_tag("哲学"), Ok(()));
}

#[test]
fn edits_that_only_change_white_space_are_not_new_versions() {
    assert!(!memo_changed("memo\n", "  memo  "));
    assert!(memo_changed("memo", "memo!"));
    assert!(memo_changed("", "x"));
}

#[test]
fn one_quote_is_summed_up() {
    let mut db = seeded();
    db.add_memo_version("s", "line one\nline 2\n").unwrap();
    let d = quote_detail(&db, "s").unwrap();
    assert_eq!(d.memo_version_count, 2);
    assert_eq!(d.latest_memo.as_deref(), Some("line one\nline 2\n"));
    assert_eq!(d.created_at, "2024-06-01");
    assert_eq!(d.tags, vec!["哲学"]);
    assert!(quote_detail(&db, "missing").is_none());
    assert_eq!(current_memo(&db, "s"), "line one\nline 2\n");
    assert_eq!(current_memo(&db, "missing"), "");
}

#[test]
fn history_shows_line_changes() {
    let mut db = seeded();
    db.add_memo_version_at("s", "line one\nline 2", "2024-06-02T08:09:00Z".to_string()).unwrap();
    let entries = history_entries(&db.get_memo_versions("s"));
    assert_eq!(entries.len(), 2);
    assert_eq!(entries[0].version, 1);
    assert_eq!(entries[0].written, "2024-06-01 10:20");
    match &entries[0].body {
        HistoryBody::Full(m) => assert_eq!(m, "line one\nline two\n"),
        _ => panic!("first version is shown in full"),
    }
    assert_eq!(entries[1].written, "2024-06-02 08:09");
    match &entries[1].body {
        HistoryBody::Changes(c) => {
            let kinds: Vec<ChangeKind> = c.iter().map(|l| l.kind).collect();
            assert_eq!(kinds, vec![ChangeKind::Equal, ChangeKind::Delete, ChangeKind::Insert]);
            assert_eq!(c[1].value, "line two\n");
            assert_eq!(c[2].value, "line 2");
            assert_eq!(c[2].shown(), "line 2\n");
            assert_eq!(c[0].shown(), "line one\n");
        }
        _ => panic!("later versions are shown as changes"),
    }
}

#[test]
fn search_keeps_the_best_ranked_quotes() {
    let db = seeded();
    let ranked = vec![
        ("missing".to_string(), 1u32),
        ("s".to_string(), 0.5f32.to_bits()),
        ("other".to_string(), 3u32),
    ];
    let hits = collect_hits(&db, &ranked, 2);
    assert_eq!(hits.len(), 1);
    assert_eq!(hits[0].quote.id, "s");
    assert_eq!(f32::from_bits(hits[0].score_bits), 0.5);
    assert!(collect_hits(&db, &ranked, 1).is_empty());
    assert!(collect_hits(&db, &ranked, 0).is_empty());
}

#[test]
fn front_end_records() {
    let mut db = seeded();
    let input = AddQuoteInput {
        quote: "万物は流転する".to_string(),
        source_title: None,
        source_author: Some("ヘラクレイトス".to_string()),
        source_url: None,
        tags: vec!["哲学".to_string(), "自然".to_string()],
        memo: None,
    };
    let id = add_quote(&mut db, input, None).unwrap();
    assert_eq!(update_memo(&mut db, &id, "流れ"), Ok(2));
    let all = list_quotes(&db);
    assert_eq!(all.len(), 2);
    let added = all.iter().find(|d| d.id == id).unwrap();
    assert_eq!(added.latest_memo.as_deref(), Some("流れ"));
    assert_eq!(added.tags, vec!["哲学", "自然"]);
    let tagged = list_by_tag(&db, "自然");
    assert_eq!(tagged.len(), 1);
    assert_eq!(tagged[0].id, id);
    let history = get_history(&db, &id);
    assert_eq!(history.iter().map(|h| h.version).collect::<Vec<_>>(), vec![1, 2]);
    assert_eq!(history[0].memo, "");
    let q = db.get_quote("s").unwrap();
    let dto = quote_to_dto(q, Some("m".to_string()));
    assert_eq!(dto.created_at, "2024-06-01");
    assert_eq!(dto.source_author.as_deref(), Some("ソクラテス"));
    assert_eq!(dto.latest_memo.as_deref(), Some("m"));
}

#[test]
fn front_end_search_results_carry_memos_and_scores() {
    let mut db = seeded();
    db.add_memo_version("s", "latest").unwrap();
    let ranked = vec![
        ("gone".to_string(), 0.9f32.to_bits()),
        ("s".to_string(), 0.25f32.to_bits()),
    ];
    let res = search_quotes(&db, &ranked, 5);
    assert_eq!(res.len(), 1);
    assert_eq!(res[0].0.id, "s");
    assert_eq!(res[0].0.latest_memo.as_deref(), Some("latest"));
    assert_eq!(res[0].0.created_at, "2024-06-01");
    assert_eq!(f32::from_bits(res[0].1), 0.25);
    assert!(search_quotes(&db, &ranked, 1).is_empty());
}
