use inpedia::blob::{blob_to_embedding, embedding_to_blob};
use inpedia::tags::{tags_from_json, tags_to_json};
use inpedia::text::{chars_of, string_of, text_le_exec, trim};
use inpedia::time::UtcTime;

#[test]
fn blobs_hold_little_endian_words() {
    let bits = vec![1.0f32.to_bits(), (-2.5f32).to_bits()];
    let blob = embedding_to_blob(bits.clone());
    let mut expected = Vec::new();
    expected.extend_from_slice(&1.0f32.to_le_bytes());
    expected.extend_from_slice(&(-2.5f32).to_le_bytes());
    assert_eq!(blob, expected);
    assert_eq!(blob_to_embedding(&blob), bits);
    assert_eq!(blob_to_embedding(&[1, 0, 0, 0, 9, 9]), vec![1]);
    assert!(blob_to_embedding(&[]).is_empty());
}

#[test]
fn trimming_removes_unicode_white_space() {
    assert_eq!(trim("  a b\t\n"), "a b");
    assert_eq!(trim("\u{3000}引用\u{00a0}"), "引用");
    assert_eq!(trim(" \n "), "");
    assert_eq!(trim("x"), "x");
}

#[test]
fn text_order_is_by_code_point() {
    let le = |a: &str, b: &str| text_le_exec(&chars_of(a), &chars_of(b));
    assert!(le("2023-12-31", "2024-01-01"));
    assert!(!le("b", "a"));
    assert!(le("ab", "abc"));
    assert!(le("", ""));
    assert_eq!(string_of(&chars_of("引用")), "引用");
}

#[test]
fn times_parse_and_show() {
    let t = UtcTime::parse_or_epoch("2024-05-01T12:34:56+09:00");
    assert_eq!(t.day(), "2024-05-01");
    assert_eq!(t.day_minute(), "2024-05-01 03:34");
    let late = UtcTime::parse_or_epoch("2024-05-01T23:30:00-02:00");
    assert_eq!(late.day(), "2024-05-02");
    assert_eq!(UtcTime::parse_or_epoch("garbage"), UtcTime::epoch());
    assert_eq!(UtcTime::epoch().day_minute(), "1970-01-01 00:00");
}

#[test]
fn tags_round_trip_through_json() {
    let tags = vec!["哲学".to_string(), "a\"b".to_string()];
    let json = tags_to_json(&tags);
    assert_eq!(json, "[\"哲学\",\"a\\\"b\"]");
    assert_eq!(tags_from_json(&json), tags);
    assert!(tags_from_json("{").is_empty());
    assert!(tags_from_json("[1]").is_empty());
    assert_eq!(tags_to_json(&vec![]), "[]");
}

#[test]
fn tag_json_escapes_as_written() {
    let tags = vec!["a\\b".to_string(), "\u{1}\t\n".to_string(), "\u{7f}é".to_string(), String::new()];
    let json = tags_to_json(&tags);
    assert_eq!(json, "[\"a\\\\b\",\"\\u0001\\t\\n\",\"\u{7f}é\",\"\"]");
    assert_eq!(tags_from_json(&json), tags);
}
