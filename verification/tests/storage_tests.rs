use filmrank::recovery::{get_field, pair_counts, JsonValue};
use filmrank::backups::{backup_file, backups_to_prune, lex_less_chars};
use filmrank::persistence::MAX_BACKUPS;
use filmrank::recovery::{count_votes_in_raw_json, raw_vote_total};

fn chars(s: &str) -> Vec<char> {
    s.chars().collect()
}

#[test]
fn backup_names_start_with_db_and_end_with_json() {
    assert!(backup_file(&chars("db_20260329_14.json")));
    assert!(!backup_file(&chars("db_rescue.txt")));
    assert!(!backup_file(&chars("xdb_1.json")));
    assert!(!backup_file(&chars("db_")));
    assert!(backup_file(&chars("db_.json")));
}

#[test]
fn names_order_by_code_point() {
    assert!(lex_less_chars(&chars("db_1"), &chars("db_2")));
    assert!(lex_less_chars(&chars("ab"), &chars("abc")));
    assert!(!lex_less_chars(&chars("abc"), &chars("abc")));
    assert!(!lex_less_chars(&chars("b"), &chars("abc")));
}

#[test]
fn prune_nothing_at_or_below_the_limit() {
    let names: Vec<String> = (0..MAX_BACKUPS).map(|i| format!("db_{:04}.json", i)).collect();
    assert!(backups_to_prune(&names).is_empty());
}

#[test]
fn prune_the_oldest_beyond_the_limit() {
    let mut names: Vec<String> = (0..MAX_BACKUPS + 3).rev().map(|i| format!("db_{:04}.json", i)).collect();
    names.push("notes.txt".to_string());
    names.push("db_rescue_1.json".to_string());
    let r = backups_to_prune(&names);
    let pruned: Vec<&str> = r.iter().map(|&i| names[i].as_str()).collect();
    assert_eq!(pruned, vec!["db_0000.json", "db_0001.json", "db_0002.json", "db_0003.json"]);
}

#[test]
fn raw_json_vote_count_sums_compared_pairs() {
    let content = r#"{"users":{"a":{"compared_pairs":[[1,2],[1,3]]},"b":{"compared_pairs":[]},"c":{"seen":[1]}}}"#;
    assert_eq!(count_votes_in_raw_json(content), Some(2));
    assert_eq!(count_votes_in_raw_json("not json"), Some(0));
    assert_eq!(count_votes_in_raw_json(r#"{"users":[1,2]}"#), Some(0));
    assert_eq!(count_votes_in_raw_json(r#"{"other":1}"#), Some(0));
}

#[test]
fn raw_vote_total_checks_overflow() {
    assert_eq!(raw_vote_total(&vec![Some(2), None, Some(3)]), Some(5));
    assert_eq!(raw_vote_total(&vec![Some(usize::MAX), Some(1)]), None);
}

#[test]
fn pair_counts_reads_users_and_their_arrays() {
    let user_a = JsonValue::Object(vec![(
        "compared_pairs".to_string(),
        JsonValue::Array(vec![JsonValue::Null, JsonValue::Bool(true)]),
    )]);
    let user_b = JsonValue::Object(vec![("compared_pairs".to_string(), JsonValue::Number("3".to_string()))]);
    let db = JsonValue::Object(vec![
        ("other".to_string(), JsonValue::Text("x".to_string())),
        ("users".to_string(), JsonValue::Object(vec![("a".to_string(), user_a), ("b".to_string(), user_b)])),
    ]);
    assert_eq!(pair_counts(&db), Some(vec![Some(2), None]));
    assert!(get_field(&db, "missing").is_none());
    assert!(pair_counts(&JsonValue::Array(Vec::new())).is_none());
}
