use filmrank::models::{canonical_pair, pair_key, parse_pair_key, UserState};

fn winner_of(u: &UserState, key: &str) -> Option<usize> {
    u.find_outcome(&key.to_string()).map(|i| u.vote_outcomes[i].1)
}

#[test]
fn canonical_pair_puts_smaller_first() {
    assert_eq!(canonical_pair(5, 3), (3, 5));
    assert_eq!(canonical_pair(3, 5), (3, 5));
    assert_eq!(canonical_pair(7, 7), (7, 7));
}

#[test]
fn pair_key_is_symmetric_and_decimal() {
    assert_eq!(pair_key(3, 5), "3,5");
    assert_eq!(pair_key(5, 3), "3,5");
    assert_eq!(pair_key(0, 120), "0,120");
}

#[test]
fn parse_pair_key_reads_keys_back() {
    assert_eq!(parse_pair_key("3,5"), Some((3, 5)));
    assert_eq!(parse_pair_key(&pair_key(42, 7)), Some((7, 42)));
    assert_eq!(parse_pair_key("+4,9"), Some((4, 9)));
}

#[test]
fn parse_pair_key_rejects_malformed_keys() {
    assert_eq!(parse_pair_key("35"), None);
    assert_eq!(parse_pair_key("3,"), None);
    assert_eq!(parse_pair_key(",5"), None);
    assert_eq!(parse_pair_key("a,5"), None);
    assert_eq!(parse_pair_key("3,5,7"), None);
    assert_eq!(parse_pair_key(" 3,5"), None);
    assert_eq!(parse_pair_key("99999999999999999999999,1"), None);
}

#[test]
fn user_state_records_and_forgets_pairs() {
    let mut u = UserState::new();
    assert!(u.seen_films.is_empty());
    assert!(!u.has_compared((1, 2)));
    u.mark_compared((1, 2));
    u.mark_compared((1, 2));
    assert!(u.has_compared((1, 2)));
    assert_eq!(u.compared_pairs.len(), 1);
    u.set_outcome("1,2".to_string(), 2);
    u.set_outcome("1,2".to_string(), 1);
    assert_eq!(winner_of(&u, "1,2"), Some(1));
    assert_eq!(u.vote_outcomes.len(), 1);
    assert!(u.forget_compared((1, 2)));
    assert!(!u.forget_compared((1, 2)));
    u.remove_outcome(&"1,2".to_string());
    assert_eq!(winner_of(&u, "1,2"), None);
}
