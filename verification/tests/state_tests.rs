use filmrank::bt::{find_rating, pair_comparisons, wins_between, BtRating};
use filmrank::handlers::{PairPlan, UnvoteOutcome, VoteOutcome};
use filmrank::models::{Film, PairRequest, SelectionPayload, UnvotePayload, UserState, VotePayload};
use filmrank::persistence::{count_votes, parse_banned, AppState, SaveDecision};

fn film(id: usize, title: &str) -> Film {
    Film {
        id,
        title: title.to_string(),
        team: format!("Team {}", id),
        city: "Boston".to_string(),
        poster_url: String::new(),
        video_url: String::new(),
    }
}

fn state() -> AppState {
    let films = vec![film(1, "One"), film(2, "Two"), film(3, "Three"), film(4, "Four")];
    let ratings = (1..=4).map(BtRating::new).collect();
    AppState::new(films, ratings, Vec::new(), 0, Vec::new())
}

fn vote(s: &mut AppState, user: &str, w: usize, l: usize) -> VoteOutcome {
    s.vote(&VotePayload { user_id: user.to_string(), winner_id: w, loser_id: l })
}

fn unvote(s: &mut AppState, user: &str, w: usize, l: usize) -> UnvoteOutcome {
    s.unvote(&UnvotePayload { user_id: user.to_string(), winner_id: w, loser_id: l })
}

fn comparisons(s: &AppState, f: usize) -> u32 {
    let i = find_rating(&s.bt_ratings, f).unwrap();
    s.bt_ratings[i].comparisons
}

fn winner_of(u: &UserState, key: &str) -> Option<usize> {
    u.find_outcome(&key.to_string()).map(|i| u.vote_outcomes[i].1)
}

#[test]
fn bt_rating_new_has_no_record() {
    let r = BtRating::new(9);
    assert_eq!(r.film_id, 9);
    assert_eq!(r.comparisons, 0);
    assert_eq!(r.wins(), 0);
    assert_eq!(r.losses(), 0);
}

#[test]
fn vote_counts_a_comparison_and_a_win() {
    let mut s = state();
    assert!(matches!(vote(&mut s, "u", 1, 2), VoteOutcome::Recorded));
    assert_eq!(comparisons(&s, 1), 1);
    assert_eq!(comparisons(&s, 2), 1);
    assert_eq!(wins_between(&s.bt_ratings, 1, 2), 1);
    assert_eq!(wins_between(&s.bt_ratings, 2, 1), 0);
    assert_eq!(pair_comparisons(&s.bt_ratings, 1, 2), 1);
    let i = find_rating(&s.bt_ratings, 1).unwrap();
    assert_eq!(s.bt_ratings[i].wins(), 1);
    assert_eq!(s.bt_ratings[i].losses(), 0);
    let j = find_rating(&s.bt_ratings, 2).unwrap();
    assert_eq!(s.bt_ratings[j].losses(), 1);
    assert_eq!(count_votes(&s.users), 1);
    let u = &s.users[0].1;
    assert!(u.has_compared((1, 2)));
    assert_eq!(winner_of(&u, "1,2"), Some(1));
}

#[test]
fn vote_refuses_unknown_or_equal_films() {
    let mut s = state();
    assert!(matches!(vote(&mut s, "u", 1, 9), VoteOutcome::InvalidFilmIds));
    assert!(matches!(vote(&mut s, "u", 2, 2), VoteOutcome::InvalidFilmIds));
    assert!(s.users.is_empty());
    assert_eq!(comparisons(&s, 1), 0);
}

#[test]
fn repeated_vote_changes_nothing() {
    let mut s = state();
    vote(&mut s, "u", 1, 2);
    assert!(matches!(vote(&mut s, "u", 1, 2), VoteOutcome::AlreadyVoted));
    assert_eq!(comparisons(&s, 1), 1);
    assert_eq!(wins_between(&s.bt_ratings, 1, 2), 1);
}

#[test]
fn changed_vote_replaces_the_earlier_one() {
    let mut s = state();
    vote(&mut s, "u", 1, 2);
    assert!(matches!(vote(&mut s, "u", 2, 1), VoteOutcome::Recorded));
    assert_eq!(comparisons(&s, 1), 1);
    assert_eq!(comparisons(&s, 2), 1);
    assert_eq!(wins_between(&s.bt_ratings, 1, 2), 0);
    assert_eq!(wins_between(&s.bt_ratings, 2, 1), 1);
    assert_eq!(count_votes(&s.users), 1);
    assert_eq!(winner_of(&s.users[0].1, "1,2"), Some(2));
}

#[test]
fn unvote_undoes_a_vote() {
    let mut s = state();
    vote(&mut s, "u", 3, 4);
    assert!(matches!(unvote(&mut s, "u", 3, 4), UnvoteOutcome::Removed));
    assert_eq!(comparisons(&s, 3), 0);
    assert_eq!(comparisons(&s, 4), 0);
    assert_eq!(wins_between(&s.bt_ratings, 3, 4), 0);
    assert!(!s.users[0].1.has_compared((3, 4)));
    assert_eq!(winner_of(&s.users[0].1, "3,4"), None);
}

#[test]
fn unvote_reports_unknown_user_and_missing_pair() {
    let mut s = state();
    assert!(matches!(unvote(&mut s, "nobody", 1, 2), UnvoteOutcome::UnknownUser));
    vote(&mut s, "u", 1, 2);
    assert!(matches!(unvote(&mut s, "u", 1, 3), UnvoteOutcome::PairNotFound));
    assert_eq!(comparisons(&s, 1), 1);
}

#[test]
fn pair_plan_lists_uncompared_pairs() {
    let mut s = state();
    let req = PairRequest { user_id: "u".to_string(), focus_film: None };
    assert!(matches!(s.pair_plan(&req), PairPlan::Done { votes: 0 }));
    s.set_selection(&SelectionPayload { user_id: "u".to_string(), film_ids: vec![3, 1, 2] });
    vote(&mut s, "u", 1, 2);
    match s.pair_plan(&req) {
        PairPlan::Choose { votes, seen, remaining } => {
            assert_eq!(votes, 1);
            assert_eq!(seen, vec![3, 1, 2]);
            assert_eq!(remaining, vec![(1, 3), (2, 3)]);
        }
        PairPlan::Done { .. } => panic!("pairs remain"),
    }
    let focused = PairRequest { user_id: "u".to_string(), focus_film: Some(2) };
    match s.pair_plan(&focused) {
        PairPlan::Choose { remaining, .. } => assert_eq!(remaining, vec![(2, 3)]),
        PairPlan::Done { .. } => panic!("a focus pair remains"),
    }
    let unselected = PairRequest { user_id: "u".to_string(), focus_film: Some(4) };
    match s.pair_plan(&unselected) {
        PairPlan::Choose { remaining, .. } => assert_eq!(remaining, vec![(1, 3), (2, 3)]),
        PairPlan::Done { .. } => panic!("the focus is ignored"),
    }
    vote(&mut s, "u", 3, 1);
    vote(&mut s, "u", 3, 2);
    assert!(matches!(s.pair_plan(&req), PairPlan::Done { votes: 3 }));
}

#[test]
fn pair_plan_creates_unknown_users() {
    let mut s = state();
    let req = PairRequest { user_id: "new".to_string(), focus_film: None };
    s.pair_plan(&req);
    assert_eq!(s.users.len(), 1);
    assert_eq!(s.users[0].0, "new");
}

#[test]
fn save_refuses_to_write_fewer_votes_than_on_disk() {
    let mut s = AppState::new(Vec::new(), Vec::new(), Vec::new(), 2, Vec::new());
    match s.save_check() {
        SaveDecision::Refuse { new_votes, min_votes } => {
            assert_eq!(new_votes, 0);
            assert_eq!(min_votes, 2);
        }
        SaveDecision::Write { .. } => panic!("must refuse"),
    }
    s.mark_saved(0);
    assert_eq!(s.votes_on_disk(), 0);
    assert!(matches!(s.save_check(), SaveDecision::Write { new_votes: 0 }));
}

#[test]
fn parse_banned_skips_comments_and_blanks() {
    let ids = parse_banned("# banned users\n  abc  \n\nxyz\r\nabc\n#def\n");
    assert_eq!(ids.len(), 2);
    assert!(ids.contains(&"abc".to_string()));
    assert!(ids.contains(&"xyz".to_string()));
}

#[test]
fn reload_banned_drops_banned_votes_from_the_counts() {
    let mut s = state();
    vote(&mut s, "good", 1, 2);
    vote(&mut s, "bad", 2, 1);
    vote(&mut s, "bad", 3, 4);
    assert_eq!(comparisons(&s, 2), 2);
    assert!(s.reload_banned(vec!["bad".to_string()]));
    assert!(s.is_banned("bad"));
    assert!(!s.is_banned("good"));
    assert_eq!(comparisons(&s, 1), 1);
    assert_eq!(comparisons(&s, 2), 1);
    assert_eq!(comparisons(&s, 3), 0);
    assert_eq!(wins_between(&s.bt_ratings, 1, 2), 1);
    assert_eq!(wins_between(&s.bt_ratings, 2, 1), 0);
    assert!(!s.reload_banned(vec!["bad".to_string()]));
    assert!(s.reload_banned(Vec::new()));
    assert_eq!(comparisons(&s, 2), 2);
    assert_eq!(comparisons(&s, 3), 1);
}

#[test]
fn user_state_default_is_empty() {
    let u = UserState::default();
    assert!(u.seen_films.is_empty() && u.compared_pairs.is_empty() && u.vote_outcomes.is_empty());
}

#[test]
fn unvote_takes_back_the_recorded_winner_whatever_the_request_names() {
    let mut s = state();
    vote(&mut s, "u", 1, 2);
    assert!(matches!(unvote(&mut s, "u", 2, 1), UnvoteOutcome::Removed));
    assert_eq!(wins_between(&s.bt_ratings, 1, 2), 0);
    assert_eq!(wins_between(&s.bt_ratings, 2, 1), 0);
    assert_eq!(comparisons(&s, 1), 0);
    assert_eq!(comparisons(&s, 2), 0);
    assert!(!s.users[0].1.has_compared((1, 2)));
}

#[test]
fn reset_votes_takes_back_every_vote_of_the_user() {
    let mut s = state();
    vote(&mut s, "u", 1, 2);
    vote(&mut s, "u", 3, 1);
    vote(&mut s, "v", 1, 2);
    assert!(s.reset_votes(&"u".to_string()));
    assert_eq!(comparisons(&s, 1), 1);
    assert_eq!(comparisons(&s, 2), 1);
    assert_eq!(comparisons(&s, 3), 0);
    assert_eq!(wins_between(&s.bt_ratings, 1, 2), 1);
    assert_eq!(wins_between(&s.bt_ratings, 3, 1), 0);
    let u = &s.users[0].1;
    assert!(u.compared_pairs.is_empty() && u.vote_outcomes.is_empty());
    assert!(!s.reset_votes(&"nobody".to_string()));
}

#[test]
fn check_well_formed_finds_repeated_entries() {
    let mut s = state();
    vote(&mut s, "u", 1, 2);
    assert!(s.check_well_formed());
    s.users.push(("u".to_string(), UserState::new()));
    assert!(!s.check_well_formed());
    let mut t = state();
    t.films.push(film(1, "Again"));
    assert!(!t.check_well_formed());
}

#[test]
fn vote_fits_check_and_records() {
    let mut s = state();
    let p = VotePayload { user_id: "u".to_string(), winner_id: 1, loser_id: 2 };
    assert!(s.vote_fits_check(&p));
    let i = find_rating(&s.bt_ratings, 1).unwrap();
    s.bt_ratings[i].comparisons = u32::MAX;
    assert!(!s.vote_fits_check(&p));
    let bad = VotePayload { user_id: "u".to_string(), winner_id: 1, loser_id: 1 };
    assert!(s.vote_fits_check(&bad));
    let mut r = BtRating::new(5);
    r.comparisons = 3;
    r.wins_against = vec![(1, 1), (2, 1)];
    assert_eq!(r.record(), Some((2, 1)));
    r.wins_against.push((3, 5));
    assert_eq!(r.record(), None);
    assert_eq!(filmrank::persistence::checked_vote_count(&s.users), Some(0));
    vote(&mut s, "v", 3, 4);
    assert_eq!(filmrank::persistence::checked_vote_count(&s.users), Some(1));
}
