use filmrank::bt::BtRating;
use filmrank::models::{Film, UserState, VotePayload};
use filmrank::persistence::AppState;
use filmrank::views::{leaderboard_csv, ranked_films, CsvRow, MIN_VOTERS, MIN_VOTES};

fn film(id: usize, title: &str) -> Film {
    Film {
        id,
        title: title.to_string(),
        team: format!("Team {}", id),
        city: "Boston".to_string(),
        poster_url: String::new(),
        video_url: String::new(),
    }
}

fn voted_state() -> AppState {
    let films = vec![film(1, "One"), film(2, "Two"), film(3, "Three")];
    let ratings = (1..=3).map(BtRating::new).collect();
    let mut s = AppState::new(films, ratings, Vec::new(), 0, Vec::new());
    for (u, w, l) in [("a", 1, 2), ("a", 1, 3), ("b", 2, 1), ("c", 3, 2)] {
        s.vote(&VotePayload { user_id: u.to_string(), winner_id: w, loser_id: l });
    }
    s.users.push(("idle".to_string(), UserState::new()));
    s
}

#[test]
fn stats_count_users_votes_and_films() {
    let s = voted_state();
    let st = s.stats();
    assert_eq!(st.total_users, 4);
    assert_eq!(st.active_users, 3);
    assert_eq!(st.total_votes, 4);
    assert_eq!(st.total_films, 3);
    assert_eq!(st.films_with_votes, 3);
}

#[test]
fn global_matrix_lists_positive_wins() {
    let s = voted_state();
    let g = s.global_matrix();
    assert_eq!(g.film_ids, vec![1, 2, 3]);
    assert_eq!(g.films, vec![(1, "One".to_string()), (2, "Two".to_string()), (3, "Three".to_string())]);
    let mut wins = g.wins.clone();
    wins.sort();
    assert_eq!(wins, vec![(1, 2, 1), (1, 3, 1), (2, 1, 1), (3, 2, 1)]);
}

#[test]
fn user_matrix_shows_one_users_votes() {
    let mut s = voted_state();
    s.users[0].1.mark_compared((2, 3));
    let m = s.user_matrix(&"a".to_string()).unwrap();
    assert_eq!(m.film_ids, vec![1, 2, 3]);
    let mut votes = m.votes.clone();
    votes.sort();
    assert_eq!(votes, vec![(1, 2, 1), (1, 3, 1)]);
    assert_eq!(m.legacy, vec![(2, 3)]);
    assert_eq!(m.films.len(), 3);
    assert!(s.user_matrix(&"nobody".to_string()).is_none());
}

#[test]
fn user_contributions_rank_by_votes() {
    let s = voted_state();
    let c = s.user_contributions(&"b".to_string());
    assert_eq!(c.len(), 3);
    assert_eq!(c[0].label, "User 1");
    assert_eq!(c[0].votes, 2);
    assert!(!c[0].is_you);
    assert_eq!(c[1].label, "You");
    assert!(c[1].is_you);
    assert_eq!(c[1].votes, 1);
    assert_eq!(c[2].label, "User 3");
    assert_eq!(c[2].votes, 1);
}

#[test]
fn ranked_films_need_votes_from_enough_voters() {
    assert_eq!(MIN_VOTES, 10);
    assert_eq!(MIN_VOTERS, 2);
    let films = vec![film(1, "One"), film(2, "Two"), film(3, "Three")];
    let ratings = (1..=3).map(BtRating::new).collect();
    let mut s = AppState::new(films, ratings, Vec::new(), 0, Vec::new());
    for k in 0..10 {
        let u = format!("user{}", k);
        s.vote(&VotePayload { user_id: u.clone(), winner_id: 1, loser_id: 2 });
    }
    s.vote(&VotePayload { user_id: "x".to_string(), winner_id: 3, loser_id: 1 });
    let ids = ranked_films(&s.bt_ratings, &s.users);
    assert_eq!(ids, vec![1, 2]);
    let few = ranked_films(&s.bt_ratings[..1].to_vec(), &s.users[..1].to_vec());
    assert!(few.is_empty());
}

#[test]
fn leaderboard_csv_quotes_and_escapes() {
    let mut f = film(1, "Say \"Hi\"");
    f.city = "Paris, TX".to_string();
    let films = vec![f];
    let rows = vec![
        CsvRow { film_id: 1, rating: "1523".to_string(), wins: 3, losses: 1, comparisons: 4 },
        CsvRow { film_id: 8, rating: "1400".to_string(), wins: 0, losses: 2, comparisons: 2 },
    ];
    let csv = leaderboard_csv(&films, &rows);
    assert_eq!(
        csv,
        "Rank,Title,Team,City,Rating,Wins,Losses,Comparisons\n\
         1,\"Say \"\"Hi\"\"\",\"Team 1\",\"Paris, TX\",1523,3,1,4\n\
         2,\"?\",\"?\",\"?\",1400,0,2,2\n"
    );
}
