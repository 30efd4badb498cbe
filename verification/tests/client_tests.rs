use filmrank::client::markup::{html_escape, poster_html, short_title};
use filmrank::client::matrix::{
    cell_action, find_legacy, find_winner, possible_pairs, user_cell, wins_lookup, CellAction,
    UserCell,
};
use filmrank::client::ranking::{board_order, find_last, overtakes};
use filmrank::client::state::{
    initial_page, pair_done_reason, str_equals, strip_hashes, Page, PairDoneReason,
};

#[test]
fn html_escape_replaces_markup_characters() {
    assert_eq!(html_escape("a<b>&\"c\"'"), "a&lt;b&gt;&amp;&quot;c&quot;'");
    assert_eq!(html_escape(""), "");
    assert_eq!(html_escape("&amp;"), "&amp;amp;");
}

#[test]
fn short_title_cuts_after_eleven_characters() {
    assert_eq!(short_title("The Long Goodbye"), "The Long Go\u{2026}");
    assert_eq!(short_title("Elevenchars"), "Elevenchars");
    assert_eq!(short_title("Ünïcödé ünïcödé"), "Ünïcödé ünï\u{2026}");
}

#[test]
fn poster_html_uses_a_placeholder_when_needed() {
    assert_eq!(poster_html("", false), "<div class=\"poster-ph\">&#127916;</div>");
    assert_eq!(poster_html("x.jpg", true), "<div class=\"poster-ph\">&#127916;</div>");
    assert_eq!(poster_html("a\"b.jpg", false), "<img class=\"poster\" src=\"a&quot;b.jpg\">");
}

#[test]
fn page_names_round_trip() {
    for p in [Page::Select, Page::Swipe, Page::Board, Page::More] {
        assert!(Page::from_str(p.as_str()) == Some(p));
    }
    assert!(Page::from_str("stats") == Some(Page::More));
    assert!(Page::from_str("Board").is_none());
    assert_eq!(Page::Board.as_str(), "board");
}

#[test]
fn initial_page_follows_the_location_then_the_selection() {
    assert!(initial_page("#board", 0) == Page::Board);
    assert!(initial_page("##more", 0) == Page::More);
    assert!(initial_page("", 0) == Page::Select);
    assert!(initial_page("#nowhere", 3) == Page::Swipe);
    assert_eq!(strip_hashes("##a#b"), "a#b");
    assert!(str_equals("abc", "abc"));
    assert!(!str_equals("abc", "abd"));
}

#[test]
fn pair_done_reason_explains_an_empty_pair() {
    assert!(pair_done_reason(1, true) == PairDoneReason::NotEnough);
    assert!(pair_done_reason(2, true) == PairDoneReason::FocusDone);
    assert!(pair_done_reason(5, false) == PairDoneReason::AllDone);
}

#[test]
fn board_order_sorts_by_rank_and_keeps_ties() {
    let board = vec![30, 10, 20];
    let ids = vec![10, 99, 20, 30, 98];
    assert_eq!(board_order(&ids, &board), vec![3, 0, 2, 1, 4]);
    assert_eq!(board_order(&Vec::new(), &board), Vec::<usize>::new());
    assert_eq!(find_last(&vec![5, 6, 5], 5), Some(2));
    assert_eq!(find_last(&vec![5, 6, 5], 7), None);
}

#[test]
fn overtakes_report_films_that_moved_up() {
    let prev = vec![1, 2, 3, 4];
    let board = vec![2, 1, 4, 3];
    assert_eq!(overtakes(&prev, &board), vec![0, 2]);
    assert_eq!(overtakes(&prev, &prev), Vec::<usize>::new());
    assert_eq!(overtakes(&Vec::new(), &board), Vec::<usize>::new());
    let rise = vec![3, 1, 2, 4];
    assert_eq!(overtakes(&prev, &rise), vec![0]);
}

#[test]
fn user_cells_read_the_last_vote() {
    let votes = vec![(2, 1, 2), (5, 3, 5), (1, 2, 1)];
    let legacy = vec![(4, 1)];
    assert_eq!(find_winner(&votes, 1, 2), Some(1));
    assert_eq!(find_winner(&votes, 3, 5), Some(5));
    assert_eq!(find_winner(&votes, 1, 4), None);
    assert!(find_legacy(&legacy, 1, 4));
    assert!(user_cell(&votes, &legacy, 1, 2) == UserCell::Win);
    assert!(user_cell(&votes, &legacy, 2, 1) == UserCell::Loss);
    assert!(user_cell(&votes, &legacy, 4, 1) == UserCell::Legacy);
    assert!(user_cell(&votes, &legacy, 2, 4) == UserCell::Empty);
    assert_eq!(UserCell::Win.text(), "W");
    assert_eq!(UserCell::Loss.text(), "L");
    assert_eq!(UserCell::Legacy.text(), "?");
    assert_eq!(UserCell::Empty.text(), "");
}

#[test]
fn cell_actions_toggle_votes() {
    let votes = vec![(3, 5, 5)];
    assert!(cell_action(&votes, 3, 5) == CellAction::Unvote { winner: 5, loser: 3 });
    assert!(cell_action(&votes, 5, 3) == CellAction::Unvote { winner: 5, loser: 3 });
    assert!(cell_action(&votes, 3, 4) == CellAction::Vote { winner: 3, loser: 4 });
}

#[test]
fn wins_lookup_and_possible_pairs() {
    let wins = vec![(1, 2, 4), (2, 1, 1), (1, 2, 6)];
    assert_eq!(wins_lookup(&wins, 1, 2), 6);
    assert_eq!(wins_lookup(&wins, 2, 1), 1);
    assert_eq!(wins_lookup(&wins, 3, 1), 0);
    assert_eq!(possible_pairs(0), 0);
    assert_eq!(possible_pairs(1), 0);
    assert_eq!(possible_pairs(5), 10);
}
