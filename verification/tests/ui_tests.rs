use filmrank::client::markup::{board_row_html, html_escape, poster_html};
use filmrank::client::select::{film_matches, select_matching};
use filmrank::client::suggest::suggestion_issue;
use filmrank::client::swipe::{swipe_step, Pending, SwipeAction, SwipeEvent, SwipeState};
use filmrank::models::Film;

fn expected_row(rank: usize, id: usize, poster: &str, title: &str, team: &str, city: &str, video: &str, rating: i64, wins: u32, losses: u32) -> String {
    let city = if city.is_empty() { String::new() } else { format!(" &middot; {}", html_escape(city)) };
    let video = if video.is_empty() {
        String::new()
    } else {
        format!(r#" &middot; <a href="{}" target="_blank" class="board-video">Watch</a>"#, html_escape(video))
    };
    format!(
        r#"<div class="board-item" data-film-id="{}">
                            <div class="board-rank">{}</div>
                            {}
                            <div class="board-info">
                                <div class="board-title">{}</div>
                                <div class="board-meta">{}{}{}</div>
                            </div>
                            <div class="board-stats">
                                <div class="board-score">{}</div>
                                <div class="board-record">{}W - {}L</div>
                            </div>
                        </div>"#,
        id,
        rank,
        poster_html(poster, false),
        html_escape(title),
        html_escape(team),
        city,
        video,
        rating,
        wins,
        losses,
    )
}

#[test]
fn board_row_matches_the_board_markup() {
    let got = board_row_html(3, 17, "p.jpg", false, "A <b>", "T&T", "Paris", "https://v", 1523, 4, 2);
    assert_eq!(got, expected_row(3, 17, "p.jpg", "A <b>", "T&T", "Paris", "https://v", 1523, 4, 2));
    assert!(got.contains("<div class=\"board-title\">A &lt;b&gt;</div>"));
    let plain = board_row_html(1, 2, "", false, "X", "Y", "", "", -7, 0, 0);
    assert_eq!(plain, expected_row(1, 2, "", "X", "Y", "", "", -7, 0, 0));
    assert!(plain.contains("<div class=\"board-meta\">Y</div>"));
    assert!(plain.contains("<div class=\"board-score\">-7</div>"));
}

#[test]
fn suggestion_issue_for_a_new_film() {
    let (t, b) = suggestion_issue(None, "  My Film ", "Crew", "", " http://p ", "").unwrap();
    assert_eq!(t, "New film:   My Film ");
    assert_eq!(b, "## New film suggestion\n\n- **Title:** My Film\n- **Team:** Crew\n- **Poster URL:** http://p\n");
    let (t2, _) = suggestion_issue(None, " ", "Crew", "", "", "").unwrap();
    assert_eq!(t2, "New film: Crew");
}

#[test]
fn suggestion_issue_for_a_correction() {
    let (t, b) = suggestion_issue(Some("Old Title"), "", "", "Boston", "", "https://v").unwrap();
    assert_eq!(t, "Correction: Old Title");
    assert_eq!(b, "## Suggested correction\n\n- **City:** Boston\n- **Video URL:** https://v\n");
    assert!(suggestion_issue(Some("X"), " ", "", "City", "poster", "\t").is_none());
}

fn film(id: usize, title: &str, team: &str, city: &str) -> Film {
    Film {
        id,
        title: title.to_string(),
        team: team.to_string(),
        city: city.to_string(),
        poster_url: String::new(),
        video_url: String::new(),
    }
}

#[test]
fn film_matches_any_field_ignoring_case() {
    let f = film(1, "Night OWL", "Team Ärger", "Boston");
    assert!(film_matches(&f, "owl"));
    assert!(film_matches(&f, "ÄRGER"));
    assert!(film_matches(&f, "bos"));
    assert!(film_matches(&f, ""));
    assert!(!film_matches(&f, "paris"));
}

#[test]
fn select_matching_adds_matches_once() {
    let films = vec![film(1, "Alpha", "x", ""), film(2, "Beta", "y", ""), film(3, "alphabet", "z", "")];
    let mut sel = vec![3, 9];
    select_matching(&mut sel, &films, "ALPHA");
    sel.sort();
    assert_eq!(sel, vec![1, 3, 9]);
    let mut all = Vec::new();
    select_matching(&mut all, &films, "");
    assert_eq!(all, vec![1, 2, 3]);
}

fn idle() -> SwipeState {
    SwipeState { animating: None, dragging: false, start_x: 0, dx: 0, did_drag: false }
}

#[test]
fn swipe_pick_then_vote() {
    let pair = Some((10, 20));
    let (s1, a1) = swipe_step(idle(), SwipeEvent::Pick { right: true }, pair, true, true);
    assert!(a1 == SwipeAction::FlyOut { right: true });
    assert!(s1.animating == Some(Pending::Vote { winner: 20, loser: 10 }));
    let (s2, a2) = swipe_step(s1, SwipeEvent::Key { right: false }, pair, true, true);
    assert!(a2 == SwipeAction::Nothing && s2 == s1);
    let (s3, a3) = swipe_step(s1, SwipeEvent::AnimationDone, pair, true, true);
    assert!(a3 == SwipeAction::CastVote { winner: 20, loser: 10 });
    assert!(s3.animating.is_none());
    let (_, a4) = swipe_step(idle(), SwipeEvent::Pick { right: false }, None, true, true);
    assert!(a4 == SwipeAction::Nothing);
    let (_, a5) = swipe_step(idle(), SwipeEvent::Key { right: false }, pair, true, false);
    assert!(a5 == SwipeAction::Nothing);
}

#[test]
fn swipe_drag_far_enough_picks() {
    let pair = Some((1, 2));
    let (s1, a1) = swipe_step(idle(), SwipeEvent::PointerDown { x: 100, in_arena: true, on_deselect: false }, pair, true, true);
    assert!(a1 == SwipeAction::StartDrag && s1.dragging);
    let (s2, a2) = swipe_step(s1, SwipeEvent::PointerMove { x: 10 }, pair, true, true);
    assert!(a2 == SwipeAction::DragTo { dx: -90 } && s2.did_drag);
    let (s3, a3) = swipe_step(s2, SwipeEvent::PointerUp, pair, true, true);
    assert!(a3 == SwipeAction::FlyOut { right: false });
    assert!(s3.animating == Some(Pending::Vote { winner: 1, loser: 2 }) && !s3.dragging);
    let (s4, _) = swipe_step(idle(), SwipeEvent::PointerDown { x: 0, in_arena: true, on_deselect: false }, pair, true, true);
    let (s5, _) = swipe_step(s4, SwipeEvent::PointerMove { x: 50 }, pair, true, true);
    let (s6, a6) = swipe_step(s5, SwipeEvent::PointerUp, pair, true, true);
    assert!(a6 == SwipeAction::SnapBack && s6.animating.is_none());
    let (_, a7) = swipe_step(idle(), SwipeEvent::PointerDown { x: 0, in_arena: true, on_deselect: true }, pair, true, true);
    assert!(a7 == SwipeAction::Nothing);
}

#[test]
fn swipe_skip_and_undo() {
    let (s1, a1) = swipe_step(idle(), SwipeEvent::Skip, None, false, true);
    assert!(a1 == SwipeAction::SkipOut);
    let (_, a2) = swipe_step(s1, SwipeEvent::AnimationDone, None, false, true);
    assert!(a2 == SwipeAction::LoadPair);
    let (_, a3) = swipe_step(idle(), SwipeEvent::Undo { history_empty: true }, None, true, true);
    assert!(a3 == SwipeAction::Nothing);
    let (s4, a4) = swipe_step(idle(), SwipeEvent::Undo { history_empty: false }, None, true, true);
    assert!(a4 == SwipeAction::UndoOut);
    let (_, a5) = swipe_step(s4, SwipeEvent::AnimationDone, None, true, true);
    assert!(a5 == SwipeAction::UndoVote);
}

#[test]
fn done_texts_and_film_meta() {
    use_done_text();
    assert_eq!(filmrank::client::state::film_meta("Crew", ""), "Crew");
    assert_eq!(filmrank::client::state::film_meta("Crew", "Oslo"), "Crew \u{00B7} Oslo");
}

fn use_done_text() {
    let (h, m, b) = filmrank::client::state::done_text(filmrank::client::state::PairDoneReason::AllDone, 12);
    assert_eq!(h, "All done!");
    assert_eq!(m, "You've compared all possible pairs. (12 votes cast)");
    assert_eq!(b, "View Leaderboard");
    let (h2, m2, b2) = filmrank::client::state::done_text(filmrank::client::state::PairDoneReason::NotEnough, 0);
    assert_eq!(h2, "Select films first");
    assert_eq!(m2, "Go back and pick at least 2 films you've watched.");
    assert_eq!(b2, "Select Films");
    let (h3, m3, b3) = filmrank::client::state::done_text(filmrank::client::state::PairDoneReason::FocusDone, 3);
    assert_eq!(h3, "All done!");
    assert_eq!(m3, "You've compared this film against all others.");
    assert_eq!(b3, "Compare All");
}

#[test]
fn overtake_toast_text() {
    assert_eq!(
        filmrank::client::ranking::overtake_toast("A&B", "<C>", 2),
        "\u{2B06}\u{FE0F} <strong>A&amp;B</strong> overtook <strong>&lt;C&gt;</strong> \u{2192} #2"
    );
}
