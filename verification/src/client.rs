//! The browser side's decisions: pages and their names, why no pair is
//! shown, text and markup for HTML, ordering films by the leaderboard,
//! spotting rank changes, reading the user's vote matrix, searching and
//! selecting films, the comparison page's gestures, and suggestions.
pub mod markup;
pub mod matrix;
pub mod ranking;
pub mod select;
pub mod state;
pub mod suggest;
pub mod swipe;
