//! Reading a vote matrix: what a cell of the user's matrix shows, what a tap
//! on it asks the server to do, and the win counts of the global matrix.
use vstd::prelude::*;
use crate::models::canonical;

verus! {

/// What a cell of the user's matrix shows.
#[derive(PartialEq, Eq, Structural, Clone, Copy)]
pub enum UserCell {
    /// The row film won the pair.
    Win,
    /// The column film won the pair.
    Loss,
    /// The pair was compared before outcomes were kept.
    Legacy,
    /// The pair has not been compared.
    Empty,
}

impl UserCell {
    /// The text in the cell.
    pub fn text(&self) -> (t: &'static str)
        ensures
            t@ == (match *self {
                UserCell::Win => "W"@,
                UserCell::Loss => "L"@,
                UserCell::Legacy => "?"@,
                UserCell::Empty => ""@,
            }),
    {
        proof {
            reveal_strlit("W");
            reveal_strlit("L");
            reveal_strlit("?");
            reveal_strlit("");
        }
        match self {
            UserCell::Win => "W",
            UserCell::Loss => "L",
            UserCell::Legacy => "?",
            UserCell::Empty => "",
        }
    }
}

/// The winner the last vote on the pair `(lo, hi)` records, if any vote
/// does; votes are `(film_a, film_b, winner)` in either order of the films.
pub open spec fn recorded_winner(votes: Seq<(usize, usize, usize)>, lo: usize, hi: usize) -> Option<usize>
    decreases votes.len(),
{
    if votes.len() == 0 {
        None
    } else if canonical(votes.last().0, votes.last().1) == (lo, hi) {
        Some(votes.last().2)
    } else {
        recorded_winner(votes.drop_last(), lo, hi)
    }
}

/// Whether some legacy comparison is of the pair `(lo, hi)`.
pub open spec fn has_legacy(legacy: Seq<(usize, usize)>, lo: usize, hi: usize) -> bool {
    exists|j: int| 0 <= j < legacy.len() && canonical(legacy[j].0, legacy[j].1) == (lo, hi)
}

/// What the cell of film `row` against film `col` shows.
pub open spec fn user_cell_spec(votes: Seq<(usize, usize, usize)>, legacy: Seq<(usize, usize)>, row: usize, col: usize) -> UserCell {
    let k = canonical(row, col);
    match recorded_winner(votes, k.0, k.1) {
        Some(w) => if w == row {
            UserCell::Win
        } else {
            UserCell::Loss
        },
        None => if has_legacy(legacy, k.0, k.1) {
            UserCell::Legacy
        } else {
            UserCell::Empty
        },
    }
}

/// The winner the last vote on the pair of `a` and `b` records.
pub fn find_winner(votes: &Vec<(usize, usize, usize)>, a: usize, b: usize) -> (r: Option<usize>)
    ensures
        r == recorded_winner(votes@, canonical(a, b).0, canonical(a, b).1),
{
    let k = crate::models::canonical_pair(a, b);
    let n = votes.len();
    let mut found: Option<usize> = None;
    for i in 0..n
        invariant
            n == votes@.len(),
            k == canonical(a, b),
            found == recorded_winner(votes@.take(i as int), k.0, k.1),
    {
        assert(votes@.take(i as int + 1).drop_last() =~= votes@.take(i as int));
        let v = votes[i];
        let kv = crate::models::canonical_pair(v.0, v.1);
        if kv.0 == k.0 && kv.1 == k.1 {
            found = Some(v.2);
        }
    }
    assert(votes@.take(n as int) =~= votes@);
    found
}

/// Whether some legacy comparison is of the pair of `a` and `b`.
pub fn find_legacy(legacy: &Vec<(usize, usize)>, a: usize, b: usize) -> (r: bool)
    ensures
        r == has_legacy(legacy@, canonical(a, b).0, canonical(a, b).1),
{
    let k = crate::models::canonical_pair(a, b);
    let n = legacy.len();
    for i in 0..n
        invariant
            n == legacy@.len(),
            k == canonical(a, b),
            forall|j: int| 0 <= j < i ==> canonical(legacy@[j].0, legacy@[j].1) != k,
    {
        let l = legacy[i];
        let kl = crate::models::canonical_pair(l.0, l.1);
        if kl.0 == k.0 && kl.1 == k.1 {
            assert(canonical(legacy@[i as int].0, legacy@[i as int].1) == k);
            return true;
        }
    }
    false
}

/// What the cell of film `row` against film `col` shows: the last recorded
/// vote on the pair, else a legacy comparison, else nothing.
pub fn user_cell(votes: &Vec<(usize, usize, usize)>, legacy: &Vec<(usize, usize)>, row: usize, col: usize) -> (c: UserCell)
    ensures
        c == user_cell_spec(votes@, legacy@, row, col),
{
    match find_winner(votes, row, col) {
        Some(w) => if w == row {
            UserCell::Win
        } else {
            UserCell::Loss
        },
        None => if find_legacy(legacy, row, col) {
            UserCell::Legacy
        } else {
            UserCell::Empty
        },
    }
}

/// What a tap on a cell asks of the server.
#[derive(PartialEq, Eq, Structural, Clone, Copy)]
pub enum CellAction {
    /// Remove the recorded vote with this winner and loser.
    Unvote { winner: usize, loser: usize },
    /// Record a vote with this winner and loser.
    Vote { winner: usize, loser: usize },
}

/// The request a tap on the cell of `row` against `col` makes.
pub open spec fn cell_action_spec(votes: Seq<(usize, usize, usize)>, row: usize, col: usize) -> CellAction {
    let k = canonical(row, col);
    match recorded_winner(votes, k.0, k.1) {
        Some(w) => CellAction::Unvote { winner: w, loser: if w == row { col } else { row } },
        None => CellAction::Vote { winner: row, loser: col },
    }
}

/// A tap on a cell removes the recorded vote on the pair, or, where there is
/// none, records that the row film won.
pub fn cell_action(votes: &Vec<(usize, usize, usize)>, row: usize, col: usize) -> (a: CellAction)
    ensures
        a == cell_action_spec(votes@, row, col),
{
    match find_winner(votes, row, col) {
        Some(w) => CellAction::Unvote { winner: w, loser: if w == row { col } else { row } },
        None => CellAction::Vote { winner: row, loser: col },
    }
}

/// The count of the last entry for `winner` over `loser` in a list of win
/// counts, or 0 where there is none.
pub open spec fn win_count_in(wins: Seq<(usize, usize, u32)>, winner: usize, loser: usize) -> u32
    decreases wins.len(),
{
    if wins.len() == 0 {
        0
    } else if wins.last().0 == winner && wins.last().1 == loser {
        wins.last().2
    } else {
        win_count_in(wins.drop_last(), winner, loser)
    }
}

/// How often `winner` beat `loser` by the global matrix's win list.
pub fn wins_lookup(wins: &Vec<(usize, usize, u32)>, winner: usize, loser: usize) -> (c: u32)
    ensures
        c == win_count_in(wins@, winner, loser),
{
    let n = wins.len();
    let mut c: u32 = 0;
    for i in 0..n
        invariant
            n == wins@.len(),
            c == win_count_in(wins@.take(i as int), winner, loser),
    {
        assert(wins@.take(i as int + 1).drop_last() =~= wins@.take(i as int));
        let w = wins[i];
        if w.0 == winner && w.1 == loser {
            c = w.2;
        }
    }
    assert(wins@.take(n as int) =~= wins@);
    c
}

/// The number of pairs among `films` films: `films * (films - 1) / 2`.
pub fn possible_pairs(films: u64) -> (p: u64)
    requires
        films * (if films == 0 { 0 } else { films - 1 }) <= u64::MAX,
    ensures
        p == films * (if films == 0 { 0 } else { films - 1 }) / 2,
{
    let less: u64 = if films == 0 { 0 } else { films - 1 };
    films * less / 2
}

} // verus!
