//! Rebuilding the counts from the recorded votes.
//!
//! Each user's recorded outcome (pair key, winner) stands for one vote: the
//! winner over the other film of the pair. Rebuilding the counts means
//! counting every vote of every user who is not banned.
use vstd::prelude::*;
use crate::bt::{
    RatingView, comparisons_of, new_rating, record_vote_fits, record_vote_spec,
    retract_vote_spec, win_count_of,
};
use crate::assoc::{index_of_key, remove_entry, set_entry};
use crate::models::{UserState, outcome_entries, pair_key_spec, parse_pair_key_spec};

verus! {

/// The vote an outcome entry stands for, if its key names a pair: the
/// recorded winner over the other film of the pair.
pub open spec fn outcome_vote(e: (Seq<char>, usize)) -> Option<(usize, usize)> {
    match parse_pair_key_spec(e.0) {
        Some((a, b)) => Some((e.1, if e.1 == a { b } else { a })),
        None => None,
    }
}

/// The counts after the votes of a list of outcomes are counted, in order.
pub open spec fn replay_outcomes(m: Map<usize, RatingView>, o: Seq<(Seq<char>, usize)>) -> Map<
    usize,
    RatingView,
>
    decreases o.len(),
{
    if o.len() == 0 {
        m
    } else {
        let m1 = replay_outcomes(m, o.drop_last());
        match outcome_vote(o.last()) {
            Some((w, l)) => record_vote_spec(m1, w, l),
            None => m1,
        }
    }
}

/// Counting the votes of a list of outcomes overflows no counter.
pub open spec fn outcomes_fit(m: Map<usize, RatingView>, o: Seq<(Seq<char>, usize)>) -> bool
    decreases o.len(),
{
    if o.len() == 0 {
        true
    } else {
        &&& outcomes_fit(m, o.drop_last())
        &&& match outcome_vote(o.last()) {
            Some((w, l)) => record_vote_fits(replay_outcomes(m, o.drop_last()), w, l),
            None => true,
        }
    }
}

/// Each user's id with the user's outcome entries.
pub open spec fn user_outcome_lists(us: Seq<(String, UserState)>) -> Seq<
    (Seq<char>, Seq<(Seq<char>, usize)>),
> {
    us.map_values(|e: (String, UserState)| (e.0@, outcome_entries(e.1.vote_outcomes@)))
}

/// The counts after the votes of every user not in `banned` are counted.
pub open spec fn replay_users(
    m: Map<usize, RatingView>,
    us: Seq<(Seq<char>, Seq<(Seq<char>, usize)>)>,
    banned: Set<Seq<char>>,
) -> Map<usize, RatingView>
    decreases us.len(),
{
    if us.len() == 0 {
        m
    } else {
        let m1 = replay_users(m, us.drop_last(), banned);
        if banned.contains(us.last().0) {
            m1
        } else {
            replay_outcomes(m1, us.last().1)
        }
    }
}

/// Counting the votes of the users not in `banned` overflows no counter.
pub open spec fn users_fit(
    m: Map<usize, RatingView>,
    us: Seq<(Seq<char>, Seq<(Seq<char>, usize)>)>,
    banned: Set<Seq<char>>,
) -> bool
    decreases us.len(),
{
    if us.len() == 0 {
        true
    } else {
        &&& users_fit(m, us.drop_last(), banned)
        &&& (!banned.contains(us.last().0) ==> outcomes_fit(
            replay_users(m, us.drop_last(), banned),
            us.last().1,
        ))
    }
}

/// Every film keeps its entry, with no comparisons.
pub open spec fn reset_ratings(m: Map<usize, RatingView>) -> Map<usize, RatingView> {
    Map::new(|f: usize| m.contains_key(f), |f: usize| new_rating())
}

pub proof fn lemma_outcomes_fit_prefix(m: Map<usize, RatingView>, o: Seq<(Seq<char>, usize)>, k: int)
    requires
        0 <= k <= o.len(),
        outcomes_fit(m, o),
    ensures
        outcomes_fit(m, o.take(k)),
    decreases o.len() - k,
{
    if k == o.len() {
        assert(o.take(k) =~= o);
    } else {
        lemma_outcomes_fit_prefix(m, o.drop_last(), k);
        assert(o.drop_last().take(k) =~= o.take(k));
    }
}

pub proof fn lemma_users_fit_prefix(
    m: Map<usize, RatingView>,
    us: Seq<(Seq<char>, Seq<(Seq<char>, usize)>)>,
    banned: Set<Seq<char>>,
    k: int,
)
    requires
        0 <= k <= us.len(),
        users_fit(m, us, banned),
    ensures
        users_fit(m, us.take(k), banned),
    decreases us.len() - k,
{
    if k == us.len() {
        assert(us.take(k) =~= us);
    } else {
        lemma_users_fit_prefix(m, us.drop_last(), banned, k);
        assert(us.drop_last().take(k) =~= us.take(k));
    }
}

/// The users' outcome lists after user `uid` records `w` as the winner of
/// the pair of `w` and `l` (a new user is appended).
pub open spec fn voted_lists(
    ls: Seq<(Seq<char>, Seq<(Seq<char>, usize)>)>,
    uid: Seq<char>,
    w: usize,
    l: usize,
) -> Seq<(Seq<char>, Seq<(Seq<char>, usize)>)> {
    let i = index_of_key(ls, uid);
    if i >= 0 {
        ls.update(i, (uid, set_entry(ls[i].1, pair_key_spec(w, l), w)))
    } else {
        ls.push((uid, set_entry(Seq::empty(), pair_key_spec(w, l), w)))
    }
}

/// The users' outcome lists after user `uid` drops the outcome of the pair
/// of `w` and `l`.
pub open spec fn unvoted_lists(
    ls: Seq<(Seq<char>, Seq<(Seq<char>, usize)>)>,
    uid: Seq<char>,
    w: usize,
    l: usize,
) -> Seq<(Seq<char>, Seq<(Seq<char>, usize)>)> {
    let i = index_of_key(ls, uid);
    ls.update(i, (uid, remove_entry(ls[i].1, pair_key_spec(w, l))))
}

// ---------------------------------------------------------------------------
// The recorded votes and the counts they give
// ---------------------------------------------------------------------------

/// The votes a list of outcomes stands for, in order.
pub open spec fn outcome_votes(o: Seq<(Seq<char>, usize)>) -> Seq<(usize, usize)>
    decreases o.len(),
{
    if o.len() == 0 {
        Seq::empty()
    } else {
        let r = outcome_votes(o.drop_last());
        match outcome_vote(o.last()) {
            Some(v) => r.push(v),
            None => r,
        }
    }
}

/// The votes of the users not in `banned`, user by user.
pub open spec fn recorded_votes(
    ls: Seq<(Seq<char>, Seq<(Seq<char>, usize)>)>,
    banned: Set<Seq<char>>,
) -> Seq<(usize, usize)>
    decreases ls.len(),
{
    if ls.len() == 0 {
        Seq::empty()
    } else {
        recorded_votes(ls.drop_last(), banned) + user_block(ls.last(), banned)
    }
}

/// The votes one user contributes: none when banned.
pub open spec fn user_block(
    e: (Seq<char>, Seq<(Seq<char>, usize)>),
    banned: Set<Seq<char>>,
) -> Seq<(usize, usize)> {
    if banned.contains(e.0) {
        Seq::empty()
    } else {
        outcome_votes(e.1)
    }
}

/// How many of the votes are `w` over `l`.
pub open spec fn count_pair(v: Seq<(usize, usize)>, w: usize, l: usize) -> nat
    decreases v.len(),
{
    if v.len() == 0 {
        0
    } else {
        count_pair(v.drop_last(), w, l) + if v.last() == (w, l) {
            1nat
        } else {
            0nat
        }
    }
}

/// How many times film `f` takes part in the votes (a vote of `f` over
/// itself counts twice).
pub open spec fn count_film(v: Seq<(usize, usize)>, f: usize) -> nat
    decreases v.len(),
{
    if v.len() == 0 {
        0
    } else {
        count_film(v.drop_last(), f) + (if v.last().0 == f {
            1nat
        } else {
            0nat
        }) + (if v.last().1 == f {
            1nat
        } else {
            0nat
        })
    }
}

/// The counts are those of the votes: every film's number of comparisons is
/// the number of votes it takes part in, and every win count is the number
/// of votes with that winner and loser.
pub open spec fn counts_match(m: Map<usize, RatingView>, v: Seq<(usize, usize)>) -> bool {
    &&& forall|f: usize| #[trigger] comparisons_of(m, f) == count_film(v, f)
    &&& forall|a: usize, b: usize| #[trigger] win_count_of(m, a, b) == count_pair(v, a, b)
}

/// `v2` holds the votes of `v` and one more vote `w` over `l`.
pub open spec fn one_more(v: Seq<(usize, usize)>, v2: Seq<(usize, usize)>, w: usize, l: usize) -> bool {
    &&& forall|a: usize, b: usize| #[trigger] count_pair(v2, a, b) == count_pair(v, a, b) + if (a, b) == (
        w,
        l,
    ) {
        1nat
    } else {
        0nat
    }
    &&& forall|f: usize| #[trigger] count_film(v2, f) == count_film(v, f) + (if w == f {
        1nat
    } else {
        0nat
    }) + (if l == f {
        1nat
    } else {
        0nat
    })
}

pub proof fn lemma_count_concat(a: Seq<(usize, usize)>, b: Seq<(usize, usize)>)
    ensures
        forall|w: usize, l: usize| #[trigger] count_pair(a + b, w, l) == count_pair(a, w, l) + count_pair(b, w, l),
        forall|f: usize| #[trigger] count_film(a + b, f) == count_film(a, f) + count_film(b, f),
    decreases b.len(),
{
    if b.len() == 0 {
        assert(a + b =~= a);
    } else {
        lemma_count_concat(a, b.drop_last());
        assert((a + b).drop_last() =~= a + b.drop_last());
        assert((a + b).last() == b.last());
        assert forall|w: usize, l: usize| #[trigger] count_pair(a + b, w, l) == count_pair(a, w, l) + count_pair(b, w, l) by {
            assert(count_pair(a + b, w, l) == count_pair(a + b.drop_last(), w, l) + if b.last() == (w, l) { 1nat } else { 0nat });
        }
        assert forall|f: usize| #[trigger] count_film(a + b, f) == count_film(a, f) + count_film(b, f) by {
            assert(count_film(a + b, f) == count_film(a + b.drop_last(), f) + (if b.last().0 == f { 1nat } else { 0nat }) + (if b.last().1 == f { 1nat } else { 0nat }));
        }
    }
}

/// Counting one more vote keeps the counts those of the votes.
pub proof fn lemma_record_matches(
    m: Map<usize, RatingView>,
    v: Seq<(usize, usize)>,
    v2: Seq<(usize, usize)>,
    w: usize,
    l: usize,
)
    requires
        counts_match(m, v),
        record_vote_fits(m, w, l),
        one_more(v, v2, w, l),
    ensures
        counts_match(record_vote_spec(m, w, l), v2),
{
    let m2 = record_vote_spec(m, w, l);
    assert forall|f: usize| #[trigger] comparisons_of(m2, f) == count_film(v2, f) by {
        assert(comparisons_of(m, f) == count_film(v, f));
        assert(count_film(v2, f) == count_film(v, f) + (if w == f { 1nat } else { 0nat }) + (if l == f { 1nat } else { 0nat }));
    }
    assert forall|a: usize, b: usize| #[trigger] win_count_of(m2, a, b) == count_pair(v2, a, b) by {
        assert(win_count_of(m, a, b) == count_pair(v, a, b));
        assert(count_pair(v2, a, b) == count_pair(v, a, b) + if (a, b) == (w, l) { 1nat } else { 0nat });
    }
}

/// Withdrawing a vote that is among the votes keeps the counts those of the
/// remaining votes.
pub proof fn lemma_retract_matches(
    m: Map<usize, RatingView>,
    v: Seq<(usize, usize)>,
    v2: Seq<(usize, usize)>,
    w: usize,
    l: usize,
)
    requires
        counts_match(m, v2),
        one_more(v, v2, w, l),
    ensures
        counts_match(retract_vote_spec(m, w, l), v),
{
    let m2 = retract_vote_spec(m, w, l);
    assert(count_film(v2, w) >= 1);
    assert(count_film(v2, l) >= 1);
    assert(comparisons_of(m, w) >= 1);
    assert(m.contains_key(w));
    assert(comparisons_of(m, l) >= 1);
    assert(m.contains_key(l));
    assert(count_pair(v2, w, l) >= 1);
    assert forall|f: usize| #[trigger] comparisons_of(m2, f) == count_film(v, f) by {
        assert(comparisons_of(m, f) == count_film(v2, f));
        assert(count_film(v2, f) == count_film(v, f) + (if w == f { 1nat } else { 0nat }) + (if l == f { 1nat } else { 0nat }));
    }
    assert forall|a: usize, b: usize| #[trigger] win_count_of(m2, a, b) == count_pair(v, a, b) by {
        assert(win_count_of(m, a, b) == count_pair(v2, a, b));
        assert(count_pair(v2, a, b) == count_pair(v, a, b) + if (a, b) == (w, l) { 1nat } else { 0nat });
    }
}

} // verus!
