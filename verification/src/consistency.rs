//! The counts and the recorded votes agree: rebuilding the counts gives the
//! counts of the recorded votes, and voting and withdrawing a vote keep the
//! two in step.
use vstd::prelude::*;
use crate::assoc::{
    assoc_map, distinct_keys, index_of_key, keys_of, lemma_assoc_dom, lemma_assoc_get,
    lemma_index_of_key, remove_entry, set_entry,
};
use crate::bt::{
    BtRating, RatingView, comparisons_of, new_rating, rating_entries, ratings_map, ratings_wf,
    record_vote_fits, record_vote_spec, retract_vote_spec, win_count_of,
};
use crate::handlers::{
    other_of, previous_winner, unvote_spec, withdrawn_vote, user_or_new, vote_fits, vote_spec, vote_valid,
    without_previous,
};
use crate::models::{canonical, outcome_entries, pair_key_round_trip, pair_key_spec};
use crate::persistence::{AppState, StateView, user_entries, users_map, users_wf};
use crate::tally::{
    count_film, count_pair, counts_match, lemma_count_concat, lemma_record_matches,
    lemma_retract_matches, one_more, outcome_vote, outcome_votes, outcomes_fit, recorded_votes,
    replay_outcomes, replay_users, reset_ratings, unvoted_lists, user_block,
    user_outcome_lists, users_fit, voted_lists,
};

verus! {

proof fn lemma_one_more_middle(a: Seq<(usize, usize)>, c: Seq<(usize, usize)>, x: (usize, usize))
    ensures
        one_more(a + c, a + seq![x] + c, x.0, x.1),
{
    lemma_count_concat(a, c);
    lemma_count_concat(a, seq![x]);
    lemma_count_concat(a + seq![x], c);
    let s = seq![x];
    let e = Seq::<(usize, usize)>::empty();
    assert(s.drop_last() =~= e);
    assert forall|p: usize, q: usize| #[trigger] count_pair(s, p, q) == (if (p, q) == (x.0, x.1) { 1nat } else { 0nat }) by {
        assert(count_pair(e, p, q) == 0);
        assert(count_pair(s, p, q) == count_pair(s.drop_last(), p, q) + (if s.last() == (p, q) { 1nat } else { 0nat }));
    }
    assert forall|f: usize| #[trigger] count_film(s, f) == (if x.0 == f { 1nat } else { 0nat }) + (if x.1 == f { 1nat } else { 0nat }) by {
        assert(count_film(e, f) == 0);
        assert(count_film(s, f) == count_film(s.drop_last(), f) + (if s.last().0 == f { 1nat } else { 0nat }) + (if s.last().1 == f { 1nat } else { 0nat }));
    }
}

proof fn lemma_outcome_votes_concat(a: Seq<(Seq<char>, usize)>, b: Seq<(Seq<char>, usize)>)
    ensures
        outcome_votes(a + b) == outcome_votes(a) + outcome_votes(b),
    decreases b.len(),
{
    if b.len() == 0 {
        assert(a + b =~= a);
        assert(outcome_votes(a) + outcome_votes(b) =~= outcome_votes(a));
    } else {
        lemma_outcome_votes_concat(a, b.drop_last());
        assert((a + b).drop_last() =~= a + b.drop_last());
        match outcome_vote(b.last()) {
            Some(v) => {
                assert(outcome_votes(a + b) =~= outcome_votes(a) + outcome_votes(b));
            },
            None => {},
        }
    }
}

proof fn lemma_recorded_concat(
    a: Seq<(Seq<char>, Seq<(Seq<char>, usize)>)>,
    b: Seq<(Seq<char>, Seq<(Seq<char>, usize)>)>,
    banned: Set<Seq<char>>,
)
    ensures
        recorded_votes(a + b, banned) == recorded_votes(a, banned) + recorded_votes(b, banned),
    decreases b.len(),
{
    if b.len() == 0 {
        assert(a + b =~= a);
        assert(recorded_votes(a, banned) + recorded_votes(b, banned) =~= recorded_votes(a, banned));
    } else {
        lemma_recorded_concat(a, b.drop_last(), banned);
        assert((a + b).drop_last() =~= a + b.drop_last());
        assert(recorded_votes(a + b, banned) =~= recorded_votes(a, banned) + recorded_votes(
            b,
            banned,
        ));
    }
}

proof fn lemma_recorded_single(e: (Seq<char>, Seq<(Seq<char>, usize)>), banned: Set<Seq<char>>)
    ensures
        recorded_votes(seq![e], banned) == user_block(e, banned),
{
    let z = Seq::<(Seq<char>, Seq<(Seq<char>, usize)>)>::empty();
    assert(seq![e].drop_last() =~= z);
    assert(recorded_votes(z, banned) == Seq::<(usize, usize)>::empty());
    assert(recorded_votes(seq![e], banned) == recorded_votes(seq![e].drop_last(), banned) + user_block(seq![e].last(), banned));
    assert(recorded_votes(seq![e], banned) =~= user_block(e, banned));
}

proof fn lemma_outcome_votes_single(e: (Seq<char>, usize))
    ensures
        outcome_votes(seq![e]) == (match outcome_vote(e) {
            Some(v) => seq![v],
            None => Seq::<(usize, usize)>::empty(),
        }),
{
    let z = Seq::<(Seq<char>, usize)>::empty();
    assert(seq![e].drop_last() =~= z);
    assert(outcome_votes(z) == Seq::<(usize, usize)>::empty());
    assert(outcome_votes(seq![e].drop_last()) == Seq::<(usize, usize)>::empty());
    match outcome_vote(e) {
        Some(v) => {
            assert(outcome_votes(seq![e]) =~= seq![v]);
        },
        None => {
            assert(outcome_votes(seq![e]) =~= Seq::<(usize, usize)>::empty());
        },
    }
}

/// Replacing user `i`'s block by one with one more vote gives one more vote
/// in all.
proof fn lemma_one_more_at(
    ls: Seq<(Seq<char>, Seq<(Seq<char>, usize)>)>,
    i: int,
    x: (Seq<char>, Seq<(Seq<char>, usize)>),
    banned: Set<Seq<char>>,
    w: usize,
    l: usize,
)
    requires
        0 <= i < ls.len(),
        one_more(user_block(ls[i], banned), user_block(x, banned), w, l),
    ensures
        one_more(recorded_votes(ls, banned), recorded_votes(ls.update(i, x), banned), w, l),
{
    let a = ls.take(i);
    let c = ls.skip(i + 1);
    assert(ls =~= a + seq![ls[i]] + c);
    assert(ls.update(i, x) =~= a + seq![x] + c);
    lemma_recorded_concat(a + seq![ls[i]], c, banned);
    lemma_recorded_concat(a, seq![ls[i]], banned);
    lemma_recorded_concat(a + seq![x], c, banned);
    lemma_recorded_concat(a, seq![x], banned);
    lemma_recorded_single(ls[i], banned);
    lemma_recorded_single(x, banned);
    let ra = recorded_votes(a, banned);
    let rc = recorded_votes(c, banned);
    let b0 = user_block(ls[i], banned);
    let b1 = user_block(x, banned);
    lemma_count_concat(ra, b0);
    lemma_count_concat(ra + b0, rc);
    lemma_count_concat(ra, b1);
    lemma_count_concat(ra + b1, rc);
}

/// Appending a user whose block holds one vote gives one more vote in all.
proof fn lemma_one_more_push_user(
    ls: Seq<(Seq<char>, Seq<(Seq<char>, usize)>)>,
    x: (Seq<char>, Seq<(Seq<char>, usize)>),
    banned: Set<Seq<char>>,
    w: usize,
    l: usize,
)
    requires
        one_more(Seq::empty(), user_block(x, banned), w, l),
    ensures
        one_more(recorded_votes(ls, banned), recorded_votes(ls.push(x), banned), w, l),
{
    assert(ls.push(x).drop_last() =~= ls);
    let r = recorded_votes(ls, banned);
    let b = user_block(x, banned);
    lemma_count_concat(r, b);
}

/// The block of a user's outcomes with entry `j` removed, and with entry `j`
/// replaced by `e`, differ by the vote of `e`.
proof fn lemma_outcome_replace(o: Seq<(Seq<char>, usize)>, j: int, e: (Seq<char>, usize), v: (usize, usize))
    requires
        0 <= j < o.len(),
        outcome_vote(e) == Some(v),
    ensures
        one_more(outcome_votes(o.remove(j)), outcome_votes(o.update(j, e)), v.0, v.1),
{
    let a = o.take(j);
    let c = o.skip(j + 1);
    assert(o.remove(j) =~= a + c);
    assert(o.update(j, e) =~= a + seq![e] + c);
    lemma_outcome_votes_concat(a, c);
    lemma_outcome_votes_concat(a + seq![e], c);
    lemma_outcome_votes_concat(a, seq![e]);
    lemma_outcome_votes_single(e);
    lemma_one_more_middle(outcome_votes(a), outcome_votes(c), v);
}

/// The counts of the empty vote list are the reset counts.
proof fn lemma_reset_matches(m: Map<usize, RatingView>)
    ensures
        counts_match(reset_ratings(m), Seq::empty()),
{
    let r = reset_ratings(m);
    assert forall|f: usize| #[trigger] comparisons_of(r, f) == count_film(Seq::empty(), f) by {}
    assert forall|a: usize, b: usize| #[trigger] win_count_of(r, a, b) == count_pair(Seq::empty(), a, b) by {}
}

proof fn lemma_replay_outcomes_matches(
    m: Map<usize, RatingView>,
    v: Seq<(usize, usize)>,
    o: Seq<(Seq<char>, usize)>,
)
    requires
        counts_match(m, v),
        outcomes_fit(m, o),
    ensures
        counts_match(replay_outcomes(m, o), v + outcome_votes(o)),
    decreases o.len(),
{
    if o.len() == 0 {
        assert(v + outcome_votes(o) =~= v);
    } else {
        lemma_replay_outcomes_matches(m, v, o.drop_last());
        let m1 = replay_outcomes(m, o.drop_last());
        let v1 = v + outcome_votes(o.drop_last());
        match outcome_vote(o.last()) {
            Some(x) => {
                assert(v + outcome_votes(o) =~= v1.push(x));
                assert(v1.push(x).drop_last() =~= v1);
                lemma_record_matches(m1, v1, v1.push(x), x.0, x.1);
            },
            None => {
                assert(v + outcome_votes(o) =~= v1);
            },
        }
    }
}

proof fn lemma_replay_users_matches(
    m: Map<usize, RatingView>,
    v: Seq<(usize, usize)>,
    ls: Seq<(Seq<char>, Seq<(Seq<char>, usize)>)>,
    banned: Set<Seq<char>>,
)
    requires
        counts_match(m, v),
        users_fit(m, ls, banned),
    ensures
        counts_match(replay_users(m, ls, banned), v + recorded_votes(ls, banned)),
    decreases ls.len(),
{
    if ls.len() == 0 {
        assert(v + recorded_votes(ls, banned) =~= v);
    } else {
        lemma_replay_users_matches(m, v, ls.drop_last(), banned);
        let m1 = replay_users(m, ls.drop_last(), banned);
        let v1 = v + recorded_votes(ls.drop_last(), banned);
        assert(v + recorded_votes(ls, banned) =~= v1 + user_block(ls.last(), banned));
        if banned.contains(ls.last().0) {
            assert(v1 + user_block(ls.last(), banned) =~= v1);
        } else {
            lemma_replay_outcomes_matches(m1, v1, ls.last().1);
        }
    }
}

/// Rebuilding the counts from the recorded votes of the users who are not
/// banned gives exactly the counts of those votes: each film's number of
/// comparisons is the number of those votes it takes part in, and each win
/// count is the number of those votes with that winner and loser.
pub proof fn rebuilt_counts_match_votes(
    m: Map<usize, RatingView>,
    ls: Seq<(Seq<char>, Seq<(Seq<char>, usize)>)>,
    banned: Set<Seq<char>>,
)
    requires
        users_fit(reset_ratings(m), ls, banned),
    ensures
        counts_match(replay_users(reset_ratings(m), ls, banned), recorded_votes(ls, banned)),
{
    lemma_reset_matches(m);
    lemma_replay_users_matches(reset_ratings(m), Seq::empty(), ls, banned);
    assert(Seq::<(usize, usize)>::empty() + recorded_votes(ls, banned) =~= recorded_votes(ls, banned));
}

/// The outcome recorded under a pair key stands for a vote of the recorded
/// winner over the other film of the pair.
proof fn lemma_key_vote(w: usize, l: usize, x: usize)
    ensures
        outcome_vote((pair_key_spec(w, l), x)) == Some((x, other_of(canonical(w, l), x))),
{
    pair_key_round_trip(w, l);
}

/// The outcome list of user `i` is the one behind the user's outcome map.
proof fn lemma_lists_link(us: Seq<(String, crate::models::UserState)>, i: int)
    requires
        users_wf(us),
        0 <= i < us.len(),
    ensures
        user_outcome_lists(us)[i].0 == us[i].0@,
        users_map(us).contains_key(us[i].0@),
        users_map(us)[us[i].0@].outcomes == assoc_map(user_outcome_lists(us)[i].1),
        distinct_keys(user_outcome_lists(us)[i].1),
        distinct_keys(user_outcome_lists(us)),
{
    lemma_assoc_get(user_entries(us), i);
    assert(keys_of(user_outcome_lists(us)) =~= keys_of(user_entries(us)));
}

/// A user who records an outcome for a pair has compared the pair.
pub open spec fn outcome_is_compared(s: StateView, uid: Seq<char>, w: usize, l: usize) -> bool {
    s.users.contains_key(uid) && s.users[uid].outcomes.contains_key(pair_key_spec(w, l))
        ==> s.users[uid].compared.contains(canonical(w, l))
}

/// A vote keeps the counts equal to those of the recorded votes of the
/// users who are not banned, when the voter is not banned and the user's
/// recorded outcome for the pair (if any) is for a pair the user compared.
pub proof fn vote_keeps_counts_consistent(s: AppState, uid: Seq<char>, w: usize, l: usize)
    requires
        s.well_formed(),
        counts_match(s@.ratings, recorded_votes(user_outcome_lists(s.users@), s@.banned)),
        !s@.banned.contains(uid),
        vote_valid(s@, w, l),
        previous_winner(s@, uid, w, l) != Some(w),
        vote_fits(s@, uid, w, l),
        outcome_is_compared(s@, uid, w, l),
    ensures
        counts_match(
            vote_spec(s@, uid, w, l).ratings,
            recorded_votes(voted_lists(user_outcome_lists(s.users@), uid, w, l), s@.banned),
        ),
{
    let ls = user_outcome_lists(s.users@);
    let banned = s@.banned;
    let v = recorded_votes(ls, banned);
    let key = pair_key_spec(w, l);
    let i = index_of_key(ls, uid);
    assert(keys_of(ls) =~= keys_of(user_entries(s.users@)));
    lemma_index_of_key(ls, uid);
    lemma_assoc_dom(user_entries(s.users@));
    lemma_key_vote(w, l, w);
    assert(other_of(canonical(w, l), w) == l);
    let nv = outcome_vote((key, w));
    assert(nv == Some((w, l)));
    if i < 0 {
        // a new user: one vote more
        assert(!s@.users.contains_key(uid));
        assert(previous_winner(s@, uid, w, l) is None);
        let x = (uid, set_entry(Seq::<(Seq<char>, usize)>::empty(), key, w));
        assert(set_entry(Seq::<(Seq<char>, usize)>::empty(), key, w) =~= seq![(key, w)]);
        lemma_outcome_votes_single((key, w));
        lemma_one_more_middle(Seq::empty(), Seq::empty(), (w, l));
        assert(Seq::<(usize, usize)>::empty() + seq![(w, l)] + Seq::<(usize, usize)>::empty() =~= seq![(w, l)]);
        assert(Seq::<(usize, usize)>::empty() + Seq::<(usize, usize)>::empty() =~= Seq::<(usize, usize)>::empty());
        lemma_one_more_push_user(ls, x, banned, w, l);
        lemma_record_matches(s@.ratings, v, recorded_votes(ls.push(x), banned), w, l);
    } else {
        lemma_lists_link(s.users@, i);
        let o = ls[i].1;
        let j = index_of_key(o, key);
        lemma_index_of_key(o, key);
        lemma_assoc_dom(o);
        if j < 0 {
            // no outcome for the pair yet: one vote more
            assert(!s@.users[uid].outcomes.contains_key(key));
            assert(previous_winner(s@, uid, w, l) is None);
            let o2 = set_entry(o, key, w);
            assert(o2 == o.push((key, w)));
            assert(o.push((key, w)).drop_last() =~= o);
            assert(outcome_votes(o2) =~= outcome_votes(o).push((w, l)));
            assert(outcome_votes(o).push((w, l)).drop_last() =~= outcome_votes(o));
            assert(one_more(user_block(ls[i], banned), user_block((uid, o2), banned), w, l));
            lemma_one_more_at(ls, i, (uid, o2), banned, w, l);
            lemma_record_matches(s@.ratings, v, recorded_votes(ls.update(i, (uid, o2)), banned), w, l);
        } else {
            // the earlier outcome is replaced
            lemma_assoc_get(o, j);
            let p = o[j].1;
            assert(o[j].0 == key);
            assert(s@.users[uid].outcomes.contains_key(key));
            assert(s@.users[uid].outcomes[key] == p);
            assert(previous_winner(s@, uid, w, l) == Some(p));
            let q = other_of(canonical(w, l), p);
            lemma_key_vote(w, l, p);
            assert(o[j] == (key, p));
            let mid = (uid, o.remove(j));
            let o2 = set_entry(o, key, w);
            assert(o2 == o.update(j, (key, w)));
            assert(o.update(j, o[j]) =~= o);
            lemma_outcome_replace(o, j, o[j], (p, q));
            lemma_outcome_replace(o, j, (key, w), (w, l));
            let lsm = ls.update(i, mid);
            assert(lsm.update(i, ls[i]) =~= ls);
            assert(lsm.update(i, (uid, o2)) =~= ls.update(i, (uid, o2)));
            assert(lsm[i] == mid);
            assert(ls[i] == (uid, o));
            lemma_one_more_at(lsm, i, ls[i], banned, p, q);
            lemma_one_more_at(lsm, i, (uid, o2), banned, w, l);
            let vm = recorded_votes(lsm, banned);
            lemma_retract_matches(s@.ratings, vm, v, p, q);
            assert(without_previous(s@, uid, w, l) == retract_vote_spec(s@.ratings, p, q));
            lemma_record_matches(
                retract_vote_spec(s@.ratings, p, q),
                vm,
                recorded_votes(ls.update(i, (uid, o2)), banned),
                w,
                l,
            );
        }
    }
}

/// Withdrawing a vote keeps the counts equal to those of the recorded votes
/// of the users who are not banned, whichever of the two films the request
/// names as winner, when the user is not banned and has a recorded winner
/// for the pair.
pub proof fn unvote_keeps_counts_consistent(s: AppState, uid: Seq<char>, w: usize, l: usize)
    requires
        s.well_formed(),
        counts_match(s@.ratings, recorded_votes(user_outcome_lists(s.users@), s@.banned)),
        !s@.banned.contains(uid),
        s@.users.contains_key(uid),
        s@.users[uid].compared.contains(canonical(w, l)),
        s@.users[uid].outcomes.contains_key(pair_key_spec(w, l)),
    ensures
        counts_match(
            unvote_spec(s@, uid, w, l).ratings,
            recorded_votes(unvoted_lists(user_outcome_lists(s.users@), uid, w, l), s@.banned),
        ),
{
    let ls = user_outcome_lists(s.users@);
    let banned = s@.banned;
    let v = recorded_votes(ls, banned);
    let key = pair_key_spec(w, l);
    let i = index_of_key(ls, uid);
    assert(keys_of(ls) =~= keys_of(user_entries(s.users@)));
    lemma_index_of_key(ls, uid);
    lemma_assoc_dom(user_entries(s.users@));
    lemma_lists_link(s.users@, i);
    let o = ls[i].1;
    let j = index_of_key(o, key);
    lemma_index_of_key(o, key);
    lemma_assoc_dom(o);
    lemma_assoc_get(o, j);
    let p = o[j].1;
    assert(o[j] == (key, p));
    assert(p == s@.users[uid].outcomes[key]);
    lemma_key_vote(w, l, p);
    let q = other_of(canonical(w, l), p);
    assert(o.update(j, o[j]) =~= o);
    lemma_outcome_replace(o, j, o[j], (p, q));
    let mid = (uid, o.remove(j));
    let lsm = ls.update(i, mid);
    assert(lsm.update(i, ls[i]) =~= ls);
    assert(ls[i] == (uid, o));
    lemma_one_more_at(lsm, i, ls[i], banned, p, q);
    assert(remove_entry(o, key) == o.remove(j));
    assert(unvoted_lists(ls, uid, w, l) == lsm);
    assert(withdrawn_vote(s@, uid, w, l) == (p, q));
    lemma_retract_matches(s@.ratings, recorded_votes(lsm, banned), v, p, q);
}

/// Withdrawing a vote just counted gives back every count: every film's
/// comparisons and every win count are as before the vote.
pub proof fn unvote_undoes_vote(m: Map<usize, RatingView>, w: usize, l: usize)
    requires
        record_vote_fits(m, w, l),
    ensures
        forall|f: usize| #[trigger] comparisons_of(retract_vote_spec(record_vote_spec(m, w, l), w, l), f)
            == comparisons_of(m, f),
        forall|a: usize, b: usize| #[trigger] win_count_of(retract_vote_spec(record_vote_spec(m, w, l), w, l), a, b)
            == win_count_of(m, a, b),
{
    let r = record_vote_spec(m, w, l);
    let u = retract_vote_spec(r, w, l);
    assert forall|f: usize| #[trigger] comparisons_of(u, f) == comparisons_of(m, f) by {}
    assert forall|a: usize, b: usize| #[trigger] win_count_of(u, a, b) == win_count_of(m, a, b) by {}
}

/// A user's vote on a pair of two films they had not compared, withdrawn at
/// once, leaves every count as before and the user's compared pairs and
/// outcomes as before; a user first made by the vote stays, with none.
pub proof fn unvote_undoes_user_vote(s: StateView, uid: Seq<char>, w: usize, l: usize)
    requires
        w != l,
        !user_or_new(s.users, uid).compared.contains(canonical(w, l)),
        !user_or_new(s.users, uid).outcomes.contains_key(pair_key_spec(w, l)),
        record_vote_fits(s.ratings, w, l),
    ensures
        unvote_spec(vote_spec(s, uid, w, l), uid, w, l).users == s.users.insert(
            uid,
            user_or_new(s.users, uid),
        ),
        forall|f: usize| #[trigger] comparisons_of(unvote_spec(vote_spec(s, uid, w, l), uid, w, l).ratings, f)
            == comparisons_of(s.ratings, f),
        forall|a: usize, b: usize| #[trigger] win_count_of(unvote_spec(vote_spec(s, uid, w, l), uid, w, l).ratings, a, b)
            == win_count_of(s.ratings, a, b),
{
    let u = user_or_new(s.users, uid);
    assert(previous_winner(s, uid, w, l) is None);
    assert(without_previous(s, uid, w, l) == s.ratings);
    let v = vote_spec(s, uid, w, l);
    assert(previous_winner(v, uid, w, l) == Some(w));
    assert(other_of(canonical(w, l), w) == l);
    assert(withdrawn_vote(v, uid, w, l) == (w, l));
    let t = unvote_spec(v, uid, w, l);
    assert(t.users[uid].compared =~= u.compared);
    assert(t.users[uid].outcomes =~= u.outcomes);
    assert(t.users[uid] =~= u);
    assert(t.users =~= s.users.insert(uid, u));
    unvote_undoes_vote(s.ratings, w, l);
}

// ---------------------------------------------------------------------------
// Wins never exceed comparisons
// ---------------------------------------------------------------------------

/// The votes of `f` over each of `keys`, summed.
spec fn pair_sum(v: Seq<(usize, usize)>, f: usize, keys: Seq<usize>) -> nat
    decreases keys.len(),
{
    if keys.len() == 0 {
        0
    } else {
        pair_sum(v, f, keys.drop_last()) + count_pair(v, f, keys.last())
    }
}

/// How many of `keys` the vote `x` of `f` is against.
spec fn hits(x: (usize, usize), f: usize, keys: Seq<usize>) -> nat
    decreases keys.len(),
{
    if keys.len() == 0 {
        0
    } else {
        hits(x, f, keys.drop_last()) + if x == (f, keys.last()) {
            1nat
        } else {
            0nat
        }
    }
}

proof fn lemma_pair_sum_push(v: Seq<(usize, usize)>, x: (usize, usize), f: usize, keys: Seq<usize>)
    ensures
        pair_sum(v.push(x), f, keys) == pair_sum(v, f, keys) + hits(x, f, keys),
    decreases keys.len(),
{
    if keys.len() > 0 {
        lemma_pair_sum_push(v, x, f, keys.drop_last());
        assert(v.push(x).drop_last() =~= v);
    }
}

proof fn lemma_pair_sum_empty(f: usize, keys: Seq<usize>)
    ensures
        pair_sum(Seq::empty(), f, keys) == 0,
    decreases keys.len(),
{
    if keys.len() > 0 {
        lemma_pair_sum_empty(f, keys.drop_last());
    }
}

proof fn lemma_hits(x: (usize, usize), f: usize, keys: Seq<usize>)
    requires
        keys.no_duplicates(),
    ensures
        hits(x, f, keys) <= 1,
        x.0 != f ==> hits(x, f, keys) == 0,
        hits(x, f, keys) == 1 ==> keys.contains(x.1),
    decreases keys.len(),
{
    if keys.len() > 0 {
        let d = keys.drop_last();
        assert(d.no_duplicates()) by {
            assert forall|i: int, j: int| 0 <= i < d.len() && 0 <= j < d.len() && i != j implies d[i] != d[j] by {
                assert(d[i] == keys[i] && d[j] == keys[j]);
            }
        }
        lemma_hits(x, f, d);
        if x == (f, keys.last()) && hits(x, f, d) == 1 {
            let j = choose|j: int| 0 <= j < d.len() && d[j] == x.1;
            assert(keys[j] == keys[keys.len() - 1]);
        }
    }
}

/// The votes of `f` over distinct opponents are at most the votes `f` takes
/// part in.
proof fn lemma_pair_sum_bound(v: Seq<(usize, usize)>, f: usize, keys: Seq<usize>)
    requires
        keys.no_duplicates(),
    ensures
        pair_sum(v, f, keys) <= count_film(v, f),
    decreases v.len(),
{
    if v.len() == 0 {
        lemma_pair_sum_empty(f, keys);
        assert(v =~= Seq::<(usize, usize)>::empty());
    } else {
        let u = v.drop_last();
        lemma_pair_sum_bound(u, f, keys);
        assert(u.push(v.last()) =~= v);
        lemma_pair_sum_push(u, v.last(), f, keys);
        lemma_hits(v.last(), f, keys);
    }
}

/// A list of (opponent, wins) entries whose wins are the votes of `f` over
/// each opponent sums to the votes of `f` over the opponents.
proof fn lemma_sum_wins_pairs(s: Seq<(usize, u32)>, f: usize, v: Seq<(usize, usize)>)
    requires
        forall|j: int| 0 <= j < s.len() ==> (#[trigger] s[j]).1 == count_pair(v, f, s[j].0),
    ensures
        crate::bt::sum_wins(s) == pair_sum(v, f, keys_of(s)),
    decreases s.len(),
{
    if s.len() > 0 {
        let d = s.drop_last();
        assert forall|j: int| 0 <= j < d.len() implies (#[trigger] d[j]).1 == count_pair(v, f, d[j].0) by {
            assert(d[j] == s[j]);
        }
        lemma_sum_wins_pairs(d, f, v);
        assert(keys_of(s).drop_last() =~= keys_of(d));
        assert(s[s.len() - 1] == s.last());
    }
}

/// Where the counts are those of a list of votes, no film has won more
/// comparisons than it took part in.
pub proof fn counted_wins_within_comparisons(rs: Seq<BtRating>, v: Seq<(usize, usize)>)
    requires
        ratings_wf(rs),
        counts_match(ratings_map(rs), v),
    ensures
        forall|i: int| 0 <= i < rs.len() ==> (#[trigger] rs[i]).total_wins() <= rs[i].comparisons,
{
    let m = ratings_map(rs);
    assert forall|i: int| 0 <= i < rs.len() implies (#[trigger] rs[i]).total_wins() <= rs[i].comparisons by {
        let r = rs[i];
        let f = r.film_id;
        lemma_assoc_get(rating_entries(rs), i);
        assert(rating_entries(rs)[i] == (f, r@));
        assert(m[f] == r@);
        assert(r.well_formed());
        let w = r.wins_against@;
        assert forall|j: int| 0 <= j < w.len() implies (#[trigger] w[j]).1 == count_pair(v, f, w[j].0) by {
            lemma_assoc_get(w, j);
            assert(win_count_of(m, f, w[j].0) == count_pair(v, f, w[j].0));
        }
        lemma_sum_wins_pairs(w, f, v);
        lemma_pair_sum_bound(v, f, keys_of(w));
        assert(comparisons_of(m, f) == count_film(v, f));
    }
}

/// In a state whose counts are those of the recorded votes (which every
/// vote and withdrawal keeps, see above), every film's wins are at most its
/// comparisons, so its losses never fall below zero.
pub proof fn consistent_state_wins_within_comparisons(s: AppState)
    requires
        s.well_formed(),
        counts_match(s@.ratings, recorded_votes(user_outcome_lists(s.users@), s@.banned)),
    ensures
        forall|i: int| 0 <= i < s.bt_ratings@.len() ==> (#[trigger] s.bt_ratings@[i]).total_wins()
            <= s.bt_ratings@[i].comparisons,
{
    counted_wins_within_comparisons(s.bt_ratings@, recorded_votes(user_outcome_lists(s.users@), s@.banned));
}

} // verus!
