//! What each request does to the state and what it answers: voting,
//! withdrawing a vote, selecting films, the candidate pairs for the next
//! comparison, and the aggregate views (statistics, matrices, leaderboard
//! eligibility, contributions).
use vstd::prelude::*;
use crate::assoc::{
    assoc_map, distinct_keys, index_of_key, keys_of, lemma_assoc_dom, lemma_assoc_get,
    lemma_assoc_push, lemma_assoc_update, lemma_index_of_key, remove_entry, set_entry,
};
use crate::tally::{unvoted_lists, user_outcome_lists, voted_lists};
use crate::bt::{
    BtRating, RatingView, ratings_map, ratings_wf, record_vote, record_vote_fits,
    record_vote_spec, retract_vote, retract_vote_spec,
};
use crate::models::{
    UserState, UserView, VotePayload, outcome_entries, UnvotePayload, SelectionPayload, canonical, canonical_pair,
    empty_user, pair_key, pair_key_spec,
};
use crate::persistence::{
    AppState, StateView, find_film, find_user, user_entries, users_map, users_wf,
};

verus! {

/// The state of user `uid`, or that of a new user.
pub open spec fn user_or_new(us: Map<Seq<char>, UserView>, uid: Seq<char>) -> UserView {
    if us.contains_key(uid) {
        us[uid]
    } else {
        empty_user()
    }
}

/// Replacing the state of entry `i` replaces the state of its user.
proof fn lemma_users_update(us: Seq<(String, UserState)>, i: int, u: UserState)
    requires
        users_wf(us),
        0 <= i < us.len(),
        u.well_formed(),
    ensures
        users_wf(us.update(i, (us[i].0, u))),
        users_map(us.update(i, (us[i].0, u))) == users_map(us).insert(us[i].0@, u@),
{
    let e = user_entries(us);
    lemma_assoc_update(e, i, u@);
    assert(user_entries(us.update(i, (us[i].0, u))) =~= e.update(i, (e[i].0, u@)));
}

/// The index of user `uid`'s entry, adding a new user when there is none.
pub fn user_entry(us: &mut Vec<(String, UserState)>, uid: &String) -> (i: usize)
    requires
        users_wf(old(us)@),
    ensures
        users_wf(final(us)@),
        i < final(us)@.len(),
        final(us)@[i as int].0@ == uid@,
        users_map(final(us)@) == users_map(old(us)@).insert(
            uid@,
            user_or_new(users_map(old(us)@), uid@),
        ),
        user_outcome_lists(final(us)@) == (if users_map(old(us)@).contains_key(uid@) {
            user_outcome_lists(old(us)@)
        } else {
            user_outcome_lists(old(us)@).push((uid@, Seq::empty()))
        }),
        i as int == index_of_key(user_outcome_lists(final(us)@), uid@),
        final(us)@[i as int].1@ == user_or_new(users_map(old(us)@), uid@),
{
    let r = user_entry_inner(us, uid);
    proof {
        lemma_lists_keys(us@);
        lemma_index_of_key(user_outcome_lists(us@), uid@);
        assert(user_outcome_lists(us@)[r as int].0 == uid@);
        lemma_assoc_get(user_entries(us@), r as int);
    }
    r
}

/// The user lists and the outcome lists have the same keys.
pub proof fn lemma_lists_keys(us: Seq<(String, UserState)>)
    ensures
        keys_of(user_outcome_lists(us)) == keys_of(user_entries(us)),
{
    assert(keys_of(user_outcome_lists(us)) =~= keys_of(user_entries(us)));
}

fn user_entry_inner(us: &mut Vec<(String, UserState)>, uid: &String) -> (i: usize)
    requires
        users_wf(old(us)@),
    ensures
        users_wf(final(us)@),
        i < final(us)@.len(),
        final(us)@[i as int].0@ == uid@,
        users_map(final(us)@) == users_map(old(us)@).insert(
            uid@,
            user_or_new(users_map(old(us)@), uid@),
        ),
        user_outcome_lists(final(us)@) == (if users_map(old(us)@).contains_key(uid@) {
            user_outcome_lists(old(us)@)
        } else {
            user_outcome_lists(old(us)@).push((uid@, Seq::empty()))
        }),
{
    match find_user(us, uid) {
        Some(i) => {
            assert(users_map(us@) =~= users_map(us@).insert(uid@, user_or_new(users_map(us@), uid@)));
            i
        },
        None => {
            let u = UserState::new();
            let name = uid.clone();
            assert(outcome_entries(u.vote_outcomes@) =~= Seq::<(Seq<char>, usize)>::empty());
            proof {
                let e = user_entries(us@);
                lemma_assoc_dom(e);
                lemma_assoc_push(e, uid@, u@);
                assert(user_entries(us@.push((name, u))) =~= e.push((uid@, u@)));
            }
            us.push((name, u));
            proof {
                assert(user_outcome_lists(us@) =~= user_outcome_lists(old(us)@).push((uid@, Seq::empty())));
            }
            us.len() - 1
        },
    }
}

// ---------------------------------------------------------------------------
// Voting
// ---------------------------------------------------------------------------

/// What a vote request is answered.
pub enum VoteOutcome {
    /// A film id is unknown, or both ids name one film.
    InvalidFilmIds,
    /// The user's vote on this pair already names this winner.
    AlreadyVoted,
    /// The vote is counted (replacing the user's earlier vote on the pair).
    Recorded,
}

/// Both films exist and are different.
pub open spec fn vote_valid(s: StateView, w: usize, l: usize) -> bool {
    s.films.contains_key(w) && s.films.contains_key(l) && w != l
}

/// The winner of the user's earlier vote on the pair of `w` and `l`, if the
/// user compared the pair and an outcome is recorded for it.
pub open spec fn previous_winner(s: StateView, uid: Seq<char>, w: usize, l: usize) -> Option<usize> {
    let key = pair_key_spec(w, l);
    if s.users.contains_key(uid) && s.users[uid].compared.contains(canonical(w, l))
        && s.users[uid].outcomes.contains_key(key) {
        Some(s.users[uid].outcomes[key])
    } else {
        None
    }
}

/// The film of `pair` other than `x` (its first film when `x` is not the
/// first).
pub open spec fn other_of(pair: (usize, usize), x: usize) -> usize {
    if x == pair.0 {
        pair.1
    } else {
        pair.0
    }
}

/// The counts with the user's earlier vote on the pair withdrawn.
pub open spec fn without_previous(s: StateView, uid: Seq<char>, w: usize, l: usize) -> Map<
    usize,
    RatingView,
> {
    match previous_winner(s, uid, w, l) {
        Some(p) => retract_vote_spec(s.ratings, p, other_of(canonical(w, l), p)),
        None => s.ratings,
    }
}

/// Counting the vote overflows no counter.
pub open spec fn vote_fits(s: StateView, uid: Seq<char>, w: usize, l: usize) -> bool {
    record_vote_fits(without_previous(s, uid, w, l), w, l)
}

/// A user's state after voting `w` over `l`.
pub open spec fn voted_user(u: UserView, w: usize, l: usize) -> UserView {
    UserView {
        compared: u.compared.insert(canonical(w, l)),
        outcomes: u.outcomes.insert(pair_key_spec(w, l), w),
        ..u
    }
}

/// The state after user `uid`'s vote for `w` over `l` is counted.
pub open spec fn vote_spec(s: StateView, uid: Seq<char>, w: usize, l: usize) -> StateView {
    StateView {
        ratings: record_vote_spec(without_previous(s, uid, w, l), w, l),
        users: s.users.insert(uid, voted_user(user_or_new(s.users, uid), w, l)),
        ..s
    }
}

impl AppState {
    /// A vote: `p.winner_id` preferred over `p.loser_id` by `p.user_id`.
    ///
    /// Unknown or equal film ids are refused; a vote that repeats the
    /// user's recorded winner for the pair changes nothing; otherwise the
    /// user's earlier vote on the pair is withdrawn from the counts, the new
    /// vote is counted, and the pair and its winner are recorded for the
    /// user.
    pub fn vote(&mut self, p: &VotePayload) -> (r: VoteOutcome)
        requires
            old(self).well_formed(),
            vote_valid(old(self)@, p.winner_id, p.loser_id) && previous_winner(
                old(self)@,
                p.user_id@,
                p.winner_id,
                p.loser_id,
            ) != Some(p.winner_id) ==> vote_fits(
                old(self)@,
                p.user_id@,
                p.winner_id,
                p.loser_id,
            ),
        ensures
            final(self).well_formed(),
            final(self).films == old(self).films,
            !vote_valid(old(self)@, p.winner_id, p.loser_id) ==> r is InvalidFilmIds
                && final(self)@ == old(self)@,
            vote_valid(old(self)@, p.winner_id, p.loser_id) && previous_winner(
                old(self)@,
                p.user_id@,
                p.winner_id,
                p.loser_id,
            ) == Some(p.winner_id) ==> r is AlreadyVoted && final(self)@ == old(self)@,
            vote_valid(old(self)@, p.winner_id, p.loser_id) && previous_winner(
                old(self)@,
                p.user_id@,
                p.winner_id,
                p.loser_id,
            ) != Some(p.winner_id) ==> r is Recorded && final(self)@ == vote_spec(
                old(self)@,
                p.user_id@,
                p.winner_id,
                p.loser_id,
            ) && user_outcome_lists(final(self).users@) == voted_lists(
                user_outcome_lists(old(self).users@),
                p.user_id@,
                p.winner_id,
                p.loser_id,
            ),
            r is InvalidFilmIds || r is AlreadyVoted ==> final(self).users == old(self).users,
    {
        let w = p.winner_id;
        let l = p.loser_id;
        if find_film(&self.films, w).is_none() || find_film(&self.films, l).is_none() || w == l {
            return VoteOutcome::InvalidFilmIds;
        }
        let pair = canonical_pair(w, l);
        let key = pair_key(w, l);
        let prev: Option<usize> = match find_user(&self.users, &p.user_id) {
            Some(i) => {
                if self.users[i].1.has_compared(pair) {
                    match self.users[i].1.find_outcome(&key) {
                        Some(j) => {
                            let prev = self.users[i].1.vote_outcomes[j].1;
                            if prev == w {
                                return VoteOutcome::AlreadyVoted;
                            }
                            Some(prev)
                        },
                        None => None,
                    }
                } else {
                    None
                }
            },
            None => None,
        };
        assert(prev == previous_winner(old(self)@, p.user_id@, w, l));
        if let Some(pw) = prev {
            let prev_loser = if pw == pair.0 { pair.1 } else { pair.0 };
            retract_vote(&mut self.bt_ratings, pw, prev_loser);
        }
        assert(ratings_map(self.bt_ratings@) == without_previous(old(self)@, p.user_id@, w, l));
        record_vote(&mut self.bt_ratings, w, l);
        let i = user_entry(&mut self.users, &p.user_id);
        let ghost us0 = self.users@;
        let ghost u0 = self.users@[i as int].1;
        proof {
            assert(users_wf(us0));
            assert(u0.well_formed());
            lemma_assoc_get(user_entries(us0), i as int);
        }
        {
            let entry = &mut self.users[i];
            entry.1.mark_compared(pair);
            entry.1.set_outcome(key, w);
        }
        proof {
            assert(self.users@ == us0.update(i as int, (us0[i as int].0, self.users@[i as int].1)));
            lemma_users_update(us0, i as int, self.users@[i as int].1);
            assert(self.users@[i as int].1@ == voted_user(u0@, w, l));
            assert(self@ =~= vote_spec(old(self)@, p.user_id@, w, l));
            let ls0 = user_outcome_lists(old(self).users@);
            let lsm = user_outcome_lists(us0);
            assert(user_outcome_lists(self.users@) =~= lsm.update(
                i as int,
                (p.user_id@, set_entry(lsm[i as int].1, key@, w)),
            ));
            lemma_lists_keys(old(self).users@);
            lemma_index_of_key(ls0, p.user_id@);
            lemma_assoc_dom(user_entries(old(self).users@));
            if !users_map(old(self).users@).contains_key(p.user_id@) {
                assert(lsm[i as int].1 =~= Seq::<(Seq<char>, usize)>::empty());
            }
            assert(user_outcome_lists(self.users@) =~= voted_lists(ls0, p.user_id@, w, l));
        }
        VoteOutcome::Recorded
    }
}

// ---------------------------------------------------------------------------
// Withdrawing a vote
// ---------------------------------------------------------------------------

/// What a request to withdraw a vote is answered.
pub enum UnvoteOutcome {
    /// The user has no state.
    UnknownUser,
    /// The user has not compared the pair.
    PairNotFound,
    /// The vote is withdrawn.
    Removed,
}

/// The vote a withdrawal takes back from the counts: the user's recorded
/// vote on the pair of `w` and `l`, or, where no winner is recorded for the
/// pair, the vote of `w` over `l` that the request names.
pub open spec fn withdrawn_vote(s: StateView, uid: Seq<char>, w: usize, l: usize) -> (usize, usize) {
    match previous_winner(s, uid, w, l) {
        Some(p) => (p, other_of(canonical(w, l), p)),
        None => (w, l),
    }
}

/// The state after user `uid` withdraws their vote on the pair of `w` and
/// `l`.
pub open spec fn unvote_spec(s: StateView, uid: Seq<char>, w: usize, l: usize) -> StateView {
    let u = s.users[uid];
    let v = withdrawn_vote(s, uid, w, l);
    StateView {
        ratings: retract_vote_spec(s.ratings, v.0, v.1),
        users: s.users.insert(
            uid,
            UserView {
                compared: u.compared.remove(canonical(w, l)),
                outcomes: u.outcomes.remove(pair_key_spec(w, l)),
                ..u
            },
        ),
        ..s
    }
}

impl AppState {
    /// Withdraws `p.user_id`'s vote on the pair of `p.winner_id` and
    /// `p.loser_id`: the pair is no longer compared, its recorded outcome is
    /// dropped, and the counts of the recorded vote go down by one (not below
    /// zero): its winner's comparisons and wins over the other film, and the
    /// other film's comparisons. Where no winner is recorded for the pair,
    /// the vote the request names is taken back instead.
    pub fn unvote(&mut self, p: &UnvotePayload) -> (r: UnvoteOutcome)
        requires
            old(self).well_formed(),
        ensures
            final(self).well_formed(),
            final(self).films == old(self).films,
            !old(self)@.users.contains_key(p.user_id@) ==> r is UnknownUser && final(self)@ == old(
                self,
            )@,
            old(self)@.users.contains_key(p.user_id@) && !old(self)@.users[p.user_id@].compared.contains(
                canonical(p.winner_id, p.loser_id),
            ) ==> r is PairNotFound && final(self)@ == old(self)@,
            old(self)@.users.contains_key(p.user_id@) && old(self)@.users[p.user_id@].compared.contains(
                canonical(p.winner_id, p.loser_id),
            ) ==> r is Removed && final(self)@ == unvote_spec(
                old(self)@,
                p.user_id@,
                p.winner_id,
                p.loser_id,
            ) && user_outcome_lists(final(self).users@) == unvoted_lists(
                user_outcome_lists(old(self).users@),
                p.user_id@,
                p.winner_id,
                p.loser_id,
            ),
    {
        let pair = canonical_pair(p.winner_id, p.loser_id);
        let i = match find_user(&self.users, &p.user_id) {
            Some(i) => i,
            None => {
                return UnvoteOutcome::UnknownUser;
            },
        };
        if !self.users[i].1.has_compared(pair) {
            return UnvoteOutcome::PairNotFound;
        }
        let key = pair_key(p.winner_id, p.loser_id);
        let ghost us0 = self.users@;
        let ghost u0 = self.users@[i as int].1;
        proof {
            lemma_assoc_get(user_entries(us0), i as int);
            assert(self.users@[i as int].1@ == old(self)@.users[p.user_id@]);
        }
        let (rw, rl) = match self.users[i].1.find_outcome(&key) {
            Some(j) => {
                let winner = self.users[i].1.vote_outcomes[j].1;
                let other = if winner == pair.0 { pair.1 } else { pair.0 };
                (winner, other)
            },
            None => (p.winner_id, p.loser_id),
        };
        assert((rw, rl) == withdrawn_vote(old(self)@, p.user_id@, p.winner_id, p.loser_id));
        {
            let entry = &mut self.users[i];
            entry.1.forget_compared(pair);
            entry.1.remove_outcome(&key);
        }
        proof {
            assert(self.users@ == us0.update(i as int, (us0[i as int].0, self.users@[i as int].1)));
            lemma_users_update(us0, i as int, self.users@[i as int].1);
            let ls0 = user_outcome_lists(us0);
            lemma_lists_keys(us0);
            lemma_index_of_key(ls0, p.user_id@);
            assert(ls0[i as int].0 == p.user_id@);
            assert(user_outcome_lists(self.users@) =~= unvoted_lists(ls0, p.user_id@, p.winner_id, p.loser_id));
        }
        retract_vote(&mut self.bt_ratings, rw, rl);
        assert(self@ =~= unvote_spec(old(self)@, p.user_id@, p.winner_id, p.loser_id));
        UnvoteOutcome::Removed
    }

    /// Records the films `p.user_id` has seen, creating the user if needed.
    pub fn set_selection(&mut self, p: &SelectionPayload)
        requires
            old(self).well_formed(),
        ensures
            final(self).well_formed(),
            final(self).films == old(self).films,
            final(self)@ == (StateView {
                users: old(self)@.users.insert(
                    p.user_id@,
                    UserView { seen: p.film_ids@, ..user_or_new(old(self)@.users, p.user_id@) },
                ),
                ..old(self)@
            }),
    {
        let i = user_entry(&mut self.users, &p.user_id);
        let ghost us0 = self.users@;
        let ghost u0 = self.users@[i as int].1;
        proof {
            lemma_assoc_get(user_entries(us0), i as int);
        }
        let ids = copy_ids(&p.film_ids);
        {
            let entry = &mut self.users[i];
            entry.1.seen_films = ids;
        }
        proof {
            assert(self.users@ == us0.update(i as int, (us0[i as int].0, self.users@[i as int].1)));
            lemma_users_update(us0, i as int, self.users@[i as int].1);
            assert(self.users@[i as int].1@ =~= UserView { seen: p.film_ids@, ..u0@ });
        }
        assert(self@ =~= (StateView {
            users: old(self)@.users.insert(
                p.user_id@,
                UserView { seen: p.film_ids@, ..user_or_new(old(self)@.users, p.user_id@) },
            ),
            ..old(self)@
        }));
    }
}

fn sat_dec_exec(x: u32) -> (r: u32)
    ensures
        r == crate::bt::sat_dec(x),
{
    if x > 0 {
        x - 1
    } else {
        0
    }
}

impl AppState {
    /// Whether a vote may be counted without a counter overflowing: exactly
    /// the condition `vote` asks of its caller (no condition for a vote that
    /// is refused or repeats the recorded winner).
    pub fn vote_fits_check(&self, p: &VotePayload) -> (b: bool)
        requires
            self.well_formed(),
        ensures
            b == (vote_valid(self@, p.winner_id, p.loser_id) && previous_winner(
                self@,
                p.user_id@,
                p.winner_id,
                p.loser_id,
            ) != Some(p.winner_id) ==> vote_fits(self@, p.user_id@, p.winner_id, p.loser_id)),
    {
        let w = p.winner_id;
        let l = p.loser_id;
        if find_film(&self.films, w).is_none() || find_film(&self.films, l).is_none() || w == l {
            return true;
        }
        let pair = canonical_pair(w, l);
        let key = pair_key(w, l);
        let prev: Option<usize> = match find_user(&self.users, &p.user_id) {
            Some(i) => {
                if self.users[i].1.has_compared(pair) {
                    match self.users[i].1.find_outcome(&key) {
                        Some(j) => Some(self.users[i].1.vote_outcomes[j].1),
                        None => None,
                    }
                } else {
                    None
                }
            },
            None => None,
        };
        assert(prev == previous_winner(self@, p.user_id@, w, l));
        if prev == Some(w) {
            return true;
        }
        let (cw, _) = crate::bt::rating_counts(&self.bt_ratings, w);
        let (cl, _) = crate::bt::rating_counts(&self.bt_ratings, l);
        let win = crate::bt::wins_between(&self.bt_ratings, w, l);
        let mut cw2 = cw;
        let mut cl2 = cl;
        let mut win2 = win;
        if let Some(pw) = prev {
            let q = if pw == pair.0 { pair.1 } else { pair.0 };
            let (_, hp) = crate::bt::rating_counts(&self.bt_ratings, pw);
            let (_, hq) = crate::bt::rating_counts(&self.bt_ratings, q);
            if w == pw && hp {
                cw2 = sat_dec_exec(cw2);
                if l == q {
                    win2 = sat_dec_exec(win2);
                }
            }
            if w == q && hq {
                cw2 = sat_dec_exec(cw2);
            }
            if l == pw && hp {
                cl2 = sat_dec_exec(cl2);
            }
            if l == q && hq {
                cl2 = sat_dec_exec(cl2);
            }
        }
        let ghost m = without_previous(self@, p.user_id@, w, l);
        assert(crate::bt::comparisons_of(m, w) == cw2);
        assert(crate::bt::comparisons_of(m, l) == cl2);
        assert(crate::bt::win_count_of(m, w, l) == win2);
        cw2 < u32::MAX && win2 < u32::MAX && cl2 < u32::MAX
    }
}

/// The counts after the votes of a list of outcomes are taken back, in
/// order.
pub open spec fn retract_outcomes(m: Map<usize, RatingView>, o: Seq<(Seq<char>, usize)>) -> Map<
    usize,
    RatingView,
>
    decreases o.len(),
{
    if o.len() == 0 {
        m
    } else {
        let m1 = retract_outcomes(m, o.drop_last());
        match crate::tally::outcome_vote(o.last()) {
            Some((w, l)) => retract_vote_spec(m1, w, l),
            None => m1,
        }
    }
}

/// The state after user `uid` clears every vote: each recorded vote is
/// taken back from the counts, and the user keeps the films selected but no
/// compared pair and no outcome.
pub open spec fn reset_spec(s: AppState, uid: Seq<char>) -> StateView {
    let u = crate::views::user_state_of(s.users@, uid);
    StateView {
        ratings: retract_outcomes(s@.ratings, outcome_entries(u.vote_outcomes@)),
        users: s@.users.insert(
            uid,
            UserView { compared: Set::empty(), outcomes: Map::empty(), ..s@.users[uid] },
        ),
        ..s@
    }
}

impl AppState {
    /// Clears every vote of user `uid`: `false` and no change for an unknown
    /// user; otherwise each of the user's recorded votes is taken back from
    /// the counts and the user has no compared pair and no outcome left.
    pub fn reset_votes(&mut self, uid: &String) -> (found: bool)
        requires
            old(self).well_formed(),
        ensures
            final(self).well_formed(),
            final(self).films == old(self).films,
            found == old(self)@.users.contains_key(uid@),
            !found ==> final(self)@ == old(self)@,
            found ==> final(self)@ == reset_spec(*old(self), uid@),
    {
        let i = match find_user(&self.users, uid) {
            Some(i) => i,
            None => {
                return false;
            },
        };
        proof {
            lemma_index_of_key(user_entries(self.users@), uid@);
            assert(user_entries(self.users@)[i as int].0 == uid@);
            lemma_assoc_get(user_entries(self.users@), i as int);
        }
        let ghost o = outcome_entries(self.users@[i as int].1.vote_outcomes@);
        let ghost m0 = self@.ratings;
        let n = self.users[i].1.vote_outcomes.len();
        for k in 0..n
            invariant
                n == self.users@[i as int].1.vote_outcomes@.len(),
                i < self.users@.len(),
                self.users == old(self).users,
                self.films == old(self).films,
                self.banned == old(self).banned,
                self.votes_on_disk == old(self).votes_on_disk,
                o == outcome_entries(self.users@[i as int].1.vote_outcomes@),
                ratings_wf(self.bt_ratings@),
                ratings_map(self.bt_ratings@) == retract_outcomes(m0, o.take(k as int)),
        {
            assert(o.take(k + 1).drop_last() =~= o.take(k as int));
            assert(o[k as int] == (self.users@[i as int].1.vote_outcomes@[k as int].0@, self.users@[i as int].1.vote_outcomes@[k as int].1));
            let winner = self.users[i].1.vote_outcomes[k].1;
            match crate::models::parse_pair_key(self.users[i].1.vote_outcomes[k].0.as_str()) {
                Some((a, b)) => {
                    let loser = if winner == a { b } else { a };
                    retract_vote(&mut self.bt_ratings, winner, loser);
                },
                None => {},
            }
        }
        assert(o.take(n as int) =~= o);
        let ghost us0 = self.users@;
        {
            let entry = &mut self.users[i];
            entry.1.compared_pairs = Vec::new();
            entry.1.vote_outcomes = Vec::new();
        }
        proof {
            let u = self.users@[i as int].1;
            assert(u.compared_pairs@ =~= Seq::<(usize, usize)>::empty());
            assert(outcome_entries(u.vote_outcomes@) =~= Seq::<(Seq<char>, usize)>::empty());
            assert(keys_of(outcome_entries(u.vote_outcomes@)) =~= Seq::<Seq<char>>::empty());
            assert(u.well_formed());
            assert(self.users@ == us0.update(i as int, (us0[i as int].0, u)));
            lemma_users_update(us0, i as int, u);
            assert(u.compared_pairs@.to_set() =~= Set::<(usize, usize)>::empty());
            assert(assoc_map(outcome_entries(u.vote_outcomes@)) =~= Map::<Seq<char>, usize>::empty());
            assert(u@ =~= UserView { compared: Set::empty(), outcomes: Map::empty(), ..old(self)@.users[uid@] });
        }
        assert(self@ =~= reset_spec(*old(self), uid@));
        true
    }
}

/// A copy of a list of ids.
pub fn copy_ids(v: &Vec<usize>) -> (r: Vec<usize>)
    ensures
        r@ == v@,
{
    let n = v.len();
    let mut r: Vec<usize> = Vec::new();
    for i in 0..n
        invariant
            n == v@.len(),
            r@ == v@.take(i as int),
    {
        r.push(v[i]);
        assert(v@.take(i + 1) =~= v@.take(i as int).push(v@[i as int]));
    }
    assert(v@.take(n as int) =~= v@);
    r
}

// ---------------------------------------------------------------------------
// Candidate pairs
// ---------------------------------------------------------------------------

/// What the next-pair request is answered.
pub enum PairPlan {
    /// Nothing to compare: fewer than two films selected, or every candidate
    /// pair is compared. `votes` is the number of pairs the user compared.
    Done { votes: usize },
    /// A pair is to be chosen among `remaining`; `seen` are the user's films.
    Choose { votes: usize, seen: Vec<usize>, remaining: Vec<(usize, usize)> },
}

/// The focus film, kept only when the user has selected it.
pub open spec fn effective_focus(focus: Option<usize>, seen: Seq<usize>) -> Option<usize> {
    match focus {
        Some(f) => if seen.contains(f) {
            Some(f)
        } else {
            None
        },
        None => None,
    }
}

/// A pair still to be compared: not compared yet, and holding the focus
/// film when there is one.
pub open spec fn is_candidate(u: UserView, focus: Option<usize>, p: (usize, usize)) -> bool {
    &&& !u.compared.contains(p)
    &&& match focus {
        Some(f) => p.0 == f || p.1 == f,
        None => true,
    }
}

/// The candidate pairs of `seen[i]` with `seen[j]`, for `i < j < k`, in order
/// of `j`.
pub open spec fn row_candidates(seen: Seq<usize>, i: int, k: int, u: UserView, focus: Option<usize>) -> Seq<
    (usize, usize),
>
    decreases k - i,
{
    if k <= i + 1 {
        Seq::empty()
    } else {
        let r = row_candidates(seen, i, k - 1, u, focus);
        let p = canonical(seen[i], seen[k - 1]);
        if is_candidate(u, focus, p) {
            r.push(p)
        } else {
            r
        }
    }
}

/// The candidate pairs of the first `n` rows, row by row.
pub open spec fn candidates_upto(seen: Seq<usize>, n: int, u: UserView, focus: Option<usize>) -> Seq<
    (usize, usize),
>
    decreases n,
{
    if n <= 0 {
        Seq::empty()
    } else {
        candidates_upto(seen, n - 1, u, focus) + row_candidates(seen, n - 1, seen.len() as int, u, focus)
    }
}

/// Every pair of selected films (in selection order, each pair with its
/// smaller id first) that is still to be compared.
pub open spec fn candidate_pairs(u: UserView, focus: Option<usize>) -> Seq<(usize, usize)> {
    candidates_upto(u.seen, u.seen.len() as int, u, effective_focus(focus, u.seen))
}

/// Whether `v` holds `x`.
pub fn contains_id(v: &Vec<usize>, x: usize) -> (b: bool)
    ensures
        b == v@.contains(x),
{
    let n = v.len();
    for i in 0..n
        invariant
            n == v@.len(),
            forall|j: int| 0 <= j < i ==> v@[j] != x,
    {
        if v[i] == x {
            return true;
        }
    }
    false
}

impl AppState {
    /// The pairs user `req.user_id` may compare next (the user is created if
    /// unknown): nothing when fewer than two films are selected or no pair is
    /// left, otherwise every uncompared pair of selected films, restricted to
    /// pairs with the focus film when the user selected it.
    pub fn pair_plan(&mut self, req: &crate::models::PairRequest) -> (r: PairPlan)
        requires
            old(self).well_formed(),
        ensures
            final(self).well_formed(),
            final(self).films == old(self).films,
            final(self)@ == (StateView {
                users: old(self)@.users.insert(
                    req.user_id@,
                    user_or_new(old(self)@.users, req.user_id@),
                ),
                ..old(self)@
            }),
            ({
                let u = user_or_new(old(self)@.users, req.user_id@);
                let cands = candidate_pairs(u, req.focus_film);
                match r {
                    PairPlan::Done { votes } => votes == u.compared.len() && (u.seen.len() < 2
                        || cands.len() == 0),
                    PairPlan::Choose { votes, seen, remaining } => votes == u.compared.len()
                        && u.seen.len() >= 2 && cands.len() > 0 && seen@ == u.seen && remaining@
                        == cands,
                }
            }),
    {
        let i = user_entry(&mut self.users, &req.user_id);
        let ghost u = user_or_new(old(self)@.users, req.user_id@);
        assert(self.users@[i as int].1@ == u);
        let user = &self.users[i].1;
        proof {
            assert(user.well_formed());
            user.compared_pairs@.unique_seq_to_set();
        }
        let votes = user.compared_pairs.len();
        let n = user.seen_films.len();
        if n < 2 {
            return PairPlan::Done { votes };
        }
        let seen = copy_ids(&user.seen_films);
        let focus = match req.focus_film {
            Some(f) => if contains_id(&seen, f) {
                Some(f)
            } else {
                None
            },
            None => None,
        };
        let ghost fo = effective_focus(req.focus_film, u.seen);
        assert(focus == fo);
        let mut remaining: Vec<(usize, usize)> = Vec::new();
        for a in 0..n
            invariant
                n == seen@.len(),
                seen@ == u.seen,
                user@ == u,
                focus == fo,
                remaining@ == candidates_upto(seen@, a as int, u, fo),
        {
            let mut b = a + 1;
            assert(remaining@ =~= candidates_upto(seen@, a as int, u, fo) + row_candidates(seen@, a as int, b as int, u, fo));
            while b < n
                invariant
                    a < n,
                    a + 1 <= b <= n,
                    n == seen@.len(),
                    seen@ == u.seen,
                    user@ == u,
                    focus == fo,
                    remaining@ == candidates_upto(seen@, a as int, u, fo) + row_candidates(
                        seen@,
                        a as int,
                        b as int,
                        u,
                        fo,
                    ),
                decreases n - b,
            {
                let pair = canonical_pair(seen[a], seen[b]);
                let keep = !user.has_compared(pair) && match focus {
                    Some(f) => pair.0 == f || pair.1 == f,
                    None => true,
                };
                let ghost before = remaining@;
                if keep {
                    remaining.push(pair);
                }
                proof {
                    let pre = candidates_upto(seen@, a as int, u, fo);
                    let row = row_candidates(seen@, a as int, b as int, u, fo);
                    if keep {
                        assert(remaining@ =~= pre + row.push(pair));
                    } else {
                        assert(remaining@ =~= pre + row);
                    }
                }
                b = b + 1;
            }
        }
        if remaining.len() == 0 {
            return PairPlan::Done { votes };
        }
        PairPlan::Choose { votes, seen, remaining }
    }
}

/// Pushing onto a sequence adds exactly the pushed value to what it holds.
pub proof fn lemma_push_contains<T>(s: Seq<T>, a: T, x: T)
    ensures
        s.push(a).contains(x) <==> (s.contains(x) || x == a),
{
    if s.contains(x) {
        let p = choose|p: int| 0 <= p < s.len() && s[p] == x;
        assert(s.push(a)[p] == x);
    }
    if x == a {
        assert(s.push(a)[s.len() as int] == a);
    }
    if s.push(a).contains(x) {
        let p = choose|p: int| 0 <= p < s.push(a).len() && s.push(a)[p] == x;
        if p < s.len() {
            assert(s[p] == x);
        }
    }
}

/// A concatenation holds what either part holds.
pub proof fn lemma_concat_contains<T>(s: Seq<T>, t: Seq<T>, x: T)
    ensures
        (s + t).contains(x) <==> (s.contains(x) || t.contains(x)),
{
    if s.contains(x) {
        let p = choose|p: int| 0 <= p < s.len() && s[p] == x;
        assert((s + t)[p] == x);
    }
    if t.contains(x) {
        let p = choose|p: int| 0 <= p < t.len() && t[p] == x;
        assert((s + t)[s.len() + p] == x);
    }
    if (s + t).contains(x) {
        let p = choose|p: int| 0 <= p < (s + t).len() && (s + t)[p] == x;
        if p < s.len() {
            assert(s[p] == x);
        } else {
            assert(t[p - s.len()] == x);
        }
    }
}

/// Whether `p` is the pair of the selected films at positions `i < j`.
pub open spec fn pair_at(seen: Seq<usize>, i: int, j: int, p: (usize, usize)) -> bool {
    0 <= i < j < seen.len() && p == canonical(seen[i], seen[j])
}

proof fn lemma_row_candidates(seen: Seq<usize>, i: int, k: int, u: UserView, focus: Option<usize>)
    requires
        0 <= i,
        k <= seen.len(),
    ensures
        forall|p: (usize, usize)| #[trigger] row_candidates(seen, i, k, u, focus).contains(p) <==> (
        is_candidate(u, focus, p) && exists|j: int| j < k && #[trigger] pair_at(seen, i, j, p)),
    decreases k - i,
{
    if k <= i + 1 {
    } else {
        lemma_row_candidates(seen, i, k - 1, u, focus);
        let r = row_candidates(seen, i, k - 1, u, focus);
        let q = canonical(seen[i], seen[k - 1]);
        assert forall|p: (usize, usize)| #[trigger] row_candidates(seen, i, k, u, focus).contains(p) <==> (
        is_candidate(u, focus, p) && exists|j: int| j < k && #[trigger] pair_at(seen, i, j, p)) by {
            lemma_push_contains(r, q, p);
            if p == q {
                assert(pair_at(seen, i, k - 1, p));
            }
            if exists|j: int| j < k && #[trigger] pair_at(seen, i, j, p) {
                let j = choose|j: int| j < k && #[trigger] pair_at(seen, i, j, p);
                if j < k - 1 {
                    assert(exists|j: int| j < k - 1 && #[trigger] pair_at(seen, i, j, p));
                }
            }
        }
    }
}

proof fn lemma_candidates_upto(seen: Seq<usize>, n: int, u: UserView, focus: Option<usize>)
    requires
        n <= seen.len(),
    ensures
        forall|p: (usize, usize)| #[trigger] candidates_upto(seen, n, u, focus).contains(p) <==> (
        is_candidate(u, focus, p) && exists|i: int, j: int| i < n && #[trigger] pair_at(seen, i, j, p)),
    decreases n,
{
    if n <= 0 {
    } else {
        lemma_candidates_upto(seen, n - 1, u, focus);
        lemma_row_candidates(seen, n - 1, seen.len() as int, u, focus);
        let a = candidates_upto(seen, n - 1, u, focus);
        let b = row_candidates(seen, n - 1, seen.len() as int, u, focus);
        assert forall|p: (usize, usize)| #[trigger] candidates_upto(seen, n, u, focus).contains(p) <==> (
        is_candidate(u, focus, p) && exists|i: int, j: int| i < n && #[trigger] pair_at(seen, i, j, p)) by {
            lemma_concat_contains(a, b, p);
            if exists|j: int| j < seen.len() && #[trigger] pair_at(seen, n - 1, j, p) {
                let j = choose|j: int| j < seen.len() && #[trigger] pair_at(seen, n - 1, j, p);
                assert(pair_at(seen, n - 1, j, p));
            }
            if exists|i: int, j: int| i < n && #[trigger] pair_at(seen, i, j, p) {
                let (i, j) = choose|i: int, j: int| i < n && #[trigger] pair_at(seen, i, j, p);
                if i < n - 1 {
                    assert(exists|i: int, j: int| i < n - 1 && #[trigger] pair_at(seen, i, j, p));
                } else {
                    assert(exists|j: int| j < seen.len() && #[trigger] pair_at(seen, n - 1, j, p));
                }
            }
        }
    }
}

/// The pairs offered for comparison are exactly the pairs of two selected
/// films (taken at two different positions of the selection, smaller id
/// first) that the user has not compared and that hold the focus film when
/// the user selected it.
pub proof fn candidate_pairs_are_the_uncompared_pairs(u: UserView, focus: Option<usize>)
    ensures
        forall|p: (usize, usize)| #[trigger] candidate_pairs(u, focus).contains(p) <==> (
        !u.compared.contains(p) && (match effective_focus(focus, u.seen) {
            Some(f) => p.0 == f || p.1 == f,
            None => true,
        }) && exists|i: int, j: int| #[trigger] pair_at(u.seen, i, j, p)),
{
    let fo = effective_focus(focus, u.seen);
    lemma_candidates_upto(u.seen, u.seen.len() as int, u, fo);
    assert forall|p: (usize, usize)| #[trigger] candidate_pairs(u, focus).contains(p) <==> (
    !u.compared.contains(p) && (match fo {
        Some(f) => p.0 == f || p.1 == f,
        None => true,
    }) && exists|i: int, j: int| #[trigger] pair_at(u.seen, i, j, p)) by {
        if exists|i: int, j: int| #[trigger] pair_at(u.seen, i, j, p) {
            let (i, j) = choose|i: int, j: int| #[trigger] pair_at(u.seen, i, j, p);
            assert(i < u.seen.len() as int && pair_at(u.seen, i, j, p));
        }
    }
}

} // verus!
