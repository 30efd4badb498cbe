//! Aggregate views of the state: statistics, the films that take part in
//! the Bradley-Terry fit, the win matrices, leaderboard eligibility and the
//! users' contributions.
use vstd::prelude::*;
use crate::assoc::{distinct_keys, keys_of, lemma_assoc_get};
use crate::bt::{BtRating, rating_entries, ratings_map, ratings_wf};
use crate::models::{Film, UserState, outcome_entries, parse_pair_key, parse_pair_key_spec, pair_key};
use crate::persistence::{AppState, film_entries, films_map, find_film, find_user, total_compared, users_map};
use crate::tally::{outcome_vote, user_outcome_lists};

verus! {

// ---------------------------------------------------------------------------
// Statistics
// ---------------------------------------------------------------------------

/// The aggregate statistics of the service.
pub struct Stats {
    pub total_users: usize,
    pub active_users: usize,
    pub total_votes: usize,
    pub total_films: usize,
    pub films_with_votes: usize,
}

/// The number of users who compared at least one pair.
pub open spec fn active_users_spec(us: Seq<(String, UserState)>) -> int
    decreases us.len(),
{
    if us.len() == 0 {
        0
    } else {
        active_users_spec(us.drop_last()) + if us.last().1.compared_pairs@.len() > 0 {
            1int
        } else {
            0int
        }
    }
}

/// The ids of the films compared at least once, in the order of their
/// entries.
pub open spec fn active_ids_spec(rs: Seq<BtRating>) -> Seq<usize>
    decreases rs.len(),
{
    if rs.len() == 0 {
        Seq::empty()
    } else {
        let r = active_ids_spec(rs.drop_last());
        if rs.last().comparisons > 0 {
            r.push(rs.last().film_id)
        } else {
            r
        }
    }
}

/// The ids of the films compared at least once: the films that take part in
/// the Bradley-Terry fit.
pub fn active_ids(rs: &Vec<BtRating>) -> (ids: Vec<usize>)
    ensures
        ids@ == active_ids_spec(rs@),
        forall|id: usize| #[trigger] ids@.contains(id) <==> exists|i: int|
            0 <= i < rs@.len() && rs@[i].film_id == id && rs@[i].comparisons > 0,
{
    let n = rs.len();
    let mut ids: Vec<usize> = Vec::new();
    for i in 0..n
        invariant
            n == rs@.len(),
            ids@ == active_ids_spec(rs@.take(i as int)),
    {
        assert(rs@.take(i + 1).drop_last() =~= rs@.take(i as int));
        if rs[i].comparisons > 0 {
            ids.push(rs[i].film_id);
        }
    }
    assert(rs@.take(n as int) =~= rs@);
    proof {
        crate::view_laws::active_ids_are_the_compared_films(rs@);
    }
    ids
}

impl AppState {
    /// The statistics: users, users who voted, votes (compared pairs),
    /// films, and films compared at least once.
    pub fn stats(&self) -> (st: Stats)
        requires
            total_compared(self.users@) <= usize::MAX,
        ensures
            st.total_users == self.users@.len(),
            st.active_users == active_users_spec(self.users@),
            st.total_votes == total_compared(self.users@),
            st.total_films == self.films@.len(),
            st.films_with_votes == active_ids_spec(self.bt_ratings@).len(),
            st.films_with_votes == Set::new(
                |i: int| 0 <= i < self.bt_ratings@.len() && self.bt_ratings@[i].comparisons > 0,
            ).len(),
    {
        let n = self.users.len();
        let mut active: usize = 0;
        for i in 0..n
            invariant
                n == self.users@.len(),
                active == active_users_spec(self.users@.take(i as int)),
                active <= i,
        {
            assert(self.users@.take(i + 1).drop_last() =~= self.users@.take(i as int));
            if self.users[i].1.compared_pairs.len() > 0 {
                active = active + 1;
            }
        }
        assert(self.users@.take(n as int) =~= self.users@);
        let total_votes = crate::persistence::count_votes(&self.users);
        let fwv = active_ids(&self.bt_ratings).len();
        proof {
            crate::view_laws::active_ids_are_the_compared_films(self.bt_ratings@);
        }
        Stats {
            total_users: n,
            active_users: active,
            total_votes,
            total_films: self.films.len(),
            films_with_votes: fwv,
        }
    }
}

// ---------------------------------------------------------------------------
// Sorting ids
// ---------------------------------------------------------------------------

/// Strictly increasing.
pub open spec fn strictly_increasing(s: Seq<usize>) -> bool {
    forall|i: int, j: int| 0 <= i < j < s.len() ==> s[i] < s[j]
}

/// The distinct values of `v`, in increasing order.
pub fn sorted_distinct(v: &Vec<usize>) -> (r: Vec<usize>)
    ensures
        strictly_increasing(r@),
        r@.to_set() == v@.to_set(),
{
    let n = v.len();
    let mut r: Vec<usize> = Vec::new();
    for i in 0..n
        invariant
            n == v@.len(),
            strictly_increasing(r@),
            r@.to_set() == v@.take(i as int).to_set(),
    {
        let x = v[i];
        let ghost before = r@;
        let m = r.len();
        let mut k: usize = 0;
        while k < m && r[k] < x
            invariant
                m == r@.len(),
                k <= m,
                forall|j: int| 0 <= j < k ==> r@[j] < x,
            decreases m - k,
        {
            k = k + 1;
        }
        if k < m && r[k] == x {
            proof {
                assert(before.to_set().contains(x));
            }
        } else {
            r.insert(k, x);
            proof {
                assert(r@ == before.insert(k as int, x));
                assert forall|a: int, b: int| 0 <= a < b < r@.len() implies r@[a] < r@[b] by {
                    if b < k {
                        assert(r@[a] == before[a] && r@[b] == before[b]);
                    } else if b == k {
                        assert(r@[a] == before[a]);
                    } else if a < k {
                        assert(r@[b] == before[b - 1]);
                        assert(r@[a] == before[a]);
                        assert(before[k as int] > x || before[k as int] >= x);
                        if k < b - 1 {
                            assert(before[k as int] < before[b - 1]);
                        }
                    } else if a == k {
                        assert(r@[b] == before[b - 1]);
                        if k < b - 1 {
                            assert(before[k as int] < before[b - 1]);
                        }
                    } else {
                        assert(r@[a] == before[a - 1] && r@[b] == before[b - 1]);
                    }
                }
                assert forall|y: usize| r@.to_set().contains(y) <==> before.to_set().insert(x).contains(y) by {
                    if r@.to_set().contains(y) {
                        let j = choose|j: int| 0 <= j < r@.len() && r@[j] == y;
                        if j < k {
                            assert(before[j] == y);
                        } else if j > k {
                            assert(before[j - 1] == y);
                        }
                    }
                    if before.to_set().contains(y) {
                        let j = choose|j: int| 0 <= j < before.len() && before[j] == y;
                        if j < k {
                            assert(r@[j] == y);
                        } else {
                            assert(r@[j + 1] == y);
                        }
                    }
                    if y == x {
                        assert(r@[k as int] == x);
                    }
                }
                assert(r@.to_set() =~= before.to_set().insert(x));
            }
        }
        proof {
            assert(v@.take(i + 1) =~= v@.take(i as int).push(x));
            v@.take(i as int).lemma_push_to_set_commute(x);
            assert(r@.to_set() =~= v@.take(i + 1).to_set());
        }
    }
    assert(v@.take(n as int) =~= v@);
    r
}

// ---------------------------------------------------------------------------
// Win matrices
// ---------------------------------------------------------------------------

/// The (id, title) of each listed film that exists, in list order.
pub open spec fn known_films(ids: Seq<usize>, fm: Map<usize, crate::models::FilmView>) -> Seq<
    (usize, Seq<char>),
>
    decreases ids.len(),
{
    if ids.len() == 0 {
        Seq::empty()
    } else {
        let r = known_films(ids.drop_last(), fm);
        if fm.contains_key(ids.last()) {
            r.push((ids.last(), fm[ids.last()].title))
        } else {
            r
        }
    }
}

/// The (id, title) pairs held by a list.
pub open spec fn title_views(v: Seq<(usize, String)>) -> Seq<(usize, Seq<char>)> {
    v.map_values(|e: (usize, String)| (e.0, e.1@))
}

/// The id and title of each listed film that exists, in list order.
pub fn film_titles(films: &Vec<Film>, ids: &Vec<usize>) -> (r: Vec<(usize, String)>)
    requires
        distinct_keys(film_entries(films@)),
    ensures
        title_views(r@) == known_films(ids@, films_map(films@)),
{
    let n = ids.len();
    let mut r: Vec<(usize, String)> = Vec::new();
    for i in 0..n
        invariant
            n == ids@.len(),
            distinct_keys(film_entries(films@)),
            title_views(r@) == known_films(ids@.take(i as int), films_map(films@)),
    {
        assert(ids@.take(i + 1).drop_last() =~= ids@.take(i as int));
        let ghost before = r@;
        match find_film(films, ids[i]) {
            Some(k) => {
                let t = films[k].title.clone();
                r.push((ids[i], t));
                assert(title_views(r@) =~= title_views(before).push((ids@[i as int], films_map(films@)[ids@[i as int]].title)));
            },
            None => {},
        }
    }
    assert(ids@.take(n as int) =~= ids@);
    r
}

/// The wins of a rating's entries with a positive count, as
/// (winner, loser, count), in entry order.
pub open spec fn positive_wins(id: usize, w: Seq<(usize, u32)>) -> Seq<(usize, usize, u32)>
    decreases w.len(),
{
    if w.len() == 0 {
        Seq::empty()
    } else {
        let r = positive_wins(id, w.drop_last());
        if w.last().1 > 0 {
            r.push((id, w.last().0, w.last().1))
        } else {
            r
        }
    }
}

/// The entry list of film `id`'s wins (empty when it has no entry).
pub open spec fn wins_list_of(rs: Seq<BtRating>, id: usize) -> Seq<(usize, u32)> {
    if keys_of(rating_entries(rs)).contains(id) {
        rs[crate::assoc::index_of_key(rating_entries(rs), id)].wins_against@
    } else {
        Seq::empty()
    }
}

/// The positive wins of each listed film, film after film.
pub open spec fn matrix_wins(rs: Seq<BtRating>, ids: Seq<usize>) -> Seq<(usize, usize, u32)>
    decreases ids.len(),
{
    if ids.len() == 0 {
        Seq::empty()
    } else {
        matrix_wins(rs, ids.drop_last()) + positive_wins(ids.last(), wins_list_of(rs, ids.last()))
    }
}

/// The global win matrix: the compared films in increasing id order (with
/// their titles, where known) and every positive win count.
pub struct GlobalMatrix {
    pub film_ids: Vec<usize>,
    pub films: Vec<(usize, String)>,
    pub wins: Vec<(usize, usize, u32)>,
}

fn positive_wins_of(r: &BtRating) -> (out: Vec<(usize, usize, u32)>)
    ensures
        out@ == positive_wins(r.film_id, r.wins_against@),
{
    let n = r.wins_against.len();
    let mut out: Vec<(usize, usize, u32)> = Vec::new();
    for i in 0..n
        invariant
            n == r.wins_against@.len(),
            out@ == positive_wins(r.film_id, r.wins_against@.take(i as int)),
    {
        assert(r.wins_against@.take(i + 1).drop_last() =~= r.wins_against@.take(i as int));
        let (loser, count) = r.wins_against[i];
        if count > 0 {
            out.push((r.film_id, loser, count));
        }
    }
    assert(r.wins_against@.take(n as int) =~= r.wins_against@);
    out
}

impl AppState {
    /// The global win matrix.
    pub fn global_matrix(&self) -> (g: GlobalMatrix)
        requires
            self.well_formed(),
        ensures
            strictly_increasing(g.film_ids@),
            g.film_ids@.to_set() == active_ids_spec(self.bt_ratings@).to_set(),
            title_views(g.films@) == known_films(g.film_ids@, self@.films),
            g.wins@ == matrix_wins(self.bt_ratings@, g.film_ids@),
    {
        let active = active_ids(&self.bt_ratings);
        let ids = sorted_distinct(&active);
        let films = film_titles(&self.films, &ids);
        let n = ids.len();
        let mut wins: Vec<(usize, usize, u32)> = Vec::new();
        for i in 0..n
            invariant
                n == ids@.len(),
                ratings_wf(self.bt_ratings@),
                wins@ == matrix_wins(self.bt_ratings@, ids@.take(i as int)),
        {
            assert(ids@.take(i + 1).drop_last() =~= ids@.take(i as int));
            let ghost before = wins@;
            let ghost e = rating_entries(self.bt_ratings@);
            proof {
                crate::assoc::lemma_index_of_key(e, ids@[i as int]);
            }
            match crate::bt::find_rating(&self.bt_ratings, ids[i]) {
                Some(k) => {
                    assert(e[k as int].0 == ids@[i as int]);
                    assert(keys_of(e)[k as int] == ids@[i as int]);
                    let more = positive_wins_of(&self.bt_ratings[k]);
                    let m = more.len();
                    for j in 0..m
                        invariant
                            m == more@.len(),
                            wins@ == before + more@.take(j as int),
                    {
                        wins.push(more[j]);
                        assert(more@.take(j + 1) =~= more@.take(j as int).push(more@[j as int]));
                        assert(wins@ =~= before + more@.take(j + 1));
                    }
                    assert(more@.take(m as int) =~= more@);
                },
                None => {
                    proof {
                        crate::assoc::lemma_assoc_dom(e);
                    }
                    assert(positive_wins(ids@[i as int], Seq::empty()) =~= Seq::<(usize, usize, u32)>::empty());
                    assert(wins@ =~= before + positive_wins(ids@[i as int], Seq::empty()));
                },
            }
        }
        assert(ids@.take(n as int) =~= ids@);
        GlobalMatrix { film_ids: ids, films, wins }
    }
}

/// The state of user `uid` in a user list (meaningful when the user exists).
pub open spec fn user_state_of(us: Seq<(String, UserState)>, uid: Seq<char>) -> UserState {
    us[crate::assoc::index_of_key(crate::persistence::user_entries(us), uid)].1
}

/// The outcomes whose key names a pair, as (first id, second id, winner),
/// in order.
pub open spec fn parsed_outcomes(o: Seq<(Seq<char>, usize)>) -> Seq<(usize, usize, usize)>
    decreases o.len(),
{
    if o.len() == 0 {
        Seq::empty()
    } else {
        let r = parsed_outcomes(o.drop_last());
        match parse_pair_key_spec(o.last().0) {
            Some((a, b)) => r.push((a, b, o.last().1)),
            None => r,
        }
    }
}

/// The compared pairs that have no recorded outcome, in order.
pub open spec fn legacy_pairs(c: Seq<(usize, usize)>, om: Map<Seq<char>, usize>) -> Seq<(usize, usize)>
    decreases c.len(),
{
    if c.len() == 0 {
        Seq::empty()
    } else {
        let r = legacy_pairs(c.drop_last(), om);
        if om.contains_key(crate::models::pair_key_spec(c.last().0, c.last().1)) {
            r
        } else {
            r.push(c.last())
        }
    }
}

/// The films that appear in a user's votes and unresolved pairs.
pub open spec fn matrix_film_set(votes: Seq<(usize, usize, usize)>, legacy: Seq<(usize, usize)>) -> Set<usize> {
    Set::new(
        |f: usize|
            (exists|i: int| 0 <= i < votes.len() && (votes[i].0 == f || votes[i].1 == f)) || (exists|
                i: int,
            |
                0 <= i < legacy.len() && (legacy[i].0 == f || legacy[i].1 == f)),
    )
}

/// Both films of every vote and of every pair without a recorded winner
/// are in `ids`.
pub open spec fn lists_both_films(ids: Seq<usize>, votes: Seq<(usize, usize, usize)>, legacy: Seq<(usize, usize)>) -> bool {
    &&& forall|i: int| 0 <= i < votes.len() ==> ids.contains(#[trigger] votes[i].0) && ids.contains(votes[i].1)
    &&& forall|i: int| 0 <= i < legacy.len() ==> ids.contains(#[trigger] legacy[i].0) && ids.contains(legacy[i].1)
}

/// Both films of every vote and of every pair without a recorded winner
/// are films of the matrix, and the matrix holds no other film.
pub proof fn matrix_films_cover_pairs(votes: Seq<(usize, usize, usize)>, legacy: Seq<(usize, usize)>)
    ensures
        forall|i: int| 0 <= i < votes.len() ==> matrix_film_set(votes, legacy).contains(#[trigger] votes[i].0)
            && matrix_film_set(votes, legacy).contains(votes[i].1),
        forall|i: int| 0 <= i < legacy.len() ==> matrix_film_set(votes, legacy).contains(#[trigger] legacy[i].0)
            && matrix_film_set(votes, legacy).contains(legacy[i].1),
        forall|f: usize| #[trigger] matrix_film_set(votes, legacy).contains(f) ==> (exists|i: int|
            0 <= i < votes.len() && (votes[i].0 == f || votes[i].1 == f)) || (exists|i: int|
            0 <= i < legacy.len() && (legacy[i].0 == f || legacy[i].1 == f)),
{
    assert forall|i: int| 0 <= i < votes.len() implies matrix_film_set(votes, legacy).contains(#[trigger] votes[i].0)
        && matrix_film_set(votes, legacy).contains(votes[i].1) by {
        let a = votes[i].0;
        let b = votes[i].1;
        assert(0 <= i < votes.len() && (votes[i].0 == a || votes[i].1 == a));
        assert(0 <= i < votes.len() && (votes[i].0 == b || votes[i].1 == b));
    }
    assert forall|i: int| 0 <= i < legacy.len() implies matrix_film_set(votes, legacy).contains(#[trigger] legacy[i].0)
        && matrix_film_set(votes, legacy).contains(legacy[i].1) by {
        let a = legacy[i].0;
        let b = legacy[i].1;
        assert(0 <= i < legacy.len() && (legacy[i].0 == a || legacy[i].1 == a));
        assert(0 <= i < legacy.len() && (legacy[i].0 == b || legacy[i].1 == b));
    }
}

/// A user's vote matrix: the films involved, in increasing id order (with
/// titles, where known), the votes with their winners, and the compared
/// pairs without a recorded winner.
pub struct UserMatrix {
    pub film_ids: Vec<usize>,
    pub films: Vec<(usize, String)>,
    pub votes: Vec<(usize, usize, usize)>,
    pub legacy: Vec<(usize, usize)>,
}

impl AppState {
    /// User `uid`'s vote matrix, or nothing for an unknown user.
    pub fn user_matrix(&self, uid: &String) -> (r: Option<UserMatrix>)
        requires
            self.well_formed(),
        ensures
            r is None <==> !self@.users.contains_key(uid@),
            r matches Some(m) ==> {
                let u = user_state_of(self.users@, uid@);
                &&& m.votes@ == parsed_outcomes(outcome_entries(u.vote_outcomes@))
                &&& m.legacy@ == legacy_pairs(u.compared_pairs@, u@.outcomes)
                &&& strictly_increasing(m.film_ids@)
                &&& m.film_ids@.to_set() == matrix_film_set(m.votes@, m.legacy@)
                &&& title_views(m.films@) == known_films(m.film_ids@, self@.films)
                &&& lists_both_films(m.film_ids@, m.votes@, m.legacy@)
            },
    {
        let i = match find_user(&self.users, uid) {
            Some(i) => i,
            None => {
                return None;
            },
        };
        proof {
            crate::assoc::lemma_index_of_key(crate::persistence::user_entries(self.users@), uid@);
            assert(crate::persistence::user_entries(self.users@)[i as int].0 == uid@);
        }
        let u = &self.users[i].1;
        assert(*u == user_state_of(self.users@, uid@));
        proof {
            assert(u.well_formed());
        }
        let ghost o = outcome_entries(u.vote_outcomes@);
        let mut ids: Vec<usize> = Vec::new();
        let mut votes: Vec<(usize, usize, usize)> = Vec::new();
        let n = u.vote_outcomes.len();
        for j in 0..n
            invariant
                n == u.vote_outcomes@.len(),
                o == outcome_entries(u.vote_outcomes@),
                votes@ == parsed_outcomes(o.take(j as int)),
                forall|f: usize| ids@.contains(f) <==> matrix_film_set(votes@, Seq::empty()).contains(f),
        {
            assert(o.take(j + 1).drop_last() =~= o.take(j as int));
            assert(o[j as int].0 == u.vote_outcomes@[j as int].0@);
            let ghost vb = votes@;
            let ghost ib = ids@;
            match parse_pair_key(u.vote_outcomes[j].0.as_str()) {
                Some((a, b)) => {
                    let x = (a, b, u.vote_outcomes[j].1);
                    votes.push(x);
                    ids.push(a);
                    ids.push(b);
                    proof {
                        assert forall|f: usize| ids@.contains(f) <==> matrix_film_set(votes@, Seq::empty()).contains(f) by {
                            if ids@.contains(f) {
                                let k = choose|k: int| 0 <= k < ids@.len() && ids@[k] == f;
                                if k < ib.len() {
                                    assert(ib[k] == f);
                                    assert(ib.contains(f));
                                    assert(matrix_film_set(vb, Seq::empty()).contains(f));
                                    let q = choose|q: int| 0 <= q < vb.len() && (vb[q].0 == f || vb[q].1 == f);
                                    assert(votes@[q] == vb[q]);
                                } else {
                                    assert(votes@[vb.len() as int] == x);
                                }
                            }
                            if matrix_film_set(votes@, Seq::empty()).contains(f) {
                                let q = choose|q: int| 0 <= q < votes@.len() && (votes@[q].0 == f || votes@[q].1 == f);
                                if q < vb.len() {
                                    assert(vb[q] == votes@[q]);
                                    assert(matrix_film_set(vb, Seq::empty()).contains(f));
                                    assert(ib.contains(f));
                                    let k = choose|k: int| 0 <= k < ib.len() && ib[k] == f;
                                    assert(ids@[k] == f);
                                } else {
                                    if a == f {
                                        assert(ids@[ib.len() as int] == f);
                                    } else {
                                        assert(ids@[ib.len() as int + 1] == f);
                                    }
                                }
                            }
                        }
                    }
                },
                None => {},
            }
        }
        assert(o.take(n as int) =~= o);
        let mut legacy: Vec<(usize, usize)> = Vec::new();
        let ghost c = u.compared_pairs@;
        let m = u.compared_pairs.len();
        for j in 0..m
            invariant
                m == u.compared_pairs@.len(),
                c == u.compared_pairs@,
                u.well_formed(),
                legacy@ == legacy_pairs(c.take(j as int), u@.outcomes),
                forall|f: usize| ids@.contains(f) <==> matrix_film_set(votes@, legacy@).contains(f),
        {
            assert(c.take(j + 1).drop_last() =~= c.take(j as int));
            let (a, b) = u.compared_pairs[j];
            let key = pair_key(a, b);
            let ghost lb = legacy@;
            let ghost ib = ids@;
            if u.find_outcome(&key).is_none() {
                legacy.push((a, b));
                ids.push(a);
                ids.push(b);
                proof {
                    assert forall|f: usize| ids@.contains(f) <==> matrix_film_set(votes@, legacy@).contains(f) by {
                        if ids@.contains(f) {
                            let k = choose|k: int| 0 <= k < ids@.len() && ids@[k] == f;
                            if k < ib.len() {
                                assert(ib[k] == f);
                                assert(ib.contains(f));
                                assert(matrix_film_set(votes@, lb).contains(f));
                                if exists|q: int| 0 <= q < lb.len() && (lb[q].0 == f || lb[q].1 == f) {
                                    let q = choose|q: int| 0 <= q < lb.len() && (lb[q].0 == f || lb[q].1 == f);
                                    assert(legacy@[q] == lb[q]);
                                }
                            } else {
                                assert(legacy@[lb.len() as int] == (a, b));
                            }
                        }
                        if matrix_film_set(votes@, legacy@).contains(f) {
                            if exists|q: int| 0 <= q < legacy@.len() && (legacy@[q].0 == f || legacy@[q].1 == f) {
                                let q = choose|q: int| 0 <= q < legacy@.len() && (legacy@[q].0 == f || legacy@[q].1 == f);
                                if q < lb.len() {
                                    assert(lb[q] == legacy@[q]);
                                    assert(matrix_film_set(votes@, lb).contains(f));
                                    assert(ib.contains(f));
                                    let k = choose|k: int| 0 <= k < ib.len() && ib[k] == f;
                                    assert(ids@[k] == f);
                                } else {
                                    if a == f {
                                        assert(ids@[ib.len() as int] == f);
                                    } else {
                                        assert(ids@[ib.len() as int + 1] == f);
                                    }
                                }
                            } else {
                                assert(matrix_film_set(votes@, lb).contains(f));
                                assert(ib.contains(f));
                                let k = choose|k: int| 0 <= k < ib.len() && ib[k] == f;
                                assert(ids@[k] == f);
                            }
                        }
                    }
                }
            } else {
                proof {
                    assert forall|f: usize| matrix_film_set(votes@, legacy@).contains(f) == matrix_film_set(votes@, lb).contains(f) by {}
                }
            }
        }
        assert(c.take(m as int) =~= c);
        let film_ids = sorted_distinct(&ids);
        proof {
            assert(film_ids@.to_set() =~= matrix_film_set(votes@, legacy@));
            matrix_films_cover_pairs(votes@, legacy@);
            assert forall|i: int| 0 <= i < votes@.len() implies film_ids@.contains(#[trigger] votes@[i].0)
                && film_ids@.contains(votes@[i].1) by {
                assert(film_ids@.to_set().contains(votes@[i].0));
                assert(film_ids@.to_set().contains(votes@[i].1));
            }
            assert forall|i: int| 0 <= i < legacy@.len() implies film_ids@.contains(#[trigger] legacy@[i].0)
                && film_ids@.contains(legacy@[i].1) by {
                assert(film_ids@.to_set().contains(legacy@[i].0));
                assert(film_ids@.to_set().contains(legacy@[i].1));
            }
        }
        let films = film_titles(&self.films, &film_ids);
        let out = UserMatrix { film_ids, films, votes, legacy };
        assert(lists_both_films(out.film_ids@, out.votes@, out.legacy@));
        Some(out)
    }
}

// ---------------------------------------------------------------------------
// Leaderboard eligibility
// ---------------------------------------------------------------------------

/// The fewest comparisons a film needs to be ranked.
pub const MIN_VOTES: u32 = 10;

/// The fewest different voters a film needs to be ranked.
pub const MIN_VOTERS: usize = 2;

/// Whether a pair key names a pair with film `f`.
pub open spec fn names_film(key: Seq<char>, f: usize) -> bool {
    match parse_pair_key_spec(key) {
        Some((a, b)) => a == f || b == f,
        None => false,
    }
}

/// Whether one of the outcomes names a pair with film `f`.
pub open spec fn voted_on(o: Seq<(Seq<char>, usize)>, f: usize) -> bool {
    exists|i: int| 0 <= i < o.len() && #[trigger] names_film(o[i].0, f)
}

/// The number of users whose outcomes name a pair with film `f`.
pub open spec fn voter_count(ls: Seq<(Seq<char>, Seq<(Seq<char>, usize)>)>, f: usize) -> nat
    decreases ls.len(),
{
    if ls.len() == 0 {
        0
    } else {
        voter_count(ls.drop_last(), f) + if voted_on(ls.last().1, f) {
            1nat
        } else {
            0nat
        }
    }
}

/// The films, in entry order, with at least `MIN_VOTES` comparisons from at
/// least `MIN_VOTERS` different users.
pub open spec fn eligible_films(rs: Seq<BtRating>, ls: Seq<(Seq<char>, Seq<(Seq<char>, usize)>)>) -> Seq<
    usize,
>
    decreases rs.len(),
{
    if rs.len() == 0 {
        Seq::empty()
    } else {
        let r = eligible_films(rs.drop_last(), ls);
        let x = rs.last();
        if x.comparisons >= MIN_VOTES && voter_count(ls, x.film_id) >= MIN_VOTERS {
            r.push(x.film_id)
        } else {
            r
        }
    }
}

fn has_voted_on(u: &UserState, f: usize) -> (b: bool)
    ensures
        b == voted_on(outcome_entries(u.vote_outcomes@), f),
{
    let ghost o = outcome_entries(u.vote_outcomes@);
    let n = u.vote_outcomes.len();
    for i in 0..n
        invariant
            n == u.vote_outcomes@.len(),
            o == outcome_entries(u.vote_outcomes@),
            forall|j: int| 0 <= j < i ==> !#[trigger] names_film(o[j].0, f),
    {
        assert(o[i as int].0 == u.vote_outcomes@[i as int].0@);
        match parse_pair_key(u.vote_outcomes[i].0.as_str()) {
            Some((a, b)) => {
                if a == f || b == f {
                    assert(names_film(o[i as int].0, f));
                    return true;
                }
            },
            None => {},
        }
    }
    false
}

/// The number of users whose votes name film `f`.
pub fn count_voters(us: &Vec<(String, UserState)>, f: usize) -> (n: usize)
    ensures
        n == voter_count(user_outcome_lists(us@), f),
        n == Set::new(
            |i: int|
                0 <= i < us@.len() && crate::view_laws::outcomes_name(
                    outcome_entries(us@[i].1.vote_outcomes@),
                    f,
                ),
        ).len(),
{
    let ghost ls = user_outcome_lists(us@);
    let len = us.len();
    let mut n: usize = 0;
    for i in 0..len
        invariant
            len == us@.len(),
            ls == user_outcome_lists(us@),
            n == voter_count(ls.take(i as int), f),
            n <= i,
    {
        assert(ls.take(i + 1).drop_last() =~= ls.take(i as int));
        assert(ls[i as int].1 == outcome_entries(us@[i as int].1.vote_outcomes@));
        if has_voted_on(&us[i].1, f) {
            n = n + 1;
        }
    }
    assert(ls.take(len as int) =~= ls);
    proof {
        crate::view_laws::voter_count_counts_users_naming_the_film(ls, f);
        assert(Set::new(|i: int| 0 <= i < ls.len() && crate::view_laws::outcomes_name(ls[i].1, f))
            =~= Set::new(
            |i: int|
                0 <= i < us@.len() && crate::view_laws::outcomes_name(
                    outcome_entries(us@[i].1.vote_outcomes@),
                    f,
                ),
        ));
    }
    n
}

/// The films that may appear on the leaderboard, in entry order: at least
/// `MIN_VOTES` comparisons, from at least `MIN_VOTERS` different users.
/// Ordering them by strength is up to the caller.
pub fn ranked_films(ratings: &Vec<BtRating>, users: &Vec<(String, UserState)>) -> (ids: Vec<usize>)
    ensures
        ids@ == eligible_films(ratings@, user_outcome_lists(users@)),
{
    let n = ratings.len();
    let mut ids: Vec<usize> = Vec::new();
    for i in 0..n
        invariant
            n == ratings@.len(),
            ids@ == eligible_films(ratings@.take(i as int), user_outcome_lists(users@)),
    {
        assert(ratings@.take(i + 1).drop_last() =~= ratings@.take(i as int));
        let r = &ratings[i];
        if r.comparisons >= MIN_VOTES && count_voters(users, r.film_id) >= MIN_VOTERS {
            ids.push(r.film_id);
        }
    }
    assert(ratings@.take(n as int) =~= ratings@);
    ids
}

/// Every ranked film has enough comparisons from enough voters.
pub proof fn ranked_films_are_eligible(rs: Seq<BtRating>, ls: Seq<(Seq<char>, Seq<(Seq<char>, usize)>)>)
    ensures
        forall|k: int|
            0 <= k < eligible_films(rs, ls).len() ==> exists|i: int|
                0 <= i < rs.len() && rs[i].film_id == #[trigger] eligible_films(rs, ls)[k]
                    && rs[i].comparisons >= MIN_VOTES && voter_count(ls, rs[i].film_id)
                    >= MIN_VOTERS,
    decreases rs.len(),
{
    if rs.len() > 0 {
        ranked_films_are_eligible(rs.drop_last(), ls);
        let e = eligible_films(rs, ls);
        let e0 = eligible_films(rs.drop_last(), ls);
        assert forall|k: int| 0 <= k < e.len() implies exists|i: int|
            0 <= i < rs.len() && rs[i].film_id == #[trigger] e[k] && rs[i].comparisons
                >= MIN_VOTES && voter_count(ls, rs[i].film_id) >= MIN_VOTERS by {
            if k < e0.len() {
                assert(e[k] == e0[k]);
                let i = choose|i: int|
                    0 <= i < rs.drop_last().len() && rs.drop_last()[i].film_id == e0[k]
                        && rs.drop_last()[i].comparisons >= MIN_VOTES && voter_count(
                        ls,
                        rs.drop_last()[i].film_id,
                    ) >= MIN_VOTERS;
                assert(rs[i] == rs.drop_last()[i]);
            } else {
                assert(rs[rs.len() - 1].film_id == e[k]);
            }
        }
    }
}

// ---------------------------------------------------------------------------
// Contributions
// ---------------------------------------------------------------------------

/// One user's contribution, as shown to a given user.
pub struct Contribution {
    pub label: String,
    pub is_you: bool,
    pub films_selected: usize,
    pub votes: usize,
}

/// (is the asking user, films selected, pairs compared) of every user who
/// compared at least one pair, in user order.
pub open spec fn contribution_rows(us: Seq<(String, UserState)>, me: Seq<char>) -> Seq<(bool, usize, usize)>
    decreases us.len(),
{
    if us.len() == 0 {
        Seq::empty()
    } else {
        let r = contribution_rows(us.drop_last(), me);
        let (id, u) = us.last();
        if u.compared_pairs@.len() > 0 {
            r.push((id@ == me, u.seen_films@.len() as usize, u.compared_pairs@.len() as usize))
        } else {
            r
        }
    }
}

/// `x` comes before `y`: more votes, or as many votes and more films.
pub open spec fn ranks_before(x: (bool, usize, usize), y: (bool, usize, usize)) -> bool {
    x.2 > y.2 || (x.2 == y.2 && x.1 > y.1)
}

/// Where `x` goes in `s`: before the first entry it ranks before.
pub open spec fn insert_pos(s: Seq<(bool, usize, usize)>, x: (bool, usize, usize)) -> int
    decreases s.len(),
{
    if s.len() == 0 {
        0
    } else if ranks_before(x, s[0]) {
        0
    } else {
        1 + insert_pos(s.skip(1), x)
    }
}

/// The rows ordered by votes, then films, both decreasing; rows that tie
/// keep their order.
pub open spec fn sort_rows(s: Seq<(bool, usize, usize)>) -> Seq<(bool, usize, usize)>
    decreases s.len(),
{
    if s.len() == 0 {
        s
    } else {
        let r = sort_rows(s.drop_last());
        r.insert(insert_pos(r, s.last()), s.last())
    }
}

/// The label of the contribution at position `i`: "You" for the asking
/// user, otherwise "User " and the position counted from one.
pub open spec fn contribution_label(i: int, is_you: bool) -> Seq<char> {
    if is_you {
        "You"@
    } else {
        "User "@ + crate::text::decimal((i + 1) as nat)
    }
}

proof fn lemma_insert_pos(s: Seq<(bool, usize, usize)>, x: (bool, usize, usize), k: int)
    requires
        0 <= k <= s.len(),
        forall|j: int| 0 <= j < k ==> !ranks_before(x, #[trigger] s[j]),
        k == s.len() || ranks_before(x, s[k]),
    ensures
        insert_pos(s, x) == k,
    decreases s.len(),
{
    if s.len() > 0 && k > 0 {
        assert(!ranks_before(x, s[0]));
        lemma_insert_pos(s.skip(1), x, k - 1);
    }
}

impl AppState {
    /// The contributions of every user who voted, ordered by votes and then
    /// films selected (both decreasing, ties in user order), labelled "You"
    /// for `me` and "User n" by position otherwise.
    pub fn user_contributions(&self, me: &String) -> (r: Vec<Contribution>)
        ensures
            r@.len() == sort_rows(contribution_rows(self.users@, me@)).len(),
            forall|i: int| 0 <= i < r@.len() ==> {
                let row = #[trigger] sort_rows(contribution_rows(self.users@, me@))[i];
                &&& r@[i].is_you == row.0
                &&& r@[i].films_selected == row.1
                &&& r@[i].votes == row.2
                &&& r@[i].label@ == contribution_label(i, row.0)
            },
            forall|i: int, j: int|
                0 <= i < j < r@.len() ==> #[trigger] r@[i].votes > #[trigger] r@[j].votes || (r@[i].votes
                    == r@[j].votes && r@[i].films_selected >= r@[j].films_selected),
    {
        let n = self.users.len();
        let mut rows: Vec<(bool, usize, usize)> = Vec::new();
        for i in 0..n
            invariant
                n == self.users@.len(),
                rows@ == sort_rows(contribution_rows(self.users@.take(i as int), me@)),
        {
            let ghost pre = self.users@.take(i as int);
            assert(self.users@.take(i + 1).drop_last() =~= pre);
            let u = &self.users[i].1;
            if u.compared_pairs.len() > 0 {
                let x = (self.users[i].0.eq(me), u.seen_films.len(), u.compared_pairs.len());
                let m = rows.len();
                let mut k: usize = 0;
                while k < m && !(x.2 > rows[k].2 || (x.2 == rows[k].2 && x.1 > rows[k].1))
                    invariant
                        m == rows@.len(),
                        k <= m,
                        forall|j: int| 0 <= j < k ==> !ranks_before(x, #[trigger] rows@[j]),
                    decreases m - k,
                {
                    k = k + 1;
                }
                proof {
                    lemma_insert_pos(rows@, x, k as int);
                    let c = contribution_rows(self.users@.take(i + 1), me@);
                    assert(c == contribution_rows(pre, me@).push(x));
                    assert(c.drop_last() =~= contribution_rows(pre, me@));
                }
                rows.insert(k, x);
            } else {
                assert(contribution_rows(self.users@.take(i + 1), me@) == contribution_rows(pre, me@));
            }
        }
        assert(self.users@.take(n as int) =~= self.users@);
        let m = rows.len();
        let mut out: Vec<Contribution> = Vec::new();
        for i in 0..m
            invariant
                m == rows@.len(),
                out@.len() == i,
                forall|j: int| 0 <= j < i ==> {
                    let row = #[trigger] rows@[j];
                    &&& out@[j].is_you == row.0
                    &&& out@[j].films_selected == row.1
                    &&& out@[j].votes == row.2
                    &&& out@[j].label@ == contribution_label(j, row.0)
                },
        {
            let (is_you, films, votes) = rows[i];
            let label = if is_you {
                String::from_str("You")
            } else {
                let mut l = String::from_str("User ");
                crate::text::push_decimal(&mut l, (i + 1) as u64);
                l
            };
            out.push(Contribution { label, is_you, films_selected: films, votes });
        }
        proof {
            crate::view_laws::contributions_are_ordered(self.users@, me@);
            assert forall|i: int, j: int| 0 <= i < j < out@.len() implies #[trigger] out@[i].votes
                > #[trigger] out@[j].votes || (out@[i].votes == out@[j].votes && out@[i].films_selected
                >= out@[j].films_selected) by {
                assert(rows@[i] == sort_rows(contribution_rows(self.users@, me@))[i]);
                assert(rows@[j] == sort_rows(contribution_rows(self.users@, me@))[j]);
            }
        }
        out
    }
}

// ---------------------------------------------------------------------------
// The leaderboard as CSV
// ---------------------------------------------------------------------------

/// One ranked film as the leaderboard shows it: its rating already written
/// as text.
pub struct CsvRow {
    pub film_id: usize,
    pub rating: String,
    pub wins: u32,
    pub losses: u32,
    pub comparisons: u32,
}

/// A field for a quoted CSV cell: every `"` doubled.
pub open spec fn csv_escape(s: Seq<char>) -> Seq<char>
    decreases s.len(),
{
    if s.len() == 0 {
        s
    } else {
        csv_escape(s.drop_last()) + if s.last() == '"' {
            seq!['"', '"']
        } else {
            seq![s.last()]
        }
    }
}

/// The title, team and city of film `id`, or "?" for each when it is
/// unknown.
pub open spec fn film_fields(fm: Map<usize, crate::models::FilmView>, id: usize) -> (Seq<char>, Seq<char>, Seq<char>) {
    if fm.contains_key(id) {
        (fm[id].title, fm[id].team, fm[id].city)
    } else {
        ("?"@, "?"@, "?"@)
    }
}

/// The CSV line of the film at rank `rank`.
pub open spec fn csv_line(rank: nat, fm: Map<usize, crate::models::FilmView>, id: usize, rating: Seq<char>, wins: u32, losses: u32, comparisons: u32) -> Seq<char> {
    let (t, m, c) = film_fields(fm, id);
    crate::text::decimal(rank) + ",\""@ + csv_escape(t) + "\",\""@ + csv_escape(m) + "\",\""@
        + csv_escape(c) + "\","@ + rating + ","@ + crate::text::decimal(wins as nat) + ","@
        + crate::text::decimal(losses as nat) + ","@ + crate::text::decimal(comparisons as nat)
        + "\n"@
}

/// The CSV lines of the rows, ranks counted from one.
pub open spec fn csv_lines(rows: Seq<CsvRow>, fm: Map<usize, crate::models::FilmView>) -> Seq<char>
    decreases rows.len(),
{
    if rows.len() == 0 {
        Seq::empty()
    } else {
        let r = rows.last();
        csv_lines(rows.drop_last(), fm) + csv_line(rows.len(), fm, r.film_id, r.rating@, r.wins, r.losses, r.comparisons)
    }
}

/// The leaderboard as CSV: a header line, then one line per row.
pub open spec fn leaderboard_csv_spec(rows: Seq<CsvRow>, fm: Map<usize, crate::models::FilmView>) -> Seq<char> {
    "Rank,Title,Team,City,Rating,Wins,Losses,Comparisons\n"@ + csv_lines(rows, fm)
}

/// Appends `s` with every `"` doubled.
pub fn push_csv_escaped(out: &mut String, s: &str)
    ensures
        final(out)@ == old(out)@ + csv_escape(s@),
{
    let v = crate::text::chars_of(s);
    let n = v.len();
    for i in 0..n
        invariant
            n == v@.len(),
            out@ == old(out)@ + csv_escape(v@.take(i as int)),
    {
        assert(v@.take(i + 1).drop_last() =~= v@.take(i as int));
        let c = v[i];
        crate::text::string_push(out, c);
        if c == '"' {
            crate::text::string_push(out, '"');
        }
        assert(out@ =~= old(out)@ + csv_escape(v@.take(i + 1)));
    }
    assert(v@.take(n as int) =~= v@);
}

fn push_film_fields(csv: &mut String, films: &Vec<Film>, id: usize)
    requires
        distinct_keys(film_entries(films@)),
    ensures
        ({
            let (t, m, c) = film_fields(films_map(films@), id);
            final(csv)@ == old(csv)@ + csv_escape(t) + "\",\""@ + csv_escape(m) + "\",\""@ + csv_escape(c)
        }),
{
    match find_film(films, id) {
        Some(k) => {
            let f = &films[k];
            push_csv_escaped(csv, f.title.as_str());
            csv.append("\",\"");
            push_csv_escaped(csv, f.team.as_str());
            csv.append("\",\"");
            push_csv_escaped(csv, f.city.as_str());
        },
        None => {
            push_csv_escaped(csv, "?");
            csv.append("\",\"");
            push_csv_escaped(csv, "?");
            csv.append("\",\"");
            push_csv_escaped(csv, "?");
        },
    }
    let ghost fields = film_fields(films_map(films@), id);
    assert(csv@ =~= old(csv)@ + csv_escape(fields.0) + "\",\""@ + csv_escape(fields.1) + "\",\""@ + csv_escape(fields.2));
}

#[verifier::spinoff_prover]
#[verifier::rlimit(100)]
fn push_csv_line(csv: &mut String, rank: usize, films: &Vec<Film>, r: &CsvRow)
    requires
        distinct_keys(film_entries(films@)),
    ensures
        final(csv)@ == old(csv)@ + csv_line(rank as nat, films_map(films@), r.film_id, r.rating@, r.wins, r.losses, r.comparisons),
{
    let ghost fields = film_fields(films_map(films@), r.film_id);
    let ghost head = crate::text::decimal(rank as nat) + ",\""@ + csv_escape(fields.0) + "\",\""@
        + csv_escape(fields.1) + "\",\""@ + csv_escape(fields.2);
    let ghost tail = "\","@ + r.rating@ + ","@ + crate::text::decimal(r.wins as nat) + ","@
        + crate::text::decimal(r.losses as nat) + ","@ + crate::text::decimal(r.comparisons as nat) + "\n"@;
    crate::text::push_decimal(csv, rank as u64);
    csv.append(",\"");
    push_film_fields(csv, films, r.film_id);
    assert(csv@ =~= old(csv)@ + head);
    let ghost mid = csv@;
    csv.append("\",");
    csv.append(r.rating.as_str());
    csv.append(",");
    crate::text::push_decimal(csv, r.wins as u64);
    csv.append(",");
    crate::text::push_decimal(csv, r.losses as u64);
    csv.append(",");
    crate::text::push_decimal(csv, r.comparisons as u64);
    csv.append("\n");
    assert(csv@ =~= mid + tail);
    assert(csv_line(rank as nat, films_map(films@), r.film_id, r.rating@, r.wins, r.losses, r.comparisons) =~= head + tail);
    assert(csv@ =~= old(csv)@ + (head + tail));
}

/// The leaderboard as CSV.
pub fn leaderboard_csv(films: &Vec<Film>, rows: &Vec<CsvRow>) -> (csv: String)
    requires
        distinct_keys(film_entries(films@)),
    ensures
        csv@ == leaderboard_csv_spec(rows@, films_map(films@)),
{
    let mut csv = String::from_str("Rank,Title,Team,City,Rating,Wins,Losses,Comparisons\n");
    let n = rows.len();
    for i in 0..n
        invariant
            n == rows@.len(),
            distinct_keys(film_entries(films@)),
            csv@ == "Rank,Title,Team,City,Rating,Wins,Losses,Comparisons\n"@ + csv_lines(rows@.take(i as int), films_map(films@)),
    {
        assert(rows@.take(i + 1).drop_last() =~= rows@.take(i as int));
        push_csv_line(&mut csv, i + 1, films, &rows[i]);
        assert(csv@ =~= "Rank,Title,Team,City,Rating,Wins,Losses,Comparisons\n"@ + csv_lines(rows@.take(i + 1), films_map(films@)));
    }
    assert(rows@.take(n as int) =~= rows@);
    csv
}

} // verus!
