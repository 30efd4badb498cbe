//! The service's state: films, vote counts, users and the ban list, with the
//! rules for rebuilding the counts, guarding the database against shrinking,
//! reading the ban list and naming backups.
use vstd::prelude::*;
use crate::assoc::{
    assoc_map, distinct_keys, keys_of, lemma_assoc_dom, lemma_assoc_get,
};
use crate::bt::{
    BtRating, RatingView, new_rating, ratings_map, ratings_wf, rating_entry, rating_or_new,
    record_vote, record_vote_fits, record_vote_spec, reset_counts,
};
use crate::dates::{civil_from_days, unix_days_to_date};
use crate::models::{
    Film, FilmView, UserState, UserView, outcome_entries, parse_pair_key, parse_pair_key_spec,
};
use crate::tally::{
    lemma_outcomes_fit_prefix, lemma_users_fit_prefix, outcomes_fit, replay_outcomes, replay_users,
    reset_ratings, user_outcome_lists, users_fit,
};
use crate::text::{
    TrimClass, chars_of, decimal, lines, push_zero_padded, split_lines, string_of, trim_chars,
    trim_ws, zero_padded,
};

verus! {

/// The most backups kept.
pub const MAX_BACKUPS: usize = 100;

/// The service's state.
pub struct AppState {
    pub films: Vec<Film>,
    pub bt_ratings: Vec<BtRating>,
    pub users: Vec<(String, UserState)>,
    pub banned: Vec<String>,
    /// The number of votes in the database as last read or written: a save
    /// never writes fewer.
    pub votes_on_disk: usize,
}

/// The content of an [`AppState`].
#[verifier::ext_equal]
pub ghost struct StateView {
    pub films: Map<usize, FilmView>,
    pub ratings: Map<usize, RatingView>,
    pub users: Map<Seq<char>, UserView>,
    pub banned: Set<Seq<char>>,
    pub votes_on_disk: nat,
}

/// The (id, film) entries of a film list.
pub open spec fn film_entries(fs: Seq<Film>) -> Seq<(usize, FilmView)> {
    fs.map_values(|f: Film| (f.id, f@))
}

/// The (user id, state) entries of a user list.
pub open spec fn user_entries(us: Seq<(String, UserState)>) -> Seq<(Seq<char>, UserView)> {
    us.map_values(|e: (String, UserState)| (e.0@, e.1@))
}

/// The character sequences of a list of strings.
pub open spec fn string_views(v: Seq<String>) -> Seq<Seq<char>> {
    v.map_values(|s: String| s@)
}

/// The users by id.
pub open spec fn users_map(us: Seq<(String, UserState)>) -> Map<Seq<char>, UserView> {
    assoc_map(user_entries(us))
}

/// The films by id.
pub open spec fn films_map(fs: Seq<Film>) -> Map<usize, FilmView> {
    assoc_map(film_entries(fs))
}

/// No user id repeats and every user's state is well formed.
pub open spec fn users_wf(us: Seq<(String, UserState)>) -> bool {
    &&& distinct_keys(user_entries(us))
    &&& forall|i: int| 0 <= i < us.len() ==> (#[trigger] us[i]).1.well_formed()
}

impl View for AppState {
    type V = StateView;

    open spec fn view(&self) -> StateView {
        StateView {
            films: films_map(self.films@),
            ratings: ratings_map(self.bt_ratings@),
            users: users_map(self.users@),
            banned: string_views(self.banned@).to_set(),
            votes_on_disk: self.votes_on_disk as nat,
        }
    }
}

impl AppState {
    /// No film, rating, user or banned id repeats.
    pub open spec fn well_formed(&self) -> bool {
        &&& distinct_keys(film_entries(self.films@))
        &&& ratings_wf(self.bt_ratings@)
        &&& users_wf(self.users@)
        &&& string_views(self.banned@).no_duplicates()
    }

    /// The state made of the given films, counts, users and ban list, with
    /// `votes_on_disk` as the number of votes the database held.
    pub fn new(
        films: Vec<Film>,
        ratings: Vec<BtRating>,
        users: Vec<(String, UserState)>,
        votes_on_disk: usize,
        banned: Vec<String>,
    ) -> (s: AppState)
        ensures
            s.films == films,
            s.bt_ratings == ratings,
            s.users == users,
            s.banned == banned,
            s@.votes_on_disk == votes_on_disk,
    {
        AppState { films, bt_ratings: ratings, users, banned, votes_on_disk }
    }

    /// The number of votes the database held when last read or written.
    pub fn votes_on_disk(&self) -> (n: usize)
        ensures
            n == self@.votes_on_disk,
    {
        self.votes_on_disk
    }

    /// Whether `user_id` is on the ban list.
    pub fn is_banned(&self, user_id: &str) -> (b: bool)
        ensures
            b == self@.banned.contains(user_id@),
    {
        let s = String::from_str(user_id);
        contains_string(&self.banned, &s)
    }
}

/// Whether `s` is in `v`.
pub fn contains_string(v: &Vec<String>, s: &String) -> (b: bool)
    ensures
        b == string_views(v@).contains(s@),
{
    let n = v.len();
    for i in 0..n
        invariant
            n == v@.len(),
            forall|j: int| 0 <= j < i ==> #[trigger] v@[j]@ != s@,
    {
        if v[i].eq(s) {
            assert(string_views(v@)[i as int] == s@);
            return true;
        }
    }
    proof {
        if string_views(v@).contains(s@) {
            let j = choose|j: int| 0 <= j < string_views(v@).len() && string_views(v@)[j] == s@;
            assert(v@[j]@ == s@);
        }
    }
    false
}

/// Finds the entry of user `uid`.
pub fn find_user(us: &Vec<(String, UserState)>, uid: &String) -> (r: Option<usize>)
    requires
        users_wf(us@),
    ensures
        r matches Some(i) ==> i < us@.len() && us@[i as int].0@ == uid@ && users_map(us@).contains_key(
            uid@,
        ) && users_map(us@)[uid@] == us@[i as int].1@,
        r is None ==> !users_map(us@).contains_key(uid@),
{
    let n = us.len();
    for i in 0..n
        invariant
            n == us@.len(),
            users_wf(us@),
            forall|j: int| 0 <= j < i ==> #[trigger] us@[j].0@ != uid@,
    {
        if us[i].0.eq(uid) {
            proof {
                lemma_assoc_get(user_entries(us@), i as int);
            }
            return Some(i);
        }
    }
    proof {
        let e = user_entries(us@);
        lemma_assoc_dom(e);
        if keys_of(e).contains(uid@) {
            let j = choose|j: int| 0 <= j < keys_of(e).len() && keys_of(e)[j] == uid@;
            assert(us@[j].0@ == uid@);
        }
    }
    None
}

/// Finds the film with id `id`.
pub fn find_film(fs: &Vec<Film>, id: usize) -> (r: Option<usize>)
    requires
        distinct_keys(film_entries(fs@)),
    ensures
        r matches Some(i) ==> i < fs@.len() && fs@[i as int].id == id && films_map(fs@).contains_key(id)
            && films_map(fs@)[id] == fs@[i as int]@,
        r is None ==> !films_map(fs@).contains_key(id),
{
    let n = fs.len();
    for i in 0..n
        invariant
            n == fs@.len(),
            distinct_keys(film_entries(fs@)),
            forall|j: int| 0 <= j < i ==> #[trigger] fs@[j].id != id,
    {
        if fs[i].id == id {
            proof {
                lemma_assoc_get(film_entries(fs@), i as int);
            }
            return Some(i);
        }
    }
    proof {
        let e = film_entries(fs@);
        lemma_assoc_dom(e);
        if keys_of(e).contains(id) {
            let j = choose|j: int| 0 <= j < keys_of(e).len() && keys_of(e)[j] == id;
            assert(fs@[j].id == id);
        }
    }
    None
}

// ---------------------------------------------------------------------------
// Counting votes and guarding saves
// ---------------------------------------------------------------------------

/// The number of pairs the users have compared, over all users.
pub open spec fn total_compared(us: Seq<(String, UserState)>) -> int
    decreases us.len(),
{
    if us.len() == 0 {
        0
    } else {
        total_compared(us.drop_last()) + us.last().1.compared_pairs@.len()
    }
}

/// The number of compared pairs of all users, or `None` where it does not
/// fit in a `usize`.
pub fn checked_vote_count(users: &Vec<(String, UserState)>) -> (r: Option<usize>)
    ensures
        r == (if total_compared(users@) <= usize::MAX {
            Some(total_compared(users@) as usize)
        } else {
            None
        }),
{
    let len = users.len();
    let mut n: usize = 0;
    for i in 0..len
        invariant
            len == users@.len(),
            n == total_compared(users@.take(i as int)),
    {
        assert(users@.take(i + 1).drop_last() =~= users@.take(i as int));
        match n.checked_add(users[i].1.compared_pairs.len()) {
            Some(t) => {
                n = t;
            },
            None => {
                proof {
                    lemma_total_compared_prefix(users@, i + 1);
                }
                return None;
            },
        }
    }
    assert(users@.take(len as int) =~= users@);
    Some(n)
}

/// The number of pairs the users have compared, over all users.
pub fn count_votes(users: &Vec<(String, UserState)>) -> (n: usize)
    requires
        total_compared(users@) <= usize::MAX,
    ensures
        n == total_compared(users@),
{
    let len = users.len();
    let mut n: usize = 0;
    for i in 0..len
        invariant
            len == users@.len(),
            total_compared(users@) <= usize::MAX,
            n == total_compared(users@.take(i as int)),
    {
        assert(users@.take(i + 1).drop_last() =~= users@.take(i as int));
        proof {
            lemma_total_compared_prefix(users@, i + 1);
        }
        n = n + users[i].1.compared_pairs.len();
    }
    assert(users@.take(len as int) =~= users@);
    n
}

proof fn lemma_total_compared_prefix(us: Seq<(String, UserState)>, k: int)
    requires
        0 <= k <= us.len(),
    ensures
        total_compared(us.take(k)) <= total_compared(us),
    decreases us.len() - k,
{
    if k < us.len() {
        lemma_total_compared_prefix(us, k + 1);
        assert(us.take(k + 1).drop_last() =~= us.take(k));
    } else {
        assert(us.take(k) =~= us);
    }
}

/// What a save does.
pub enum SaveDecision {
    /// The state holds fewer votes than the database: nothing is written.
    Refuse { new_votes: usize, min_votes: usize },
    /// The state is written; it holds `new_votes` votes.
    Write { new_votes: usize },
}

impl AppState {
    /// Decides whether the state may be written: never when it holds fewer
    /// votes than the database last held.
    pub fn save_check(&self) -> (d: SaveDecision)
        requires
            total_compared(self.users@) <= usize::MAX,
        ensures
            total_compared(self.users@) < self@.votes_on_disk <==> d is Refuse,
            d matches SaveDecision::Refuse { new_votes, min_votes } ==> new_votes
                == total_compared(self.users@) && min_votes == self@.votes_on_disk,
            d matches SaveDecision::Write { new_votes } ==> new_votes == total_compared(
                self.users@,
            ) && new_votes >= self@.votes_on_disk,
    {
        let new_votes = count_votes(&self.users);
        let min_votes = self.votes_on_disk;
        if new_votes < min_votes {
            SaveDecision::Refuse { new_votes, min_votes }
        } else {
            SaveDecision::Write { new_votes }
        }
    }

    /// Records that the database now holds `new_votes` votes.
    pub fn mark_saved(&mut self, new_votes: usize)
        ensures
            final(self)@ == (StateView { votes_on_disk: new_votes as nat, ..old(self)@ }),
            final(self).films == old(self).films,
            final(self).bt_ratings == old(self).bt_ratings,
            final(self).users == old(self).users,
            final(self).banned == old(self).banned,
    {
        self.votes_on_disk = new_votes;
    }
}

/// Gives every listed film an entry in the counts, keeping existing counts.
pub fn ensure_film_ratings(ratings: &mut Vec<BtRating>, film_ids: &Vec<usize>)
    requires
        ratings_wf(old(ratings)@),
    ensures
        ratings_wf(final(ratings)@),
        ratings_map(final(ratings)@).dom() == ratings_map(old(ratings)@).dom().union(
            film_ids@.to_set(),
        ),
        forall|f: usize| #[trigger]
            ratings_map(final(ratings)@).contains_key(f) ==> ratings_map(final(ratings)@)[f]
                == rating_or_new(ratings_map(old(ratings)@), f),
{
    let n = film_ids.len();
    for i in 0..n
        invariant
            n == film_ids@.len(),
            ratings_wf(ratings@),
            ratings_map(ratings@).dom() == ratings_map(old(ratings)@).dom().union(
                film_ids@.take(i as int).to_set(),
            ),
            forall|f: usize| #[trigger]
                ratings_map(ratings@).contains_key(f) ==> ratings_map(ratings@)[f]
                    == rating_or_new(ratings_map(old(ratings)@), f),
    {
        let ghost m = ratings_map(ratings@);
        rating_entry(ratings, film_ids[i]);
        proof {
            assert(film_ids@.take(i + 1) =~= film_ids@.take(i as int).push(film_ids@[i as int]));
            film_ids@.take(i as int).lemma_push_to_set_commute(film_ids@[i as int]);
            assert(film_ids@.take(i + 1).to_set() =~= film_ids@.take(i as int).to_set().insert(
                film_ids@[i as int],
            ));
            assert(ratings_map(ratings@).dom() =~= ratings_map(old(ratings)@).dom().union(
                film_ids@.take(i + 1).to_set(),
            ));
        }
    }
    assert(film_ids@.take(n as int) =~= film_ids@);
}

// ---------------------------------------------------------------------------
// The ban list
// ---------------------------------------------------------------------------

/// Whether two lists of strings hold the same strings.
pub fn same_strings(a: &Vec<String>, b: &Vec<String>) -> (r: bool)
    ensures
        r == (string_views(a@).to_set() == string_views(b@).to_set()),
{
    let n = a.len();
    for i in 0..n
        invariant
            n == a@.len(),
            forall|j: int| 0 <= j < i ==> string_views(b@).contains(#[trigger] string_views(a@)[j]),
    {
        if !contains_string(b, &a[i]) {
            proof {
                assert(string_views(a@)[i as int] == a@[i as int]@);
                assert(string_views(a@).to_set().contains(a@[i as int]@));
            }
            return false;
        }
    }
    let m = b.len();
    for i in 0..m
        invariant
            m == b@.len(),
            forall|j: int| 0 <= j < i ==> string_views(a@).contains(#[trigger] string_views(b@)[j]),
    {
        if !contains_string(a, &b[i]) {
            proof {
                assert(string_views(b@)[i as int] == b@[i as int]@);
                assert(string_views(b@).to_set().contains(b@[i as int]@));
            }
            return false;
        }
    }
    proof {
        assert forall|x: Seq<char>| string_views(a@).to_set().contains(x) implies string_views(b@).to_set().contains(x) by {
            let j = choose|j: int| 0 <= j < string_views(a@).len() && string_views(a@)[j] == x;
        }
        assert forall|x: Seq<char>| string_views(b@).to_set().contains(x) implies string_views(a@).to_set().contains(x) by {
            let j = choose|j: int| 0 <= j < string_views(b@).len() && string_views(b@)[j] == x;
        }
        assert(string_views(a@).to_set() =~= string_views(b@).to_set());
    }
    true
}

impl AppState {
    /// Takes a new ban list. When it names other users than the current one,
    /// the counts are rebuilt from the votes of the users it does not name,
    /// and `true` is returned; otherwise nothing changes.
    pub fn reload_banned(&mut self, new_banned: Vec<String>) -> (changed: bool)
        requires
            old(self).well_formed(),
            string_views(new_banned@).no_duplicates(),
            string_views(new_banned@).to_set() != old(self)@.banned ==> users_fit(
                reset_ratings(old(self)@.ratings),
                user_outcome_lists(old(self).users@),
                string_views(new_banned@).to_set(),
            ),
        ensures
            final(self).well_formed(),
            changed == (string_views(new_banned@).to_set() != old(self)@.banned),
            !changed ==> final(self)@ == old(self)@,
            changed ==> final(self)@ == (StateView {
                ratings: replay_users(
                    reset_ratings(old(self)@.ratings),
                    user_outcome_lists(old(self).users@),
                    string_views(new_banned@).to_set(),
                ),
                banned: string_views(new_banned@).to_set(),
                ..old(self)@
            }),
            final(self).films == old(self).films,
            final(self).users == old(self).users,
    {
        if same_strings(&new_banned, &self.banned) {
            return false;
        }
        let ghost banned_set = string_views(new_banned@).to_set();
        self.banned = new_banned;
        reset_counts(&mut self.bt_ratings);
        let ghost m0 = ratings_map(self.bt_ratings@);
        assert(m0 =~= reset_ratings(old(self)@.ratings));
        let ghost lists = user_outcome_lists(self.users@);
        let n = self.users.len();
        for i in 0..n
            invariant
                n == self.users@.len(),
                self.users == old(self).users,
                self.films == old(self).films,
                self.votes_on_disk == old(self).votes_on_disk,
                string_views(self.banned@).no_duplicates(),
                lists == user_outcome_lists(self.users@),
                banned_set == string_views(self.banned@).to_set(),
                ratings_wf(self.bt_ratings@),
                users_fit(m0, lists, banned_set),
                ratings_map(self.bt_ratings@) == replay_users(m0, lists.take(i as int), banned_set),
        {
            proof {
                lemma_users_fit_prefix(m0, lists, banned_set, i + 1);
                assert(lists.take(i + 1).drop_last() =~= lists.take(i as int));
                assert(lists[i as int].0 == self.users@[i as int].0@);
            }
            if !self.is_banned(self.users[i].0.as_str()) {
                let ghost m1 = ratings_map(self.bt_ratings@);
                let ghost o = lists[i as int].1;
                assert(o == outcome_entries(self.users@[i as int].1.vote_outcomes@));
                let k = self.users[i].1.vote_outcomes.len();
                for j in 0..k
                    invariant
                        n == self.users@.len(),
                        i < n,
                        self.users == old(self).users,
                        self.films == old(self).films,
                        self.votes_on_disk == old(self).votes_on_disk,
                        string_views(self.banned@).no_duplicates(),
                        banned_set == string_views(self.banned@).to_set(),
                        k == self.users@[i as int].1.vote_outcomes@.len(),
                        o == outcome_entries(self.users@[i as int].1.vote_outcomes@),
                        ratings_wf(self.bt_ratings@),
                        outcomes_fit(m1, o),
                        ratings_map(self.bt_ratings@) == replay_outcomes(m1, o.take(j as int)),
                {
                    proof {
                        lemma_outcomes_fit_prefix(m1, o, j + 1);
                        assert(o.take(j + 1).drop_last() =~= o.take(j as int));
                        assert(o[j as int] == (
                            self.users@[i as int].1.vote_outcomes@[j as int].0@,
                            self.users@[i as int].1.vote_outcomes@[j as int].1,
                        ));
                    }
                    let winner = self.users[i].1.vote_outcomes[j].1;
                    match parse_pair_key(self.users[i].1.vote_outcomes[j].0.as_str()) {
                        Some((a, b)) => {
                            let loser = if winner == a { b } else { a };
                            record_vote(&mut self.bt_ratings, winner, loser);
                        },
                        None => {},
                    }
                }
                assert(o.take(k as int) =~= o);
            }
        }
        assert(lists.take(n as int) =~= lists);
        proof {
            assert(self@.banned == banned_set);
        }
        true
    }
}

/// Whether a ban-list line names a user: not blank and not a comment.
pub open spec fn is_ban_entry(l: Seq<char>) -> bool {
    l.len() > 0 && l[0] != '#'
}

/// The user ids a ban list names: one per line, surrounding white space
/// removed, blank lines and lines starting with `#` ignored.
pub open spec fn banned_ids(content: Seq<char>) -> Set<Seq<char>> {
    lines(content).map_values(|l: Seq<char>| trim_ws(l)).filter(|l: Seq<char>| is_ban_entry(l)).to_set()
}

/// Reads a ban list: each user id once.
pub fn parse_banned(content: &str) -> (ids: Vec<String>)
    ensures
        string_views(ids@).no_duplicates(),
        string_views(ids@).to_set() == banned_ids(content@),
{
    let all = chars_of(content);
    let ls = split_lines(all.as_slice());
    let n = ls.len();
    let ghost kept = crate::text::char_rows(ls@).map_values(|l: Seq<char>| trim_ws(l)).filter(
        |l: Seq<char>| is_ban_entry(l),
    );
    let mut ids: Vec<String> = Vec::new();
    for i in 0..n
        invariant
            n == ls@.len(),
            string_views(ids@).no_duplicates(),
            string_views(ids@).to_set() == crate::text::char_rows(ls@).take(i as int).map_values(
                |l: Seq<char>| trim_ws(l),
            ).filter(|l: Seq<char>| is_ban_entry(l)).to_set(),
    {
        let t = trim_chars(ls[i].as_slice(), TrimClass::Whitespace);
        let ghost rows = crate::text::char_rows(ls@);
        let ghost before = rows.take(i as int).map_values(|l: Seq<char>| trim_ws(l));
        let ghost after = rows.take(i + 1).map_values(|l: Seq<char>| trim_ws(l));
        proof {
            assert(after =~= before.push(trim_ws(rows[i as int])));
            assert(rows[i as int] == ls@[i as int]@);
            lemma_filter_push(before, trim_ws(rows[i as int]));
        }
        if t.len() > 0 && t[0] != '#' {
            let s = string_of(t.as_slice());
            if !contains_string(&ids, &s) {
                let ghost old_ids = ids@;
                ids.push(s);
                proof {
                    assert(string_views(ids@) =~= string_views(old_ids).push(s@));
                    string_views(old_ids).lemma_push_to_set_commute(s@);
                    assert forall|a: int, b: int| 0 <= a < b < string_views(ids@).len() implies string_views(ids@)[a] != string_views(ids@)[b] by {
                        if b == string_views(ids@).len() - 1 {
                            assert(string_views(old_ids)[a] == string_views(ids@)[a]);
                            assert(string_views(old_ids).contains(string_views(old_ids)[a]));
                        } else {
                            assert(string_views(old_ids)[a] == string_views(ids@)[a]);
                            assert(string_views(old_ids)[b] == string_views(ids@)[b]);
                        }
                    }
                    assert(string_views(ids@).to_set() =~= string_views(old_ids).to_set().insert(s@));
                }
            } else {
                proof {
                    assert(string_views(ids@).to_set().contains(s@));
                    assert(string_views(ids@).to_set() =~= string_views(ids@).to_set().insert(s@));
                }
            }
        }
        proof {
            let f = after.filter(|l: Seq<char>| is_ban_entry(l));
            let g = before.filter(|l: Seq<char>| is_ban_entry(l));
            if is_ban_entry(t@) {
                assert(f =~= g.push(t@));
                g.lemma_push_to_set_commute(t@);
            } else {
                assert(f =~= g);
            }
            assert(f.to_set() =~= string_views(ids@).to_set());
        }
    }
    proof {
        assert(crate::text::char_rows(ls@).take(n as int) =~= crate::text::char_rows(ls@));
    }
    ids
}

proof fn lemma_filter_push(s: Seq<Seq<char>>, x: Seq<char>)
    ensures
        s.push(x).filter(|l: Seq<char>| is_ban_entry(l)) == (if is_ban_entry(x) {
            s.filter(|l: Seq<char>| is_ban_entry(l)).push(x)
        } else {
            s.filter(|l: Seq<char>| is_ban_entry(l))
        }),
{
    reveal_with_fuel(Seq::<_>::filter, 1);
    assert(s.push(x).drop_last() =~= s);
}

// ---------------------------------------------------------------------------
// Backups
// ---------------------------------------------------------------------------

/// The name of the hourly backup taken at `timestamp` (seconds since
/// 1970-01-01 UTC): `backups/db_YYYYMMDD_HH.json`.
pub open spec fn backup_name_spec(timestamp: u64) -> Seq<char> {
    let days = timestamp / 86400;
    let hour = (timestamp % 86400) / 3600;
    let date = civil_from_days(days as int);
    "backups/db_"@ + zero_padded(date.0 as nat, 4) + zero_padded(date.1 as nat, 2) + zero_padded(
        date.2 as nat,
        2,
    ) + "_"@ + zero_padded(hour as nat, 2) + ".json"@
}

/// The name of the hourly backup taken at `timestamp`.
pub fn backup_name(timestamp: u64) -> (name: String)
    ensures
        name@ == backup_name_spec(timestamp),
{
    let secs_of_day = timestamp % 86400;
    let days = timestamp / 86400;
    proof {
        crate::dates::civil_from_days_is_in_range(days as int);
        crate::dates::civil_from_days_year_is_positive(days as int);
    }
    let (year, month, day) = unix_days_to_date(days as i64);
    let hour = secs_of_day / 3600;
    let mut name = String::new();
    name.append("backups/db_");
    push_zero_padded(&mut name, year as u64, 4);
    push_zero_padded(&mut name, month as u64, 2);
    push_zero_padded(&mut name, day as u64, 2);
    name.append("_");
    push_zero_padded(&mut name, hour, 2);
    name.append(".json");
    assert(name@ =~= backup_name_spec(timestamp));
    name
}

} // verus!
