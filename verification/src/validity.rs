//! Testing whether a state read from outside is well formed: no film, count
//! entry, user, compared pair, outcome key or banned id occurs twice.
use vstd::prelude::*;
use crate::assoc::{distinct_keys, keys_of};
use crate::bt::{rating_entries, ratings_wf, BtRating};
use crate::models::{outcome_entries, Film, UserState};
use crate::persistence::{film_entries, string_views, user_entries, users_wf, AppState};

verus! {

/// Whether no id occurs twice.
pub fn ids_distinct(v: &Vec<usize>) -> (b: bool)
    ensures
        b == v@.no_duplicates(),
{
    let n = v.len();
    for i in 0..n
        invariant
            n == v@.len(),
            forall|a: int, c: int| 0 <= a < c < i ==> v@[a] != v@[c],
    {
        for j in 0..i
            invariant
                n == v@.len(),
                i < n,
                forall|a: int| 0 <= a < j ==> v@[a] != v@[i as int],
        {
            if v[j] == v[i] {
                return false;
            }
        }
    }
    true
}

/// Whether no pair occurs twice.
pub fn pairs_distinct(v: &Vec<(usize, usize)>) -> (b: bool)
    ensures
        b == v@.no_duplicates(),
{
    let n = v.len();
    for i in 0..n
        invariant
            n == v@.len(),
            forall|a: int, c: int| 0 <= a < c < i ==> v@[a] != v@[c],
    {
        for j in 0..i
            invariant
                n == v@.len(),
                i < n,
                forall|a: int| 0 <= a < j ==> v@[a] != v@[i as int],
        {
            if v[j].0 == v[i].0 && v[j].1 == v[i].1 {
                return false;
            }
        }
    }
    true
}

/// Whether no text occurs twice.
pub fn texts_distinct(v: &Vec<String>) -> (b: bool)
    ensures
        b == string_views(v@).no_duplicates(),
{
    let ghost s = string_views(v@);
    let n = v.len();
    for i in 0..n
        invariant
            n == v@.len(),
            s == string_views(v@),
            forall|a: int, c: int| 0 <= a < c < i ==> s[a] != s[c],
    {
        for j in 0..i
            invariant
                n == v@.len(),
                i < n,
                s == string_views(v@),
                forall|a: int| 0 <= a < j ==> s[a] != s[i as int],
        {
            if v[j].eq(&v[i]) {
                assert(s[j as int] == s[i as int]);
                return false;
            }
        }
    }
    true
}

fn film_ids(fs: &Vec<Film>) -> (r: Vec<usize>)
    ensures
        r@ == keys_of(film_entries(fs@)),
{
    let n = fs.len();
    let mut r: Vec<usize> = Vec::new();
    for i in 0..n
        invariant
            n == fs@.len(),
            r@ == keys_of(film_entries(fs@)).take(i as int),
    {
        r.push(fs[i].id);
        assert(r@ =~= keys_of(film_entries(fs@)).take(i + 1));
    }
    assert(keys_of(film_entries(fs@)).take(n as int) =~= keys_of(film_entries(fs@)));
    r
}

fn rating_ids(rs: &Vec<BtRating>) -> (r: Vec<usize>)
    ensures
        r@ == keys_of(rating_entries(rs@)),
{
    let n = rs.len();
    let mut r: Vec<usize> = Vec::new();
    for i in 0..n
        invariant
            n == rs@.len(),
            r@ == keys_of(rating_entries(rs@)).take(i as int),
    {
        r.push(rs[i].film_id);
        assert(r@ =~= keys_of(rating_entries(rs@)).take(i + 1));
    }
    assert(keys_of(rating_entries(rs@)).take(n as int) =~= keys_of(rating_entries(rs@)));
    r
}

fn opponent_ids(w: &Vec<(usize, u32)>) -> (r: Vec<usize>)
    ensures
        r@ == keys_of(w@),
{
    let n = w.len();
    let mut r: Vec<usize> = Vec::new();
    for i in 0..n
        invariant
            n == w@.len(),
            r@ == keys_of(w@).take(i as int),
    {
        r.push(w[i].0);
        assert(r@ =~= keys_of(w@).take(i + 1));
    }
    assert(keys_of(w@).take(n as int) =~= keys_of(w@));
    r
}

fn outcome_keys(o: &Vec<(String, usize)>) -> (r: Vec<String>)
    ensures
        string_views(r@) == keys_of(outcome_entries(o@)),
{
    let n = o.len();
    let mut r: Vec<String> = Vec::new();
    for i in 0..n
        invariant
            n == o@.len(),
            string_views(r@) == keys_of(outcome_entries(o@)).take(i as int),
    {
        let k = o[i].0.clone();
        assert(k@ == o@[i as int].0@);
        let ghost before = r@;
        r.push(k);
        assert(string_views(r@) =~= string_views(before).push(k@));
        assert(string_views(r@) =~= keys_of(outcome_entries(o@)).take(i + 1));
    }
    assert(keys_of(outcome_entries(o@)).take(n as int) =~= keys_of(outcome_entries(o@)));
    r
}

fn user_ids(us: &Vec<(String, UserState)>) -> (r: Vec<String>)
    ensures
        string_views(r@) == keys_of(user_entries(us@)),
{
    let n = us.len();
    let mut r: Vec<String> = Vec::new();
    for i in 0..n
        invariant
            n == us@.len(),
            string_views(r@) == keys_of(user_entries(us@)).take(i as int),
    {
        let k = us[i].0.clone();
        assert(k@ == us@[i as int].0@);
        let ghost before = r@;
        r.push(k);
        assert(string_views(r@) =~= string_views(before).push(k@));
        assert(string_views(r@) =~= keys_of(user_entries(us@)).take(i + 1));
    }
    assert(keys_of(user_entries(us@)).take(n as int) =~= keys_of(user_entries(us@)));
    r
}

/// Whether a user's state is well formed.
pub fn user_ok(u: &UserState) -> (b: bool)
    ensures
        b == u.well_formed(),
{
    pairs_distinct(&u.compared_pairs) && texts_distinct(&outcome_keys(&u.vote_outcomes))
}

/// Whether a list of counts is well formed.
pub fn ratings_ok(rs: &Vec<BtRating>) -> (b: bool)
    ensures
        b == ratings_wf(rs@),
{
    if !ids_distinct(&rating_ids(rs)) {
        return false;
    }
    let n = rs.len();
    for i in 0..n
        invariant
            n == rs@.len(),
            forall|j: int| 0 <= j < i ==> (#[trigger] rs@[j]).well_formed(),
    {
        if !ids_distinct(&opponent_ids(&rs[i].wins_against)) {
            return false;
        }
    }
    true
}

/// Whether a list of users is well formed.
pub fn users_ok(us: &Vec<(String, UserState)>) -> (b: bool)
    ensures
        b == users_wf(us@),
{
    if !texts_distinct(&user_ids(us)) {
        return false;
    }
    let n = us.len();
    for i in 0..n
        invariant
            n == us@.len(),
            forall|j: int| 0 <= j < i ==> (#[trigger] us@[j]).1.well_formed(),
    {
        if !user_ok(&us[i].1) {
            return false;
        }
    }
    true
}

impl AppState {
    /// Whether the state is well formed, as every update asks of it.
    pub fn check_well_formed(&self) -> (b: bool)
        ensures
            b == self.well_formed(),
    {
        ids_distinct(&film_ids(&self.films)) && ratings_ok(&self.bt_ratings) && users_ok(&self.users)
            && texts_distinct(&self.banned)
    }
}

} // verus!
