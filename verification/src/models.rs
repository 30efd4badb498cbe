//! The records the service keeps and exchanges: films, per-user voting
//! state, request payloads, and the textual key under which a user's vote on
//! a pair of films is stored.
use vstd::prelude::*;
use crate::assoc::{
    assoc_map, distinct_keys, keys_of, lemma_assoc_dom, lemma_assoc_get, lemma_assoc_push,
    lemma_assoc_remove, lemma_assoc_update, lemma_index_of_key, remove_entry, set_entry,
};
use crate::text::{chars_of, decimal, find_char, first_index, lemma_decimal, lemma_first_index, lemma_parse_decimal, parse_usize, parse_usize_spec, push_decimal, slice_prefix, slice_suffix, string_push};

verus! {

/// A film of the festival.
#[derive(Debug, Clone)]
pub struct Film {
    pub id: usize,
    pub title: String,
    pub team: String,
    pub city: String,
    pub poster_url: String,
    pub video_url: String,
}

/// The content of a [`Film`].
#[verifier::ext_equal]
pub ghost struct FilmView {
    pub id: usize,
    pub title: Seq<char>,
    pub team: Seq<char>,
    pub city: Seq<char>,
    pub poster_url: Seq<char>,
    pub video_url: Seq<char>,
}

impl View for Film {
    type V = FilmView;

    open spec fn view(&self) -> FilmView {
        FilmView {
            id: self.id,
            title: self.title@,
            team: self.team@,
            city: self.city@,
            poster_url: self.poster_url@,
            video_url: self.video_url@,
        }
    }
}

/// The content of a list of films.
pub open spec fn film_views(films: Seq<Film>) -> Seq<FilmView> {
    films.map_values(|f: Film| f@)
}

/// What a user has selected and voted.
///
/// `compared_pairs` is a set of canonical pairs and `vote_outcomes` maps a
/// pair key (see [`pair_key`]) to the id of the film the user preferred; both
/// are held as vectors without repeated entries.
#[derive(Debug, Clone)]
pub struct UserState {
    pub seen_films: Vec<usize>,
    pub compared_pairs: Vec<(usize, usize)>,
    pub vote_outcomes: Vec<(String, usize)>,
}

/// A user's recorded outcomes as (key, winner) entries.
pub open spec fn outcome_entries(o: Seq<(String, usize)>) -> Seq<(Seq<char>, usize)> {
    o.map_values(|e: (String, usize)| (e.0@, e.1))
}

/// The content of a [`UserState`].
#[verifier::ext_equal]
pub ghost struct UserView {
    pub seen: Seq<usize>,
    pub compared: Set<(usize, usize)>,
    pub outcomes: Map<Seq<char>, usize>,
}

impl View for UserState {
    type V = UserView;

    open spec fn view(&self) -> UserView {
        UserView {
            seen: self.seen_films@,
            compared: self.compared_pairs@.to_set(),
            outcomes: assoc_map(outcome_entries(self.vote_outcomes@)),
        }
    }
}

/// The state of a user who has neither selected nor voted.
pub open spec fn empty_user() -> UserView {
    UserView { seen: Seq::empty(), compared: Set::empty(), outcomes: Map::empty() }
}

impl UserState {
    /// No pair is compared twice and no key has two outcomes.
    pub open spec fn well_formed(&self) -> bool {
        &&& self.compared_pairs@.no_duplicates()
        &&& distinct_keys(outcome_entries(self.vote_outcomes@))
    }

    /// A user who has neither selected nor voted.
    pub fn new() -> (u: UserState)
        ensures
            u@ == empty_user(),
            u.well_formed(),
            u.seen_films@ == Seq::<usize>::empty(),
            u.compared_pairs@ == Seq::<(usize, usize)>::empty(),
            u.vote_outcomes@ == Seq::<(String, usize)>::empty(),
    {
        let u = UserState { seen_films: Vec::new(), compared_pairs: Vec::new(), vote_outcomes: Vec::new() };
        assert(outcome_entries(u.vote_outcomes@) =~= Seq::<(Seq<char>, usize)>::empty());
        assert(keys_of(outcome_entries(u.vote_outcomes@)) =~= Seq::<Seq<char>>::empty());
        assert(u.compared_pairs@.to_set() =~= Set::<(usize, usize)>::empty());
        assert(u@ =~= empty_user());
        u
    }
}

/// Removing an element of a sequence without repeats removes it from the set.
proof fn lemma_remove_to_set<A>(s: Seq<A>, i: int)
    requires
        s.no_duplicates(),
        0 <= i < s.len(),
    ensures
        s.remove(i).to_set() == s.to_set().remove(s[i]),
        s.remove(i).no_duplicates(),
{
    let r = s.remove(i);
    assert forall|x: A| r.to_set().contains(x) <==> s.to_set().remove(s[i]).contains(x) by {
        if r.to_set().contains(x) {
            let j = choose|j: int| 0 <= j < r.len() && r[j] == x;
            let j2 = if j < i { j } else { j + 1 };
            assert(s[j2] == x);
            assert(j2 != i);
        }
        if s.to_set().remove(s[i]).contains(x) {
            let j = choose|j: int| 0 <= j < s.len() && s[j] == x;
            assert(j != i);
            let j2 = if j < i { j } else { j - 1 };
            assert(r[j2] == x);
        }
    }
    assert(r.to_set() =~= s.to_set().remove(s[i]));
    assert forall|a: int, b: int| 0 <= a < b < r.len() implies r[a] != r[b] by {
        let a2 = if a < i { a } else { a + 1 };
        let b2 = if b < i { b } else { b + 1 };
        assert(r[a] == s[a2]);
        assert(r[b] == s[b2]);
    }
}

/// Whether two pairs are the same.
pub fn same_pair(a: (usize, usize), b: (usize, usize)) -> (r: bool)
    ensures
        r == (a == b),
{
    a.0 == b.0 && a.1 == b.1
}

impl UserState {
    /// The position of `pair` among the compared pairs.
    pub fn find_compared(&self, pair: (usize, usize)) -> (r: Option<usize>)
        ensures
            r matches Some(i) ==> i < self.compared_pairs@.len() && self.compared_pairs@[i as int]
                == pair,
            r is None ==> !self@.compared.contains(pair),
    {
        let n = self.compared_pairs.len();
        for i in 0..n
            invariant
                n == self.compared_pairs@.len(),
                forall|j: int| 0 <= j < i ==> #[trigger] self.compared_pairs@[j] != pair,
        {
            if same_pair(self.compared_pairs[i], pair) {
                return Some(i);
            }
        }
        None
    }

    /// Whether the user has compared `pair`.
    pub fn has_compared(&self, pair: (usize, usize)) -> (b: bool)
        ensures
            b == self@.compared.contains(pair),
    {
        match self.find_compared(pair) {
            Some(i) => {
                assert(self.compared_pairs@.to_set().contains(self.compared_pairs@[i as int]));
                true
            },
            None => false,
        }
    }

    /// The position of the outcome recorded under `key`.
    pub fn find_outcome(&self, key: &String) -> (r: Option<usize>)
        requires
            self.well_formed(),
        ensures
            r matches Some(i) ==> i < self.vote_outcomes@.len() && self.vote_outcomes@[i as int].0@
                == key@ && self@.outcomes.contains_key(key@) && self@.outcomes[key@]
                == self.vote_outcomes@[i as int].1,
            r is None ==> !self@.outcomes.contains_key(key@),
    {
        let n = self.vote_outcomes.len();
        for i in 0..n
            invariant
                n == self.vote_outcomes@.len(),
                self.well_formed(),
                forall|j: int| 0 <= j < i ==> #[trigger] self.vote_outcomes@[j].0@ != key@,
        {
            if self.vote_outcomes[i].0.eq(key) {
                proof {
                    lemma_assoc_get(outcome_entries(self.vote_outcomes@), i as int);
                }
                return Some(i);
            }
        }
        proof {
            let e = outcome_entries(self.vote_outcomes@);
            lemma_assoc_dom(e);
            if keys_of(e).contains(key@) {
                let j = choose|j: int| 0 <= j < keys_of(e).len() && keys_of(e)[j] == key@;
                assert(self.vote_outcomes@[j].0@ == key@);
            }
        }
        None
    }

    /// Adds `pair` to the compared pairs.
    pub fn mark_compared(&mut self, pair: (usize, usize))
        requires
            old(self).well_formed(),
        ensures
            final(self).well_formed(),
            final(self).vote_outcomes == old(self).vote_outcomes,
            final(self)@ == (UserView { compared: old(self)@.compared.insert(pair), ..old(self)@ }),
    {
        if self.find_compared(pair).is_none() {
            let ghost before = self.compared_pairs@;
            self.compared_pairs.push(pair);
            proof {
                before.lemma_push_to_set_commute(pair);
                assert forall|a: int, b: int|
                    0 <= a < b < self.compared_pairs@.len() implies self.compared_pairs@[a]
                    != self.compared_pairs@[b] by {
                    if b == self.compared_pairs@.len() - 1 {
                        assert(before.to_set().contains(before[a]));
                    }
                }
            }
        } else {
            assert(self@.compared.insert(pair) =~= self@.compared);
        }
        assert(self@ =~= (UserView { compared: old(self)@.compared.insert(pair), ..old(self)@ }));
    }

    /// Removes `pair` from the compared pairs; tells whether it was there.
    pub fn forget_compared(&mut self, pair: (usize, usize)) -> (was: bool)
        requires
            old(self).well_formed(),
        ensures
            final(self).well_formed(),
            final(self).vote_outcomes == old(self).vote_outcomes,
            was == old(self)@.compared.contains(pair),
            final(self)@ == (UserView { compared: old(self)@.compared.remove(pair), ..old(self)@ }),
    {
        match self.find_compared(pair) {
            Some(i) => {
                proof {
                    lemma_remove_to_set(self.compared_pairs@, i as int);
                    assert(self.compared_pairs@.to_set().contains(pair));
                }
                self.compared_pairs.remove(i);
                assert(self@ =~= (UserView { compared: old(self)@.compared.remove(pair), ..old(self)@ }));
                true
            },
            None => {
                assert(self@.compared.remove(pair) =~= self@.compared);
                false
            },
        }
    }

    /// Records `winner` under `key`, replacing any earlier outcome.
    pub fn set_outcome(&mut self, key: String, winner: usize)
        requires
            old(self).well_formed(),
        ensures
            final(self).well_formed(),
            outcome_entries(final(self).vote_outcomes@) == set_entry(
                outcome_entries(old(self).vote_outcomes@),
                key@,
                winner,
            ),
            final(self)@ == (UserView {
                outcomes: old(self)@.outcomes.insert(key@, winner),
                ..old(self)@
            }),
    {
        let ghost e = outcome_entries(self.vote_outcomes@);
        proof {
            lemma_index_of_key(e, key@);
        }
        match self.find_outcome(&key) {
            Some(i) => {
                proof {
                    lemma_assoc_update(e, i as int, winner);
                    assert(outcome_entries(self.vote_outcomes@.update(i as int, (key, winner)))
                        =~= e.update(i as int, (e[i as int].0, winner)));
                }
                self.vote_outcomes.set(i, (key, winner));
            },
            None => {
                proof {
                    lemma_assoc_dom(e);
                    lemma_assoc_push(e, key@, winner);
                    assert(outcome_entries(self.vote_outcomes@.push((key, winner))) =~= e.push(
                        (key@, winner),
                    ));
                }
                self.vote_outcomes.push((key, winner));
            },
        }
        assert(self@ =~= (UserView {
            outcomes: old(self)@.outcomes.insert(key@, winner),
            ..old(self)@
        }));
    }

    /// Removes the outcome recorded under `key`, if any.
    pub fn remove_outcome(&mut self, key: &String)
        requires
            old(self).well_formed(),
        ensures
            final(self).well_formed(),
            outcome_entries(final(self).vote_outcomes@) == remove_entry(
                outcome_entries(old(self).vote_outcomes@),
                key@,
            ),
            final(self)@ == (UserView { outcomes: old(self)@.outcomes.remove(key@), ..old(self)@ }),
    {
        let ghost e = outcome_entries(self.vote_outcomes@);
        proof {
            lemma_index_of_key(e, key@);
            lemma_assoc_dom(e);
        }
        match self.find_outcome(key) {
            Some(i) => {
                proof {
                    lemma_assoc_remove(e, i as int);
                    assert(outcome_entries(self.vote_outcomes@.remove(i as int)) =~= e.remove(
                        i as int,
                    ));
                }
                self.vote_outcomes.remove(i);
            },
            None => {
                assert(self@.outcomes.remove(key@) =~= self@.outcomes);
            },
        }
        assert(self@ =~= (UserView { outcomes: old(self)@.outcomes.remove(key@), ..old(self)@ }));
    }
}

impl Default for UserState {
    fn default() -> (u: UserState)
        ensures
            u@ == empty_user(),
            u.well_formed(),
    {
        UserState::new()
    }
}

/// A vote as it is broadcast to listeners.
#[derive(Debug, Clone)]
pub struct VoteEvent {
    pub user_id: String,
    pub winner_title: String,
    pub loser_title: String,
}

/// The films a user says they have seen.
pub struct SelectionPayload {
    pub user_id: String,
    pub film_ids: Vec<usize>,
}

/// A vote: `winner_id` was preferred over `loser_id`.
pub struct VotePayload {
    pub user_id: String,
    pub winner_id: usize,
    pub loser_id: usize,
}

/// A request for the next pair, optionally restricted to pairs with one film.
pub struct PairRequest {
    pub user_id: String,
    pub focus_film: Option<usize>,
}

/// The withdrawal of a vote.
pub struct UnvotePayload {
    pub user_id: String,
    pub winner_id: usize,
    pub loser_id: usize,
}

// ---------------------------------------------------------------------------
// Pairs and pair keys
// ---------------------------------------------------------------------------

/// The pair `{a, b}` with its smaller id first.
pub open spec fn canonical(a: usize, b: usize) -> (usize, usize) {
    if a < b { (a, b) } else { (b, a) }
}

/// Orders two film ids so that the smaller comes first.
pub fn canonical_pair(a: usize, b: usize) -> (r: (usize, usize))
    ensures
        r == canonical(a, b),
{
    if a < b { (a, b) } else { (b, a) }
}

/// The storage key of the pair `{a, b}`: both ids in decimal, smaller first,
/// joined by a comma.
pub open spec fn pair_key_spec(a: usize, b: usize) -> Seq<char> {
    let (lo, hi) = canonical(a, b);
    decimal(lo as nat) + seq![','] + decimal(hi as nat)
}

/// The storage key of the pair `{a, b}`.
pub fn pair_key(a: usize, b: usize) -> (k: String)
    ensures
        k@ == pair_key_spec(a, b),
{
    let (lo, hi) = canonical_pair(a, b);
    let mut k = String::new();
    push_decimal(&mut k, lo as u64);
    string_push(&mut k, ',');
    push_decimal(&mut k, hi as u64);
    assert(k@ =~= pair_key_spec(a, b));
    k
}

/// What reading a pair key gives: the text before the first comma and the
/// text after it, each read as a `usize`.
pub open spec fn parse_pair_key_spec(key: Seq<char>) -> Option<(usize, usize)> {
    match first_index(key, ',') {
        None => None,
        Some(i) => match (
            parse_usize_spec(key.take(i as int)),
            parse_usize_spec(key.skip((i + 1) as int)),
        ) {
            (Some(a), Some(b)) => Some((a, b)),
            _ => None,
        },
    }
}

/// Reads a pair key back into the two ids it names.
pub fn parse_pair_key(key: &str) -> (r: Option<(usize, usize)>)
    ensures
        r == parse_pair_key_spec(key@),
{
    let v = chars_of(key);
    proof {
        lemma_first_index(v@, ',');
    }
    match find_char(v.as_slice(), ',') {
        None => None,
        Some(i) => {
            let len = v.len();
            assert(i < len);
            let left = slice_prefix(v.as_slice(), i);
            let right = slice_suffix(v.as_slice(), i + 1);
            match (parse_usize(left.as_slice()), parse_usize(right.as_slice())) {
                (Some(a), Some(b)) => Some((a, b)),
                _ => None,
            }
        },
    }
}

// ---------------------------------------------------------------------------
// Laws
// ---------------------------------------------------------------------------

/// The canonical form of a pair does not depend on the order in which its
/// films are named, and puts the smaller id first.
pub proof fn canonical_pair_is_symmetric(a: usize, b: usize)
    ensures
        canonical(a, b) == canonical(b, a) || a == b,
        canonical(a, b).0 <= canonical(a, b).1,
        canonical(a, b) == (a, b) || canonical(a, b) == (b, a),
{
}

/// A pair has one key, whichever film is named first.
pub proof fn pair_key_is_symmetric(a: usize, b: usize)
    ensures
        pair_key_spec(a, b) == pair_key_spec(b, a),
{
}

/// Reading the key of a pair gives back the pair, smaller id first.
pub proof fn pair_key_round_trip(a: usize, b: usize)
    ensures
        parse_pair_key_spec(pair_key_spec(a, b)) == Some(canonical(a, b)),
{
    let (lo, hi) = canonical(a, b);
    let k = pair_key_spec(a, b);
    let dl = decimal(lo as nat);
    lemma_decimal(lo as nat);
    lemma_decimal(hi as nat);
    lemma_first_index(k, ',');
    assert(k[dl.len() as int] == ',');
    assert forall|j: int| 0 <= j < dl.len() implies #[trigger] k[j] != ',' by {
        assert(k[j] == dl[j]);
    }
    assert(first_index(k, ',') == Some(dl.len())) by {
        match first_index(k, ',') {
            Some(i) => {
                if i < dl.len() {
                    assert(k[i as int] == dl[i as int]);
                } else if i > dl.len() {
                    assert(k[dl.len() as int] == ',');
                }
            },
            None => {},
        }
    }
    assert(k.take(dl.len() as int) =~= dl);
    assert(k.skip((dl.len() + 1) as int) =~= decimal(hi as nat));
    lemma_parse_decimal(lo);
    lemma_parse_decimal(hi);
}

/// Two different pairs have different keys.
pub proof fn pair_keys_are_distinct(a: usize, b: usize, c: usize, d: usize)
    requires
        canonical(a, b) != canonical(c, d),
    ensures
        pair_key_spec(a, b) != pair_key_spec(c, d),
{
    pair_key_round_trip(a, b);
    pair_key_round_trip(c, d);
}

} // verus!
