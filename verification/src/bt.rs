//! The counts that the Bradley-Terry model is fitted to: for each film, how
//! often it was compared and how often it beat each other film.
//!
//! The model's strengths themselves are real numbers and are fitted outside
//! this library; what it reads from here are the counts, the films that take
//! part in the fit, and the number of comparisons between two films.
use vstd::prelude::*;
use crate::assoc::{
    assoc_map, distinct_keys, keys_of, lemma_assoc_dom, lemma_assoc_get, lemma_assoc_push,
    lemma_assoc_update,
};

verus! {

/// The comparison counts of one film.
#[derive(Debug, Clone)]
pub struct BtRating {
    pub film_id: usize,
    pub comparisons: u32,
    /// (opponent id, number of times this film beat that opponent), one entry
    /// per opponent.
    pub wins_against: Vec<(usize, u32)>,
}

/// The content of a [`BtRating`].
#[verifier::ext_equal]
pub ghost struct RatingView {
    pub comparisons: u32,
    pub wins: Map<usize, u32>,
}

/// The counts of a film that has not been compared.
pub open spec fn new_rating() -> RatingView {
    RatingView { comparisons: 0, wins: Map::empty() }
}

impl View for BtRating {
    type V = RatingView;

    open spec fn view(&self) -> RatingView {
        RatingView { comparisons: self.comparisons, wins: assoc_map(self.wins_against@) }
    }
}

/// The sum of the counts of a list of (opponent, count) entries.
pub open spec fn sum_wins(s: Seq<(usize, u32)>) -> int
    decreases s.len(),
{
    if s.len() == 0 {
        0
    } else {
        sum_wins(s.drop_last()) + s.last().1
    }
}

/// How often a film beat `l`, by its win map (zero when there is no entry).
pub open spec fn count_against(m: Map<usize, u32>, l: usize) -> u32 {
    if m.contains_key(l) {
        m[l]
    } else {
        0
    }
}

/// `x - 1`, or zero when `x` is zero.
pub open spec fn sat_dec(x: u32) -> u32 {
    if x > 0 {
        (x - 1) as u32
    } else {
        0
    }
}

proof fn lemma_sum_update(s: Seq<(usize, u32)>, i: int, e: (usize, u32))
    requires
        0 <= i < s.len(),
    ensures
        sum_wins(s.update(i, e)) == sum_wins(s) - s[i].1 + e.1,
    decreases s.len(),
{
    let u = s.update(i, e);
    if i == s.len() - 1 {
        assert(u.drop_last() =~= s.drop_last());
    } else {
        lemma_sum_update(s.drop_last(), i, e);
        assert(u.drop_last() =~= s.drop_last().update(i, e));
    }
}

proof fn lemma_sum_push(s: Seq<(usize, u32)>, e: (usize, u32))
    ensures
        sum_wins(s.push(e)) == sum_wins(s) + e.1,
{
    assert(s.push(e).drop_last() =~= s);
}

proof fn lemma_sum_nonneg(s: Seq<(usize, u32)>)
    ensures
        sum_wins(s) >= 0,
    decreases s.len(),
{
    if s.len() > 0 {
        lemma_sum_nonneg(s.drop_last());
    }
}

impl BtRating {
    /// No opponent has two entries.
    pub open spec fn well_formed(&self) -> bool {
        distinct_keys(self.wins_against@)
    }

    /// The number of comparisons this film won.
    pub open spec fn total_wins(&self) -> int {
        sum_wins(self.wins_against@)
    }

    /// A film that has not been compared yet.
    pub fn new(film_id: usize) -> (r: BtRating)
        ensures
            r.film_id == film_id,
            r@ == new_rating(),
            r.well_formed(),
            r.total_wins() == 0,
    {
        let r = BtRating { film_id, comparisons: 0, wins_against: Vec::new() };
        assert(keys_of(r.wins_against@) =~= Seq::<usize>::empty());
        assert(r@ =~= new_rating());
        r
    }

    /// The wins and losses of the film, or `None` where its wins exceed its
    /// comparisons (which consistent counts rule out).
    pub fn record(&self) -> (r: Option<(u32, u32)>)
        ensures
            r == (if self.total_wins() <= self.comparisons {
                Some((self.total_wins() as u32, (self.comparisons - self.total_wins()) as u32))
            } else {
                None
            }),
    {
        let n = self.wins_against.len();
        let mut total: u32 = 0;
        for i in 0..n
            invariant
                n == self.wins_against@.len(),
                total == sum_wins(self.wins_against@.take(i as int)),
                total <= self.comparisons,
        {
            let ghost t = self.wins_against@.take(i + 1);
            assert(t.drop_last() =~= self.wins_against@.take(i as int));
            let c = self.wins_against[i].1;
            if c > self.comparisons - total {
                proof {
                    lemma_sum_prefix_le(self.wins_against@, i + 1);
                }
                return None;
            }
            total = total + c;
        }
        assert(self.wins_against@.take(n as int) =~= self.wins_against@);
        Some((total, self.comparisons - total))
    }

    /// The number of comparisons this film won: the sum of its win counts.
    pub fn wins(&self) -> (w: u32)
        requires
            self.total_wins() <= u32::MAX,
        ensures
            w == self.total_wins(),
    {
        let n = self.wins_against.len();
        let mut total: u32 = 0;
        for i in 0..n
            invariant
                n == self.wins_against@.len(),
                self.total_wins() <= u32::MAX,
                total == sum_wins(self.wins_against@.take(i as int)),
        {
            let ghost t = self.wins_against@.take(i + 1);
            assert(t.drop_last() =~= self.wins_against@.take(i as int));
            proof {
                lemma_sum_prefix_le(self.wins_against@, i + 1);
            }
            total = total + self.wins_against[i].1;
        }
        assert(self.wins_against@.take(n as int) =~= self.wins_against@);
        total
    }

    /// The number of comparisons this film lost.
    pub fn losses(&self) -> (l: u32)
        requires
            0 <= self.total_wins() <= self.comparisons,
        ensures
            l == self.comparisons - self.total_wins(),
    {
        self.comparisons - self.wins()
    }

    fn find_opponent(&self, l: usize) -> (r: Option<usize>)
        requires
            self.well_formed(),
        ensures
            r matches Some(i) ==> i < self.wins_against@.len() && self.wins_against@[i as int].0
                == l,
            r is None ==> !self@.wins.contains_key(l),
    {
        let n = self.wins_against.len();
        for i in 0..n
            invariant
                n == self.wins_against@.len(),
                forall|j: int| 0 <= j < i ==> #[trigger] self.wins_against@[j].0 != l,
        {
            if self.wins_against[i].0 == l {
                return Some(i);
            }
        }
        proof {
            lemma_assoc_dom(self.wins_against@);
            if keys_of(self.wins_against@).contains(l) {
                let j = choose|j: int|
                    0 <= j < keys_of(self.wins_against@).len() && keys_of(self.wins_against@)[j]
                        == l;
                assert(self.wins_against@[j].0 == l);
            }
        }
        None
    }

    /// How often this film beat `l`.
    pub fn win_count(&self, l: usize) -> (c: u32)
        requires
            self.well_formed(),
        ensures
            c == count_against(self@.wins, l),
    {
        match self.find_opponent(l) {
            Some(i) => {
                proof {
                    lemma_assoc_get(self.wins_against@, i as int);
                }
                self.wins_against[i].1
            },
            None => 0,
        }
    }

    /// Counts one more win over `l`.
    pub fn add_win_against(&mut self, l: usize)
        requires
            old(self).well_formed(),
            count_against(old(self)@.wins, l) < u32::MAX,
        ensures
            final(self).well_formed(),
            final(self).film_id == old(self).film_id,
            final(self).comparisons == old(self).comparisons,
            final(self)@.wins == old(self)@.wins.insert(
                l,
                (count_against(old(self)@.wins, l) + 1) as u32,
            ),
            final(self).total_wins() == old(self).total_wins() + 1,
    {
        match self.find_opponent(l) {
            Some(i) => {
                proof {
                    lemma_assoc_get(self.wins_against@, i as int);
                }
                let c = self.wins_against[i].1;
                proof {
                    lemma_assoc_update(self.wins_against@, i as int, (c + 1) as u32);
                    lemma_sum_update(self.wins_against@, i as int, (l, (c + 1) as u32));
                }
                self.wins_against.set(i, (l, c + 1));
            },
            None => {
                proof {
                    lemma_assoc_dom(self.wins_against@);
                    lemma_assoc_push(self.wins_against@, l, 1);
                    lemma_sum_push(self.wins_against@, (l, 1));
                }
                self.wins_against.push((l, 1));
            },
        }
    }

    /// Counts one win fewer over `l`, stopping at zero; `l` gets an entry if
    /// it had none.
    pub fn remove_win_against(&mut self, l: usize)
        requires
            old(self).well_formed(),
        ensures
            final(self).well_formed(),
            final(self).film_id == old(self).film_id,
            final(self).comparisons == old(self).comparisons,
            final(self)@.wins == old(self)@.wins.insert(
                l,
                sat_dec(count_against(old(self)@.wins, l)),
            ),
            final(self).total_wins() == old(self).total_wins() - (if count_against(
                old(self)@.wins,
                l,
            ) > 0 {
                1int
            } else {
                0int
            }),
    {
        match self.find_opponent(l) {
            Some(i) => {
                proof {
                    lemma_assoc_get(self.wins_against@, i as int);
                }
                let c = self.wins_against[i].1;
                let d = c.saturating_sub(1);
                proof {
                    lemma_assoc_update(self.wins_against@, i as int, d);
                    lemma_sum_update(self.wins_against@, i as int, (l, d));
                }
                self.wins_against.set(i, (l, d));
            },
            None => {
                proof {
                    lemma_assoc_dom(self.wins_against@);
                    lemma_assoc_push(self.wins_against@, l, 0);
                    lemma_sum_push(self.wins_against@, (l, 0));
                }
                self.wins_against.push((l, 0));
            },
        }
    }
}

proof fn lemma_sum_prefix_le(s: Seq<(usize, u32)>, k: int)
    requires
        0 <= k <= s.len(),
    ensures
        sum_wins(s.take(k)) <= sum_wins(s),
    decreases s.len() - k,
{
    if k < s.len() {
        lemma_sum_prefix_le(s, k + 1);
        assert(s.take(k + 1).drop_last() =~= s.take(k));
    } else {
        assert(s.take(k) =~= s);
    }
}

// ---------------------------------------------------------------------------
// The counts of all films
// ---------------------------------------------------------------------------

/// The (film id, counts) entries of a list of ratings.
pub open spec fn rating_entries(rs: Seq<BtRating>) -> Seq<(usize, RatingView)> {
    rs.map_values(|r: BtRating| (r.film_id, r@))
}

/// The counts of every film that has an entry.
pub open spec fn ratings_map(rs: Seq<BtRating>) -> Map<usize, RatingView> {
    assoc_map(rating_entries(rs))
}

/// No film has two entries and no entry has two counts for one opponent.
pub open spec fn ratings_wf(rs: Seq<BtRating>) -> bool {
    &&& distinct_keys(rating_entries(rs))
    &&& forall|i: int| 0 <= i < rs.len() ==> (#[trigger] rs[i]).well_formed()
}

/// The counts held for film `f`, or those of an uncompared film.
pub open spec fn rating_or_new(m: Map<usize, RatingView>, f: usize) -> RatingView {
    if m.contains_key(f) {
        m[f]
    } else {
        new_rating()
    }
}

/// How often `f` was compared (zero for a film without an entry).
pub open spec fn comparisons_of(m: Map<usize, RatingView>, f: usize) -> u32 {
    rating_or_new(m, f).comparisons
}

/// How often `w` beat `l` (zero where there is no entry).
pub open spec fn win_count_of(m: Map<usize, RatingView>, w: usize, l: usize) -> u32 {
    count_against(rating_or_new(m, w).wins, l)
}

/// One more comparison, won against `l`.
pub open spec fn bumped(v: RatingView, l: usize) -> RatingView {
    RatingView {
        comparisons: (v.comparisons + 1) as u32,
        wins: v.wins.insert(l, (count_against(v.wins, l) + 1) as u32),
    }
}

/// One more comparison, lost.
pub open spec fn touched(v: RatingView) -> RatingView {
    RatingView { comparisons: (v.comparisons + 1) as u32, wins: v.wins }
}

/// One comparison fewer, and one win fewer against `l`, neither below zero.
pub open spec fn unbumped(v: RatingView, l: usize) -> RatingView {
    RatingView {
        comparisons: sat_dec(v.comparisons),
        wins: v.wins.insert(l, sat_dec(count_against(v.wins, l))),
    }
}

/// One comparison fewer, not below zero.
pub open spec fn untouched(v: RatingView) -> RatingView {
    RatingView { comparisons: sat_dec(v.comparisons), wins: v.wins }
}

/// The counts after the winner's entry of a vote `w` over `l` is updated.
pub open spec fn after_winner(m: Map<usize, RatingView>, w: usize, l: usize) -> Map<
    usize,
    RatingView,
> {
    m.insert(w, bumped(rating_or_new(m, w), l))
}

/// The counts after a vote `w` over `l` is counted; films without an entry
/// get one.
pub open spec fn record_vote_spec(m: Map<usize, RatingView>, w: usize, l: usize) -> Map<
    usize,
    RatingView,
> {
    let m1 = after_winner(m, w, l);
    m1.insert(l, touched(rating_or_new(m1, l)))
}

/// Counting a vote `w` over `l` overflows no counter.
pub open spec fn record_vote_fits(m: Map<usize, RatingView>, w: usize, l: usize) -> bool {
    &&& comparisons_of(m, w) < u32::MAX
    &&& win_count_of(m, w, l) < u32::MAX
    &&& comparisons_of(after_winner(m, w, l), l) < u32::MAX
}

/// The counts after a vote `w` over `l` is withdrawn: each count of the
/// films that have an entry goes down by one, not below zero.
pub open spec fn retract_vote_spec(m: Map<usize, RatingView>, w: usize, l: usize) -> Map<
    usize,
    RatingView,
> {
    let m1 = if m.contains_key(w) {
        m.insert(w, unbumped(m[w], l))
    } else {
        m
    };
    if m1.contains_key(l) {
        m1.insert(l, untouched(m1[l]))
    } else {
        m1
    }
}

proof fn lemma_ratings_get(rs: Seq<BtRating>, i: int)
    requires
        ratings_wf(rs),
        0 <= i < rs.len(),
    ensures
        ratings_map(rs).contains_key(rs[i].film_id),
        ratings_map(rs)[rs[i].film_id] == rs[i]@,
{
    lemma_assoc_get(rating_entries(rs), i);
}

/// Replacing entry `i` by one for the same film replaces that film's counts.
proof fn lemma_ratings_update(rs: Seq<BtRating>, i: int, r: BtRating)
    requires
        ratings_wf(rs),
        0 <= i < rs.len(),
        r.film_id == rs[i].film_id,
        r.well_formed(),
    ensures
        ratings_wf(rs.update(i, r)),
        ratings_map(rs.update(i, r)) == ratings_map(rs).insert(r.film_id, r@),
{
    let e = rating_entries(rs);
    lemma_assoc_update(e, i, r@);
    assert(rating_entries(rs.update(i, r)) =~= e.update(i, (e[i].0, r@)));
}

/// Finds the entry of film `f`.
pub fn find_rating(rs: &Vec<BtRating>, f: usize) -> (r: Option<usize>)
    requires
        ratings_wf(rs@),
    ensures
        r matches Some(i) ==> i < rs@.len() && rs@[i as int].film_id == f,
        r is None ==> !ratings_map(rs@).contains_key(f),
{
    let n = rs.len();
    for i in 0..n
        invariant
            n == rs@.len(),
            forall|j: int| 0 <= j < i ==> #[trigger] rs@[j].film_id != f,
    {
        if rs[i].film_id == f {
            return Some(i);
        }
    }
    proof {
        let e = rating_entries(rs@);
        lemma_assoc_dom(e);
        if keys_of(e).contains(f) {
            let j = choose|j: int| 0 <= j < keys_of(e).len() && keys_of(e)[j] == f;
            assert(rs@[j].film_id == f);
        }
    }
    None
}

/// The counts of film `f` (those of an uncompared film when it has no
/// entry).
pub fn rating_counts(rs: &Vec<BtRating>, f: usize) -> (r: (u32, bool))
    requires
        ratings_wf(rs@),
    ensures
        r.0 == comparisons_of(ratings_map(rs@), f),
        r.1 == ratings_map(rs@).contains_key(f),
{
    match find_rating(rs, f) {
        Some(i) => {
            proof {
                lemma_ratings_get(rs@, i as int);
            }
            (rs[i].comparisons, true)
        },
        None => (0, false),
    }
}

/// How often `w` beat `l`.
pub fn wins_between(rs: &Vec<BtRating>, w: usize, l: usize) -> (c: u32)
    requires
        ratings_wf(rs@),
    ensures
        c == win_count_of(ratings_map(rs@), w, l),
{
    match find_rating(rs, w) {
        Some(i) => {
            proof {
                lemma_ratings_get(rs@, i as int);
            }
            rs[i].win_count(l)
        },
        None => 0,
    }
}

/// The number of comparisons between `a` and `b`: how often each beat the
/// other, added.
pub fn pair_comparisons(rs: &Vec<BtRating>, a: usize, b: usize) -> (n: u64)
    requires
        ratings_wf(rs@),
    ensures
        n == win_count_of(ratings_map(rs@), a, b) + win_count_of(ratings_map(rs@), b, a),
{
    let x = wins_between(rs, a, b);
    let y = wins_between(rs, b, a);
    x as u64 + y as u64
}

/// The index of film `f`'s entry, adding an uncompared entry when it has
/// none.
pub fn rating_entry(rs: &mut Vec<BtRating>, f: usize) -> (i: usize)
    requires
        ratings_wf(old(rs)@),
    ensures
        ratings_wf(final(rs)@),
        i < final(rs)@.len(),
        final(rs)@[i as int].film_id == f,
        ratings_map(final(rs)@) == ratings_map(old(rs)@).insert(
            f,
            rating_or_new(ratings_map(old(rs)@), f),
        ),
{
    match find_rating(rs, f) {
        Some(i) => {
            proof {
                lemma_ratings_get(rs@, i as int);
                assert(ratings_map(rs@) =~= ratings_map(rs@).insert(
                    f,
                    rating_or_new(ratings_map(rs@), f),
                ));
            }
            i
        },
        None => {
            let r = BtRating::new(f);
            proof {
                let e = rating_entries(rs@);
                lemma_assoc_dom(e);
                lemma_assoc_push(e, f, r@);
                assert(rating_entries(rs@.push(r)) =~= e.push((f, r@)));
            }
            rs.push(r);
            rs.len() - 1
        },
    }
}

/// Counts a vote for `w` over `l`: both films are compared once more, and
/// `w` beat `l` once more. Films without an entry get one.
pub fn record_vote(rs: &mut Vec<BtRating>, w: usize, l: usize)
    requires
        ratings_wf(old(rs)@),
        record_vote_fits(ratings_map(old(rs)@), w, l),
    ensures
        ratings_wf(final(rs)@),
        ratings_map(final(rs)@) == record_vote_spec(ratings_map(old(rs)@), w, l),
{
    let ghost m0 = ratings_map(rs@);
    let i = rating_entry(rs, w);
    proof {
        lemma_ratings_get(rs@, i as int);
    }
    let ghost before = rs@;
    {
        let r = &mut rs[i];
        r.comparisons = r.comparisons + 1;
        r.add_win_against(l);
    }
    proof {
        assert(rs@ == before.update(i as int, rs@[i as int]));
        lemma_ratings_update(before, i as int, rs@[i as int]);
        assert(rs@[i as int]@ =~= bumped(rating_or_new(m0, w), l));
        assert(ratings_map(rs@) =~= after_winner(m0, w, l));
    }
    let ghost m1 = ratings_map(rs@);
    let j = rating_entry(rs, l);
    proof {
        lemma_ratings_get(rs@, j as int);
    }
    let ghost before2 = rs@;
    {
        let r = &mut rs[j];
        r.comparisons = r.comparisons + 1;
    }
    proof {
        assert(rs@ == before2.update(j as int, rs@[j as int]));
        lemma_ratings_update(before2, j as int, rs@[j as int]);
        assert(rs@[j as int]@ =~= touched(rating_or_new(m1, l)));
        assert(ratings_map(rs@) =~= record_vote_spec(m0, w, l));
    }
}

/// Withdraws a vote for `w` over `l`: the counts of the films that have an
/// entry go down by one, not below zero.
pub fn retract_vote(rs: &mut Vec<BtRating>, w: usize, l: usize)
    requires
        ratings_wf(old(rs)@),
    ensures
        ratings_wf(final(rs)@),
        ratings_map(final(rs)@) == retract_vote_spec(ratings_map(old(rs)@), w, l),
{
    let ghost m0 = ratings_map(rs@);
    if let Some(i) = find_rating(rs, w) {
        proof {
            lemma_ratings_get(rs@, i as int);
        }
        let ghost before = rs@;
        {
            let r = &mut rs[i];
            r.comparisons = r.comparisons.saturating_sub(1);
            r.remove_win_against(l);
        }
        proof {
            assert(rs@ == before.update(i as int, rs@[i as int]));
            lemma_ratings_update(before, i as int, rs@[i as int]);
            assert(rs@[i as int]@ =~= unbumped(m0[w], l));
        }
    }
    let ghost m1 = ratings_map(rs@);
    assert(m1 == (if m0.contains_key(w) { m0.insert(w, unbumped(m0[w], l)) } else { m0 }));
    if let Some(j) = find_rating(rs, l) {
        proof {
            lemma_ratings_get(rs@, j as int);
        }
        let ghost before2 = rs@;
        {
            let r = &mut rs[j];
            r.comparisons = r.comparisons.saturating_sub(1);
        }
        proof {
            assert(rs@ == before2.update(j as int, rs@[j as int]));
            lemma_ratings_update(before2, j as int, rs@[j as int]);
            assert(rs@[j as int]@ =~= untouched(m1[l]));
        }
    }
    assert(ratings_map(rs@) =~= retract_vote_spec(m0, w, l));
}

/// Clears every film's counts, keeping its entry.
pub fn reset_counts(rs: &mut Vec<BtRating>)
    requires
        ratings_wf(old(rs)@),
    ensures
        ratings_wf(final(rs)@),
        ratings_map(final(rs)@).dom() == ratings_map(old(rs)@).dom(),
        forall|f: usize| #[trigger]
            ratings_map(final(rs)@).contains_key(f) ==> ratings_map(final(rs)@)[f]
                == new_rating(),
{
    let n = rs.len();
    for i in 0..n
        invariant
            n == rs@.len(),
            ratings_wf(rs@),
            keys_of(rating_entries(rs@)) == keys_of(rating_entries(old(rs)@)),
            forall|j: int| 0 <= j < i ==> (#[trigger] rs@[j])@ == new_rating(),
    {
        let ghost before = rs@;
        let fresh = BtRating::new(rs[i].film_id);
        rs.set(i, fresh);
        proof {
            lemma_ratings_update(before, i as int, fresh);
            assert(keys_of(rating_entries(rs@)) =~= keys_of(rating_entries(before)));
        }
    }
    proof {
        let e = rating_entries(rs@);
        lemma_assoc_dom(e);
        lemma_assoc_dom(rating_entries(old(rs)@));
        assert forall|f: usize| #[trigger] ratings_map(rs@).contains_key(f) implies ratings_map(
            rs@,
        )[f] == new_rating() by {
            let j = choose|j: int| 0 <= j < keys_of(e).len() && keys_of(e)[j] == f;
            lemma_ratings_get(rs@, j);
        }
    }
}

} // verus!
