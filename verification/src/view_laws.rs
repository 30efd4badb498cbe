//! What the views count, said over the users and counts themselves: a
//! film's voters are the users whose outcomes name it, the films with votes
//! are those compared at least once, and contributions come ordered by
//! votes and then films selected.
use vstd::prelude::*;
use crate::bt::BtRating;
use crate::models::parse_pair_key_spec;
use crate::views::{
    active_ids_spec, contribution_rows, insert_pos, names_film, ranks_before, sort_rows, voted_on,
    voter_count,
};

verus! {

/// How many of the indices below `n` satisfy `p`.
spec fn count_where(p: spec_fn(int) -> bool, n: int) -> nat
    decreases n,
{
    if n <= 0 {
        0
    } else {
        count_where(p, n - 1) + if p(n - 1) {
            1nat
        } else {
            0nat
        }
    }
}

proof fn lemma_count_where_set(p: spec_fn(int) -> bool, n: int)
    requires
        n >= 0,
    ensures
        Set::new(|i: int| 0 <= i < n && p(i)).finite(),
        Set::new(|i: int| 0 <= i < n && p(i)).len() == count_where(p, n),
    decreases n,
{
    let s = Set::new(|i: int| 0 <= i < n && p(i));
    if n == 0 {
        assert(s =~= Set::<int>::empty());
    } else {
        lemma_count_where_set(p, n - 1);
        let s1 = Set::new(|i: int| 0 <= i < n - 1 && p(i));
        if p(n - 1) {
            assert(s =~= s1.insert(n - 1));
            assert(!s1.contains(n - 1));
        } else {
            assert(s =~= s1);
        }
    }
}

proof fn lemma_count_where_agree(p: spec_fn(int) -> bool, q: spec_fn(int) -> bool, n: int)
    requires
        forall|i: int| 0 <= i < n ==> #[trigger] p(i) == q(i),
    ensures
        count_where(p, n) == count_where(q, n),
    decreases n,
{
    if n > 0 {
        lemma_count_where_agree(p, q, n - 1);
    }
}

/// Whether some outcome of the list is for a pair with film `f`, read from
/// the outcome keys.
pub open spec fn outcomes_name(o: Seq<(Seq<char>, usize)>, f: usize) -> bool {
    exists|j: int|
        0 <= j < o.len() && (#[trigger] parse_pair_key_spec(o[j].0) matches Some((a, b)) && (a == f
            || b == f))
}

proof fn lemma_voted_on(o: Seq<(Seq<char>, usize)>, f: usize)
    ensures
        voted_on(o, f) == outcomes_name(o, f),
{
    if voted_on(o, f) {
        let j = choose|j: int| 0 <= j < o.len() && #[trigger] names_film(o[j].0, f);
        assert(parse_pair_key_spec(o[j].0) matches Some((a, b)) && (a == f || b == f));
    }
    if outcomes_name(o, f) {
        let j = choose|j: int|
            0 <= j < o.len() && (#[trigger] parse_pair_key_spec(o[j].0) matches Some((a, b)) && (a
                == f || b == f));
        assert(names_film(o[j].0, f));
    }
}

proof fn lemma_voter_count(ls: Seq<(Seq<char>, Seq<(Seq<char>, usize)>)>, f: usize)
    ensures
        voter_count(ls, f) == count_where(|i: int| outcomes_name(ls[i].1, f), ls.len() as int),
    decreases ls.len(),
{
    if ls.len() > 0 {
        let d = ls.drop_last();
        lemma_voter_count(d, f);
        lemma_count_where_agree(
            |i: int| outcomes_name(d[i].1, f),
            |i: int| outcomes_name(ls[i].1, f),
            d.len() as int,
        );
        lemma_voted_on(ls.last().1, f);
    }
}

/// A film's voter count is the number of users (entries of the users'
/// outcome lists) with at least one outcome whose pair key names the film:
/// users whose outcomes never name it do not count.
pub proof fn voter_count_counts_users_naming_the_film(ls: Seq<(Seq<char>, Seq<(Seq<char>, usize)>)>, f: usize)
    ensures
        voter_count(ls, f) == Set::new(|i: int| 0 <= i < ls.len() && outcomes_name(ls[i].1, f)).len(),
{
    lemma_voter_count(ls, f);
    let p = |i: int| outcomes_name(ls[i].1, f);
    lemma_count_where_set(p, ls.len() as int);
    assert(Set::new(|i: int| 0 <= i < ls.len() && p(i)) =~= Set::new(
        |i: int| 0 <= i < ls.len() && outcomes_name(ls[i].1, f),
    ));
}

proof fn lemma_active_ids(rs: Seq<BtRating>)
    ensures
        active_ids_spec(rs).len() == count_where(|i: int| rs[i].comparisons > 0, rs.len() as int),
        forall|id: usize| #[trigger] active_ids_spec(rs).contains(id) <==> exists|i: int|
            0 <= i < rs.len() && rs[i].film_id == id && rs[i].comparisons > 0,
    decreases rs.len(),
{
    if rs.len() > 0 {
        let d = rs.drop_last();
        lemma_active_ids(d);
        lemma_count_where_agree(
            |i: int| d[i].comparisons > 0,
            |i: int| rs[i].comparisons > 0,
            d.len() as int,
        );
        let r = active_ids_spec(d);
        assert forall|id: usize| #[trigger] active_ids_spec(rs).contains(id) <==> exists|i: int|
            0 <= i < rs.len() && rs[i].film_id == id && rs[i].comparisons > 0 by {
            crate::handlers::lemma_push_contains(r, rs.last().film_id, id);
            if exists|i: int| 0 <= i < rs.len() && rs[i].film_id == id && rs[i].comparisons > 0 {
                let i = choose|i: int| 0 <= i < rs.len() && rs[i].film_id == id && rs[i].comparisons > 0;
                if i < d.len() {
                    assert(d[i] == rs[i]);
                }
            }
            if r.contains(id) {
                let i = choose|i: int| 0 <= i < d.len() && d[i].film_id == id && d[i].comparisons > 0;
                assert(rs[i] == d[i]);
            }
        }
    }
}

/// The films with votes are exactly the films whose counts show at least
/// one comparison, and there are as many of them as such count entries: a
/// film never compared is never counted.
pub proof fn active_ids_are_the_compared_films(rs: Seq<BtRating>)
    ensures
        forall|id: usize| #[trigger] active_ids_spec(rs).contains(id) <==> exists|i: int|
            0 <= i < rs.len() && rs[i].film_id == id && rs[i].comparisons > 0,
        active_ids_spec(rs).len() == Set::new(|i: int| 0 <= i < rs.len() && rs[i].comparisons > 0).len(),
{
    lemma_active_ids(rs);
    let p = |i: int| rs[i].comparisons > 0;
    lemma_count_where_set(p, rs.len() as int);
    assert(Set::new(|i: int| 0 <= i < rs.len() && p(i)) =~= Set::new(
        |i: int| 0 <= i < rs.len() && rs[i].comparisons > 0,
    ));
}

/// Row `x` may stand before row `y`: more votes, or as many votes and at
/// least as many films selected.
pub open spec fn may_precede(x: (bool, usize, usize), y: (bool, usize, usize)) -> bool {
    x.2 > y.2 || (x.2 == y.2 && x.1 >= y.1)
}

proof fn lemma_insert_pos(s: Seq<(bool, usize, usize)>, x: (bool, usize, usize))
    ensures
        0 <= insert_pos(s, x) <= s.len(),
        forall|p: int| 0 <= p < insert_pos(s, x) ==> !ranks_before(x, #[trigger] s[p]),
        insert_pos(s, x) < s.len() ==> ranks_before(x, s[insert_pos(s, x)]),
    decreases s.len(),
{
    if s.len() > 0 && !ranks_before(x, s[0]) {
        let t = s.skip(1);
        lemma_insert_pos(t, x);
        assert forall|p: int| 0 <= p < insert_pos(s, x) implies !ranks_before(x, #[trigger] s[p]) by {
            if p > 0 {
                assert(s[p] == t[p - 1]);
            }
        }
        if insert_pos(s, x) < s.len() {
            assert(s[insert_pos(s, x)] == t[insert_pos(t, x)]);
        }
    }
}

proof fn lemma_sort_rows_ordered(s: Seq<(bool, usize, usize)>)
    ensures
        sort_rows(s).len() == s.len(),
        forall|i: int, j: int|
            0 <= i < j < sort_rows(s).len() ==> may_precede(#[trigger] sort_rows(s)[i], #[trigger] sort_rows(s)[j]),
    decreases s.len(),
{
    if s.len() > 0 {
        let r = sort_rows(s.drop_last());
        lemma_sort_rows_ordered(s.drop_last());
        let x = s.last();
        lemma_insert_pos(r, x);
        let k = insert_pos(r, x);
        let n = r.insert(k, x);
        assert(sort_rows(s) == n);
        assert forall|i: int, j: int| 0 <= i < j < n.len() implies may_precede(#[trigger] n[i], #[trigger] n[j]) by {
            if j < k {
                assert(n[i] == r[i] && n[j] == r[j]);
            } else if j == k {
                assert(n[i] == r[i]);
                assert(!ranks_before(x, r[i]));
            } else if i < k {
                assert(n[i] == r[i] && n[j] == r[j - 1]);
            } else if i == k {
                assert(n[j] == r[j - 1]);
                assert(ranks_before(x, r[k]));
                if j - 1 > k {
                    assert(may_precede(r[k], r[j - 1]));
                }
            } else {
                assert(n[i] == r[i - 1] && n[j] == r[j - 1]);
            }
        }
    }
}

/// The contribution rows come ordered by votes, most first, and among equal
/// votes by films selected, most first.
pub proof fn contributions_are_ordered(us: Seq<(String, crate::models::UserState)>, me: Seq<char>)
    ensures
        forall|i: int, j: int|
            0 <= i < j < sort_rows(contribution_rows(us, me)).len() ==> {
                let a = #[trigger] sort_rows(contribution_rows(us, me))[i];
                let b = #[trigger] sort_rows(contribution_rows(us, me))[j];
                a.2 > b.2 || (a.2 == b.2 && a.1 >= b.1)
            },
{
    lemma_sort_rows_ordered(contribution_rows(us, me));
}

} // verus!
