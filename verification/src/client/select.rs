//! Searching the film list: a film matches a query when its title, team or
//! city holds the query, both lowercased; "select all" adds the films that
//! match.
use vstd::prelude::*;
use crate::models::Film;

verus! {

/// What `str::to_lowercase` gives for a string with characters `s`.
pub uninterp spec fn lowercase(s: Seq<char>) -> Seq<char>;

/// `str::to_lowercase`: the string with every character replaced by its
/// Unicode lowercase mapping. The contract claims only that the result is
/// `lowercase` of the argument.
#[verifier::external_body]
fn to_lowercase(s: &str) -> (r: String)
    ensures
        r@ == lowercase(s@),
{
    s.to_lowercase()
}

/// `needle` occurs in `hay` as a run of consecutive characters.
pub open spec fn is_infix(needle: Seq<char>, hay: Seq<char>) -> bool {
    exists|i: int| 0 <= i && i + needle.len() <= hay.len() && #[trigger] hay.subrange(i, i + needle.len()) == needle
}

/// A film with this title, team and city matches the query `q`.
pub open spec fn film_matches_spec(title: Seq<char>, team: Seq<char>, city: Seq<char>, q: Seq<char>) -> bool {
    let lq = lowercase(q);
    is_infix(lq, lowercase(title)) || is_infix(lq, lowercase(team)) || is_infix(lq, lowercase(city))
}

/// Whether `needle` stands in `hay` at position `at`.
fn matches_at(hay: &Vec<char>, needle: &Vec<char>, at: usize) -> (b: bool)
    requires
        at + needle@.len() <= hay@.len(),
    ensures
        b == (hay@.subrange(at as int, at + needle@.len()) == needle@),
{
    let n = needle.len();
    let hl = hay.len();
    for j in 0..n
        invariant
            n == needle@.len(),
            hl == hay@.len(),
            at + n <= hl,
            forall|t: int| 0 <= t < j ==> hay@[at + t] == needle@[t],
    {
        if hay[at + j] != needle[j] {
            assert(hay@.subrange(at as int, at + n)[j as int] != needle@[j as int]);
            return false;
        }
    }
    assert(hay@.subrange(at as int, at + n) =~= needle@);
    true
}

/// Whether `needle` occurs in `hay`.
pub fn contains_chars(hay: &Vec<char>, needle: &Vec<char>) -> (b: bool)
    ensures
        b == is_infix(needle@, hay@),
{
    let n = needle.len();
    let hl = hay.len();
    if n > hl {
        return false;
    }
    if n == 0 {
        assert(hay@.subrange(0, 0int + needle@.len()) =~= needle@);
        return true;
    }
    let last = hl - n;
    let mut i: usize = 0;
    while i <= last
        invariant
            n == needle@.len(),
            n >= 1,
            hl == hay@.len(),
            last == hl - n,
            forall|t: int| 0 <= t < i ==> #[trigger] hay@.subrange(t, t + n) != needle@,
        decreases last + 1 - i,
    {
        if matches_at(hay, needle, i) {
            return true;
        }
        i = i + 1;
    }
    false
}

fn lower_chars(s: &str) -> (v: Vec<char>)
    ensures
        v@ == lowercase(s@),
{
    let l = to_lowercase(s);
    crate::text::chars_of(l.as_str())
}

/// Whether the film matches a query already lowercased.
fn matches_lowered(f: &Film, lq: &Vec<char>, Ghost(q): Ghost<Seq<char>>) -> (b: bool)
    requires
        lq@ == lowercase(q),
    ensures
        b == film_matches_spec(f.title@, f.team@, f.city@, q),
{
    contains_chars(&lower_chars(f.title.as_str()), lq) || contains_chars(&lower_chars(f.team.as_str()), lq)
        || contains_chars(&lower_chars(f.city.as_str()), lq)
}

/// Whether film `f` matches the search query `q`: its title, team or city,
/// lowercased, holds the lowercased query.
pub fn film_matches(f: &Film, q: &str) -> (b: bool)
    ensures
        b == film_matches_spec(f.title@, f.team@, f.city@, q@),
{
    let lq = lower_chars(q);
    matches_lowered(f, &lq, Ghost(q@))
}

/// Some film of the list has id `id` and matches the query.
pub open spec fn matching_id(films: Seq<Film>, q: Seq<char>, id: usize) -> bool {
    exists|i: int|
        0 <= i < films.len() && (#[trigger] films[i]).id == id && film_matches_spec(
            films[i].title@,
            films[i].team@,
            films[i].city@,
            q,
        )
}

/// "Select all": adds to the selection the id of every film that matches
/// the query `q`; the selection keeps what it held, and holds no id twice
/// when it held none twice before.
pub fn select_matching(sel: &mut Vec<usize>, films: &Vec<Film>, q: &str)
    ensures
        forall|x: usize| #[trigger] final(sel)@.contains(x) <==> (old(sel)@.contains(x) || matching_id(films@, q@, x)),
        old(sel)@.no_duplicates() ==> final(sel)@.no_duplicates(),
{
    let lq = lower_chars(q);
    let n = films.len();
    for k in 0..n
        invariant
            n == films@.len(),
            lq@ == lowercase(q@),
            forall|x: usize| #[trigger] sel@.contains(x) <==> (old(sel)@.contains(x) || matching_id(films@.take(k as int), q@, x)),
            old(sel)@.no_duplicates() ==> sel@.no_duplicates(),
    {
        let ghost before = sel@;
        let m = matches_lowered(&films[k], &lq, Ghost(q@));
        let id = films[k].id;
        if m && !crate::handlers::contains_id(sel, id) {
            sel.push(id);
        }
        proof {
            assert forall|x: usize| #[trigger] sel@.contains(x) <==> (old(sel)@.contains(x) || matching_id(films@.take(k + 1), q@, x)) by {
                crate::handlers::lemma_push_contains(before, id, x);
                if matching_id(films@.take(k + 1), q@, x) {
                    let i = choose|i: int|
                        0 <= i < films@.take(k + 1).len() && (#[trigger] films@.take(k + 1)[i]).id == x && film_matches_spec(
                            films@.take(k + 1)[i].title@,
                            films@.take(k + 1)[i].team@,
                            films@.take(k + 1)[i].city@,
                            q@,
                        );
                    if i < k {
                        assert(films@.take(k as int)[i] == films@.take(k + 1)[i]);
                    }
                }
                if matching_id(films@.take(k as int), q@, x) {
                    let i = choose|i: int|
                        0 <= i < films@.take(k as int).len() && (#[trigger] films@.take(k as int)[i]).id == x && film_matches_spec(
                            films@.take(k as int)[i].title@,
                            films@.take(k as int)[i].team@,
                            films@.take(k as int)[i].city@,
                            q@,
                        );
                    assert(films@.take(k + 1)[i] == films@.take(k as int)[i]);
                }
                if m && x == id {
                    assert(films@.take(k + 1)[k as int] == films@[k as int]);
                }
            }
            if old(sel)@.no_duplicates() && sel@.len() > before.len() {
                assert forall|a: int, b: int| 0 <= a < b < sel@.len() implies sel@[a] != sel@[b] by {
                    if b == sel@.len() - 1 {
                        assert(before[a] == sel@[a]);
                        assert(before.contains(sel@[a]));
                    }
                }
            }
        }
    }
    assert(films@.take(n as int) =~= films@);
}

} // verus!
