//! The film list: one header line, then one film per line with its title,
//! team and city separated by commas.
use vstd::prelude::*;
use crate::models::{Film, FilmView, film_views};
use crate::text::{
    TrimClass, char_rows, chars_of, lines, push_chars, split_lines, splitn, splitn_chars, trim,
    trim_chars, trim_ws,
};

verus! {

/// The lines of a film list after its header line.
pub open spec fn data_lines(content: Seq<char>) -> Seq<Seq<char>> {
    let ls = lines(content);
    if ls.len() == 0 {
        ls
    } else {
        ls.skip(1)
    }
}

/// The poster address of a film, built from its city and team.
pub open spec fn poster_url_for(city: Seq<char>, team: Seq<char>) -> Seq<char> {
    "https://www.48hourfilm.com/storage/posters/48HFP "@ + city + " 2025 - "@ + team
        + " - Poster - file 1.jpg"@
}

/// The film on the data line at position `i` (counting from zero), if the
/// line has at least a title and a team. The title loses its surrounding
/// quotes; the city is everything after the second comma.
pub open spec fn film_from_line(i: nat, line: Seq<char>) -> Option<FilmView> {
    let parts = splitn(trim_ws(line), 3, ',');
    if parts.len() < 2 {
        None
    } else {
        let team = trim_ws(parts[1]);
        let city = if parts.len() > 2 { trim_ws(parts[2]) } else { Seq::<char>::empty() };
        Some(
            FilmView {
                id: (i + 1) as usize,
                title: trim(trim_ws(parts[0]), TrimClass::Quote),
                team,
                city,
                poster_url: poster_url_for(city, team),
                video_url: Seq::<char>::empty(),
            },
        )
    }
}

/// The films of a sequence of data lines, in order; a line that is not a film
/// still takes up an id.
pub open spec fn films_from_lines(ls: Seq<Seq<char>>) -> Seq<FilmView>
    decreases ls.len(),
{
    if ls.len() == 0 {
        Seq::empty()
    } else {
        let rest = films_from_lines(ls.drop_last());
        match film_from_line((ls.len() - 1) as nat, ls.last()) {
            Some(f) => rest.push(f),
            None => rest,
        }
    }
}

/// Appends the poster address for `city` and `team` to `s`.
pub fn push_poster_url(s: &mut String, city: &[char], team: &[char])
    ensures
        final(s)@ == old(s)@ + poster_url_for(city@, team@),
{
    s.append("https://www.48hourfilm.com/storage/posters/48HFP ");
    push_chars(s, city);
    s.append(" 2025 - ");
    push_chars(s, team);
    s.append(" - Poster - file 1.jpg");
    assert(s@ =~= old(s)@ + poster_url_for(city@, team@));
}

fn string_from(v: &[char]) -> (s: String)
    ensures
        s@ == v@,
{
    crate::text::string_of(v)
}

/// Reads the film on data line `i`.
fn film_from_chars(i: usize, line: &[char]) -> (r: Option<Film>)
    requires
        i < usize::MAX,
    ensures
        r matches Some(f) ==> film_from_line(i as nat, line@) == Some(f@),
        r is None ==> film_from_line(i as nat, line@) is None,
{
    let l = trim_chars(line, TrimClass::Whitespace);
    let parts = splitn_chars(l.as_slice(), 3, ',');
    if parts.len() < 2 {
        return None;
    }
    assert(char_rows(parts@)[0] == parts@[0]@);
    assert(char_rows(parts@)[1] == parts@[1]@);
    let t0 = trim_chars(parts[0].as_slice(), TrimClass::Whitespace);
    let title = trim_chars(t0.as_slice(), TrimClass::Quote);
    let team = trim_chars(parts[1].as_slice(), TrimClass::Whitespace);
    let city = if parts.len() > 2 {
        assert(char_rows(parts@)[2] == parts@[2]@);
        trim_chars(parts[2].as_slice(), TrimClass::Whitespace)
    } else {
        Vec::new()
    };
    let mut poster_url = String::new();
    push_poster_url(&mut poster_url, city.as_slice(), team.as_slice());
    let f = Film {
        id: i + 1,
        title: string_from(title.as_slice()),
        team: string_from(team.as_slice()),
        city: string_from(city.as_slice()),
        poster_url,
        video_url: String::new(),
    };
    assert(f@ == film_from_line(i as nat, line@)->Some_0);
    Some(f)
}

/// Reads a film list: the header line is skipped, and each further line
/// with at least a title and a team gives a film whose id is the line's
/// position after the header, counting from one.
pub fn parse_csv(content: &str) -> (films: Vec<Film>)
    ensures
        film_views(films@) == films_from_lines(data_lines(content@)),
{
    let all = chars_of(content);
    let ls = split_lines(all.as_slice());
    let n = ls.len();
    let mut films: Vec<Film> = Vec::new();
    if n == 0 {
        assert(film_views(films@) =~= films_from_lines(data_lines(content@)));
        return films;
    }
    let ghost data = char_rows(ls@).skip(1);
    assert(data == data_lines(content@));
    let mut k: usize = 1;
    while k < n
        invariant
            1 <= k <= n,
            n == ls@.len(),
            data == char_rows(ls@).skip(1),
            film_views(films@) == films_from_lines(data.take(k - 1)),
        decreases n - k,
    {
        let ghost pre = data.take(k - 1);
        let ghost next = data.take(k as int);
        assert(next.drop_last() =~= pre);
        assert(next.last() == ls@[k as int]@);
        let r = film_from_chars(k - 1, ls[k].as_slice());
        match r {
            Some(f) => {
                films.push(f);
                assert(film_views(films@) =~= films_from_lines(pre).push(f@));
            },
            None => {},
        }
        k = k + 1;
    }
    assert(data.take(n - 1) =~= data);
    films
}

// ---------------------------------------------------------------------------
// How a quoted title is read
// ---------------------------------------------------------------------------

pub(crate) proof fn lemma_trim_start_prefix(w: Seq<char>, s: Seq<char>, k: TrimClass)
    requires
        forall|j: int| 0 <= j < w.len() ==> crate::text::in_class(k, #[trigger] w[j]),
    ensures
        crate::text::trim_start(w + s, k) == crate::text::trim_start(s, k),
    decreases w.len(),
{
    if w.len() > 0 {
        let w1 = w.skip(1);
        assert((w + s).skip(1) =~= w1 + s);
        assert((w + s)[0] == w[0]);
        lemma_trim_start_prefix(w1, s, k);
    } else {
        assert(w + s =~= s);
    }
}

pub(crate) proof fn lemma_trim_end_suffix(s: Seq<char>, w: Seq<char>, k: TrimClass)
    requires
        forall|j: int| 0 <= j < w.len() ==> crate::text::in_class(k, #[trigger] w[j]),
    ensures
        crate::text::trim_end(s + w, k) == crate::text::trim_end(s, k),
    decreases w.len(),
{
    if w.len() > 0 {
        let w1 = w.drop_last();
        assert((s + w).drop_last() =~= s + w1);
        assert((s + w).last() == w.last());
        lemma_trim_end_suffix(s, w1, k);
    } else {
        assert(s + w =~= s);
    }
}

pub(crate) proof fn lemma_trim_end_kept(a: Seq<char>, b: Seq<char>, k: TrimClass)
    requires
        a.len() > 0,
        !crate::text::in_class(k, a.last()),
    ensures
        crate::text::trim_end(a + b, k) == a + crate::text::trim_end(b, k),
    decreases b.len(),
{
    if b.len() > 0 {
        assert((a + b).drop_last() =~= a + b.drop_last());
        assert((a + b).last() == b.last());
        lemma_trim_end_kept(a, b.drop_last(), k);
    } else {
        assert(a + b =~= a);
        assert((a + b).last() == a.last());
    }
}

pub(crate) proof fn lemma_first_comma(p: Seq<char>, q: Seq<char>)
    requires
        forall|j: int| 0 <= j < p.len() ==> #[trigger] p[j] != ',',
    ensures
        crate::text::first_index(p + seq![','] + q, ',') == Some(p.len()),
    decreases p.len(),
{
    let s = p + seq![','] + q;
    if p.len() > 0 {
        let p1 = p.skip(1);
        assert(s.skip(1) =~= p1 + seq![','] + q);
        assert(s[0] == p[0]);
        lemma_first_comma(p1, q);
    } else {
        assert(s[0] == ',');
    }
}

/// A title field written as a quoted title with white space around it,
/// `  "T"  `, is read as `T`: white space is trimmed first, then the
/// surrounding quotes (for any `T` without a comma that neither starts nor
/// ends with a quote), whatever follows the first comma.
pub proof fn quoted_title_is_read_without_quotes(
    i: nat,
    ws1: Seq<char>,
    t: Seq<char>,
    ws2: Seq<char>,
    rest: Seq<char>,
)
    requires
        forall|j: int| 0 <= j < ws1.len() ==> crate::text::is_white(#[trigger] ws1[j]),
        forall|j: int| 0 <= j < ws2.len() ==> crate::text::is_white(#[trigger] ws2[j]),
        forall|j: int| 0 <= j < t.len() ==> #[trigger] t[j] != ',',
        t.len() > 0 ==> t[0] != '"' && t.last() != '"',
    ensures
        film_from_line(i, ws1 + seq!['"'] + t + seq!['"'] + ws2 + seq![','] + rest) matches Some(f)
            && f.title == t,
{
    let k = TrimClass::Whitespace;
    let q = TrimClass::Quote;
    let field = seq!['"'] + t + seq!['"'] + ws2;
    let line = ws1 + seq!['"'] + t + seq!['"'] + ws2 + seq![','] + rest;
    assert(line =~= ws1 + (field + seq![','] + rest));
    lemma_trim_start_prefix(ws1, field + seq![','] + rest, k);
    let after = field + seq![','] + rest;
    assert(after[0] == '"');
    assert(crate::text::trim_start(after, k) == after);
    let head = field + seq![','];
    assert(head.last() == ',');
    assert(after =~= head + rest);
    lemma_trim_end_kept(head, rest, k);
    let tl = head + crate::text::trim_end(rest, k);
    assert(trim_ws(line) == tl);
    assert forall|j: int| 0 <= j < field.len() implies #[trigger] field[j] != ',' by {
        if j == 0 || j == t.len() + 1 {
        } else if j <= t.len() {
            assert(field[j] == t[j - 1]);
        } else {
            assert(field[j] == ws2[j - t.len() - 2]);
            assert(crate::text::is_white(ws2[j - t.len() - 2]));
        }
    }
    lemma_first_comma(field, crate::text::trim_end(rest, k));
    assert(tl =~= field + seq![','] + crate::text::trim_end(rest, k));
    let parts = splitn(tl, 3, ',');
    assert(tl.take(field.len() as int) =~= field);
    let back = tl.skip(field.len() as int + 1);
    assert(splitn(back, 2, ',').len() >= 1) by {
        reveal_with_fuel(splitn, 2);
    }
    assert(parts == seq![tl.take(field.len() as int)] + splitn(back, 2, ','));
    assert(parts[0] == field);
    assert(parts.len() >= 2);
    let quoted = seq!['"'] + t + seq!['"'];
    assert(field =~= quoted + ws2);
    lemma_trim_end_suffix(quoted, ws2, k);
    assert(quoted.last() == '"');
    assert(crate::text::trim_end(quoted, k) == quoted);
    assert(quoted[0] == '"');
    assert(crate::text::trim_start(quoted, k) == quoted);
    assert(trim_ws(field) == quoted);
    assert(quoted.skip(1) =~= t + seq!['"']);
    let tq = t + seq!['"'];
    if t.len() > 0 {
        assert(tq[0] == t[0]);
        assert(crate::text::trim_start(tq, q) == tq);
        assert(tq.drop_last() =~= t);
        assert(crate::text::trim_end(t, q) == t);
    } else {
        assert(tq.skip(1) =~= Seq::<char>::empty());
        assert(crate::text::trim_start(Seq::<char>::empty(), q) =~= Seq::<char>::empty());
        assert(t =~= Seq::<char>::empty());
    }
    assert(crate::text::trim_start(quoted, q) == crate::text::trim_start(tq, q));
}

} // verus!
