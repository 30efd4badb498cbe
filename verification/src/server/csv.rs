//! The film list with media columns: title, team, city, an optional poster
//! address that replaces the built one, and an optional video address.
use vstd::prelude::*;
use crate::csv::{data_lines, poster_url_for, push_poster_url};
use crate::models::{Film, FilmView, film_views};
use crate::text::{
    TrimClass, char_rows, chars_of, split_lines, splitn, splitn_chars, string_of, trim,
    trim_chars, trim_ws,
};

verus! {

/// The film on data line `i`, if the line has at least a title and a team.
/// The city is the third field, a non-blank fourth field replaces the built
/// poster address, and the fifth field (the rest of the line) is the video.
pub open spec fn film_from_line(i: nat, line: Seq<char>) -> Option<FilmView> {
    let parts = splitn(trim_ws(line), 5, ',');
    if parts.len() < 2 {
        None
    } else {
        let team = trim_ws(parts[1]);
        let city = if parts.len() > 2 { trim_ws(parts[2]) } else { Seq::<char>::empty() };
        let poster = if parts.len() > 3 { trim_ws(parts[3]) } else { Seq::<char>::empty() };
        let video = if parts.len() > 4 { trim_ws(parts[4]) } else { Seq::<char>::empty() };
        Some(
            FilmView {
                id: (i + 1) as usize,
                title: trim(trim_ws(parts[0]), TrimClass::Quote),
                team,
                city,
                poster_url: if poster.len() > 0 { poster } else { poster_url_for(city, team) },
                video_url: video,
            },
        )
    }
}

/// The films of a sequence of data lines, in order; a line that is not a film
/// still takes up an id.
pub open spec fn films_from_lines(ls: Seq<Seq<char>>) -> Seq<FilmView>
    decreases ls.len(),
{
    if ls.len() == 0 {
        Seq::empty()
    } else {
        let rest = films_from_lines(ls.drop_last());
        match film_from_line((ls.len() - 1) as nat, ls.last()) {
            Some(f) => rest.push(f),
            None => rest,
        }
    }
}

fn field(parts: &Vec<Vec<char>>, j: usize) -> (r: Vec<char>)
    ensures
        r@ == (if j < parts@.len() { trim_ws(parts@[j as int]@) } else { Seq::<char>::empty() }),
{
    if j < parts.len() {
        trim_chars(parts[j].as_slice(), TrimClass::Whitespace)
    } else {
        Vec::new()
    }
}

fn film_from_chars(i: usize, line: &[char]) -> (r: Option<Film>)
    requires
        i < usize::MAX,
    ensures
        r matches Some(f) ==> film_from_line(i as nat, line@) == Some(f@),
        r is None ==> film_from_line(i as nat, line@) is None,
{
    let l = trim_chars(line, TrimClass::Whitespace);
    let parts = splitn_chars(l.as_slice(), 5, ',');
    if parts.len() < 2 {
        return None;
    }
    assert forall|j: int| 0 <= j < parts@.len() implies #[trigger] char_rows(parts@)[j] == parts@[j]@ by {}
    let t0 = trim_chars(parts[0].as_slice(), TrimClass::Whitespace);
    let title = trim_chars(t0.as_slice(), TrimClass::Quote);
    let team = field(&parts, 1);
    let city = field(&parts, 2);
    let poster = field(&parts, 3);
    let video = field(&parts, 4);
    let poster_url = if poster.len() > 0 {
        string_of(poster.as_slice())
    } else {
        let mut p = String::new();
        push_poster_url(&mut p, city.as_slice(), team.as_slice());
        p
    };
    let f = Film {
        id: i + 1,
        title: string_of(title.as_slice()),
        team: string_of(team.as_slice()),
        city: string_of(city.as_slice()),
        poster_url,
        video_url: string_of(video.as_slice()),
    };
    assert(f@ == film_from_line(i as nat, line@)->Some_0);
    Some(f)
}

/// Reads a film list with media columns: the header line is skipped, and
/// each further line with at least a title and a team gives a film whose id
/// is the line's position after the header, counting from one.
pub fn parse_csv(content: &str) -> (films: Vec<Film>)
    ensures
        film_views(films@) == films_from_lines(data_lines(content@)),
{
    let all = chars_of(content);
    let ls = split_lines(all.as_slice());
    let n = ls.len();
    let mut films: Vec<Film> = Vec::new();
    if n == 0 {
        assert(film_views(films@) =~= films_from_lines(data_lines(content@)));
        return films;
    }
    let ghost data = char_rows(ls@).skip(1);
    assert(data == data_lines(content@));
    let mut k: usize = 1;
    while k < n
        invariant
            1 <= k <= n,
            n == ls@.len(),
            data == char_rows(ls@).skip(1),
            film_views(films@) == films_from_lines(data.take(k - 1)),
        decreases n - k,
    {
        let ghost pre = data.take(k - 1);
        let ghost next = data.take(k as int);
        assert(next.drop_last() =~= pre);
        assert(next.last() == ls@[k as int]@);
        let r = film_from_chars(k - 1, ls[k].as_slice());
        match r {
            Some(f) => {
                films.push(f);
                assert(film_views(films@) =~= films_from_lines(pre).push(f@));
            },
            None => {},
        }
        k = k + 1;
    }
    assert(data.take(n - 1) =~= data);
    films
}


/// A title field written as a quoted title with white space around it,
/// `  "T"  `, is read as `T`: white space is trimmed first, then the
/// surrounding quotes (for any `T` without a comma that neither starts nor
/// ends with a quote), whatever follows the first comma.
pub proof fn quoted_title_is_read_without_quotes(
    i: nat,
    ws1: Seq<char>,
    t: Seq<char>,
    ws2: Seq<char>,
    rest: Seq<char>,
)
    requires
        forall|j: int| 0 <= j < ws1.len() ==> crate::text::is_white(#[trigger] ws1[j]),
        forall|j: int| 0 <= j < ws2.len() ==> crate::text::is_white(#[trigger] ws2[j]),
        forall|j: int| 0 <= j < t.len() ==> #[trigger] t[j] != ',',
        t.len() > 0 ==> t[0] != '"' && t.last() != '"',
    ensures
        film_from_line(i, ws1 + seq!['"'] + t + seq!['"'] + ws2 + seq![','] + rest) matches Some(f)
            && f.title == t,
{
    let k = TrimClass::Whitespace;
    let q = TrimClass::Quote;
    let field = seq!['"'] + t + seq!['"'] + ws2;
    let line = ws1 + seq!['"'] + t + seq!['"'] + ws2 + seq![','] + rest;
    assert(line =~= ws1 + (field + seq![','] + rest));
    crate::csv::lemma_trim_start_prefix(ws1, field + seq![','] + rest, k);
    let after = field + seq![','] + rest;
    assert(after[0] == '"');
    assert(crate::text::trim_start(after, k) == after);
    let head = field + seq![','];
    assert(head.last() == ',');
    assert(after =~= head + rest);
    crate::csv::lemma_trim_end_kept(head, rest, k);
    let tl = head + crate::text::trim_end(rest, k);
    assert(trim_ws(line) == tl);
    assert forall|j: int| 0 <= j < field.len() implies #[trigger] field[j] != ',' by {
        if j == 0 || j == t.len() + 1 {
        } else if j <= t.len() {
            assert(field[j] == t[j - 1]);
        } else {
            assert(field[j] == ws2[j - t.len() - 2]);
            assert(crate::text::is_white(ws2[j - t.len() - 2]));
        }
    }
    crate::csv::lemma_first_comma(field, crate::text::trim_end(rest, k));
    assert(tl =~= field + seq![','] + crate::text::trim_end(rest, k));
    let parts = splitn(tl, 5, ',');
    assert(tl.take(field.len() as int) =~= field);
    let back = tl.skip(field.len() as int + 1);
    assert(splitn(back, 4, ',').len() >= 1) by {
        reveal_with_fuel(splitn, 2);
    }
    assert(parts == seq![tl.take(field.len() as int)] + splitn(back, 4, ','));
    assert(parts[0] == field);
    assert(parts.len() >= 2);
    let quoted = seq!['"'] + t + seq!['"'];
    assert(field =~= quoted + ws2);
    crate::csv::lemma_trim_end_suffix(quoted, ws2, k);
    assert(quoted.last() == '"');
    assert(crate::text::trim_end(quoted, k) == quoted);
    assert(quoted[0] == '"');
    assert(crate::text::trim_start(quoted, k) == quoted);
    assert(trim_ws(field) == quoted);
    assert(quoted.skip(1) =~= t + seq!['"']);
    let tq = t + seq!['"'];
    if t.len() > 0 {
        assert(tq[0] == t[0]);
        assert(crate::text::trim_start(tq, q) == tq);
        assert(tq.drop_last() =~= t);
        assert(crate::text::trim_end(t, q) == t);
    } else {
        assert(tq.skip(1) =~= Seq::<char>::empty());
        assert(crate::text::trim_start(Seq::<char>::empty(), q) =~= Seq::<char>::empty());
        assert(t =~= Seq::<char>::empty());
    }
    assert(crate::text::trim_start(quoted, q) == crate::text::trim_start(tq, q));
}

} // verus!
