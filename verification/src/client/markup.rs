//! Text for HTML: escaping, shortened titles, poster markup and leaderboard
//! rows.
use vstd::prelude::*;
use crate::text::{chars_of, decimal, push_decimal, string_push};

verus! {

/// The HTML text for one character: `&`, `<`, `>` and `"` become entities.
pub open spec fn escape_char(c: char) -> Seq<char> {
    if c == '&' {
        "&amp;"@
    } else if c == '<' {
        "&lt;"@
    } else if c == '>' {
        "&gt;"@
    } else if c == '"' {
        "&quot;"@
    } else {
        seq![c]
    }
}

/// `s` as HTML text.
pub open spec fn html_escape_spec(s: Seq<char>) -> Seq<char>
    decreases s.len(),
{
    if s.len() == 0 {
        s
    } else {
        html_escape_spec(s.drop_last()) + escape_char(s.last())
    }
}

/// `s` as HTML text: `&`, `<`, `>` and `"` replaced by their entities.
pub fn html_escape(s: &str) -> (r: String)
    ensures
        r@ == html_escape_spec(s@),
{
    let v = chars_of(s);
    let n = v.len();
    let mut r = String::new();
    for i in 0..n
        invariant
            n == v@.len(),
            r@ == html_escape_spec(v@.take(i as int)),
    {
        assert(v@.take(i + 1).drop_last() =~= v@.take(i as int));
        let c = v[i];
        if c == '&' {
            r.append("&amp;");
        } else if c == '<' {
            r.append("&lt;");
        } else if c == '>' {
            r.append("&gt;");
        } else if c == '"' {
            r.append("&quot;");
        } else {
            string_push(&mut r, c);
        }
        assert(r@ =~= html_escape_spec(v@.take(i + 1)));
    }
    assert(v@.take(n as int) =~= v@);
    r
}

/// Escaped text holds no `<`, `>` or `"`: it cannot open a tag or close an
/// attribute.
pub proof fn html_escape_leaves_no_markup(s: Seq<char>)
    ensures
        forall|i: int|
            0 <= i < html_escape_spec(s).len() ==> {
                let c = #[trigger] html_escape_spec(s)[i];
                c != '<' && c != '>' && c != '"'
            },
    decreases s.len(),
{
    reveal_strlit("&amp;");
    reveal_strlit("&lt;");
    reveal_strlit("&gt;");
    reveal_strlit("&quot;");
    if s.len() > 0 {
        html_escape_leaves_no_markup(s.drop_last());
        let a = html_escape_spec(s.drop_last());
        let b = escape_char(s.last());
        assert forall|i: int| 0 <= i < (a + b).len() implies {
            let c = #[trigger] (a + b)[i];
            c != '<' && c != '>' && c != '"'
        } by {
            if i < a.len() {
                assert((a + b)[i] == a[i]);
            } else {
                assert((a + b)[i] == b[i - a.len()]);
            }
        }
    }
}

/// A title of at most eleven characters, or its first eleven and an
/// ellipsis.
pub open spec fn short_title_spec(t: Seq<char>) -> Seq<char> {
    if t.len() > 11 {
        t.take(11).push('\u{2026}')
    } else {
        t
    }
}

/// A title shortened for a matrix header.
pub fn short_title(t: &str) -> (r: String)
    ensures
        r@ == short_title_spec(t@),
{
    let v = chars_of(t);
    if v.len() > 11 {
        let head = crate::text::slice_prefix(v.as_slice(), 11);
        let mut r = crate::text::string_of(head.as_slice());
        string_push(&mut r, '\u{2026}');
        r
    } else {
        crate::text::string_of(v.as_slice())
    }
}

/// The markup shown for a poster: a placeholder when the address is empty
/// or known not to load, otherwise an image of the escaped address.
pub open spec fn poster_html_spec(url: Seq<char>, broken: bool) -> Seq<char> {
    if url.len() == 0 || broken {
        "<div class=\"poster-ph\">&#127916;</div>"@
    } else {
        "<img class=\"poster\" src=\""@ + html_escape_spec(url) + "\">"@
    }
}

/// The markup for a poster; `broken` tells whether the address failed to
/// load before.
pub fn poster_html(url: &str, broken: bool) -> (r: String)
    ensures
        r@ == poster_html_spec(url@, broken),
{
    if url.unicode_len() == 0 || broken {
        String::from_str("<div class=\"poster-ph\">&#127916;</div>")
    } else {
        let mut r = String::from_str("<img class=\"poster\" src=\"");
        let e = html_escape(url);
        r.append(e.as_str());
        r.append("\">");
        r
    }
}


/// The city part of a row's second line: nothing, or a middle dot and the
/// escaped city.
pub open spec fn city_part(city: Seq<char>) -> Seq<char> {
    if city.len() == 0 {
        Seq::empty()
    } else {
        " &middot; "@ + html_escape_spec(city)
    }
}

/// The video part of a row's second line: nothing, or a middle dot and a
/// "Watch" link to the escaped address.
pub open spec fn video_part(video: Seq<char>) -> Seq<char> {
    if video.len() == 0 {
        Seq::empty()
    } else {
        " &middot; <a href=\""@ + html_escape_spec(video) + "\" target=\"_blank\" class=\"board-video\">Watch</a>"@
    }
}

/// A whole number in decimal, with a minus sign when it is negative.
pub open spec fn signed_decimal(x: int) -> Seq<char> {
    if x < 0 {
        seq!['-'] + decimal((-x) as nat)
    } else {
        decimal(x as nat)
    }
}

/// Appends `x` in decimal, with a minus sign when it is negative.
pub fn push_signed_decimal(s: &mut String, x: i64)
    ensures
        final(s)@ == old(s)@ + signed_decimal(x as int),
{
    if x < 0 {
        string_push(s, '-');
        let mag: u64 = (0i128 - (x as i128)) as u64;
        push_decimal(s, mag);
        assert(s@ =~= old(s)@ + signed_decimal(x as int));
    } else {
        push_decimal(s, x as u64);
    }
}

/// The markup of a leaderboard row: its rank, the film's id, poster, title,
/// team, city (after a middle dot, when there is one), video link (when
/// there is one), rounded rating and record, all text escaped.
pub open spec fn board_row_spec(
    rank: nat,
    id: nat,
    poster: Seq<char>,
    broken: bool,
    title: Seq<char>,
    team: Seq<char>,
    city: Seq<char>,
    video: Seq<char>,
    rating: int,
    wins: nat,
    losses: nat,
) -> Seq<char> {
    "<div class=\"board-item\" data-film-id=\""@ + decimal(id) + "\">\n                            <div class=\"board-rank\">"@ + decimal(rank) + "</div>\n                            "@
        + poster_html_spec(poster, broken) + "\n                            <div class=\"board-info\">\n                                <div class=\"board-title\">"@ + html_escape_spec(title) + "</div>\n                                <div class=\"board-meta\">"@
        + html_escape_spec(team) + city_part(city) + video_part(video) + "</div>\n                            </div>\n                            <div class=\"board-stats\">\n                                <div class=\"board-score\">"@
        + signed_decimal(rating) + "</div>\n                                <div class=\"board-record\">"@ + decimal(wins) + "W - "@ + decimal(losses)
        + "L</div>\n                            </div>\n                        </div>"@
}

/// The markup of a leaderboard row.
pub fn board_row_html(
    rank: usize,
    id: usize,
    poster: &str,
    broken: bool,
    title: &str,
    team: &str,
    city: &str,
    video: &str,
    rating: i64,
    wins: u32,
    losses: u32,
) -> (r: String)
    ensures
        r@ == board_row_spec(
            rank as nat,
            id as nat,
            poster@,
            broken,
            title@,
            team@,
            city@,
            video@,
            rating as int,
            wins as nat,
            losses as nat,
        ),
{
    let mut r = String::from_str("<div class=\"board-item\" data-film-id=\"");
    push_decimal(&mut r, id as u64);
    r.append("\">\n                            <div class=\"board-rank\">");
    push_decimal(&mut r, rank as u64);
    r.append("</div>\n                            ");
    let p = poster_html(poster, broken);
    r.append(p.as_str());
    r.append("\n                            <div class=\"board-info\">\n                                <div class=\"board-title\">");
    let t = html_escape(title);
    r.append(t.as_str());
    r.append("</div>\n                                <div class=\"board-meta\">");
    let m = html_escape(team);
    r.append(m.as_str());
    if city.unicode_len() > 0 {
        r.append(" &middot; ");
        let c = html_escape(city);
        r.append(c.as_str());
    }
    if video.unicode_len() > 0 {
        r.append(" &middot; <a href=\"");
        let v = html_escape(video);
        r.append(v.as_str());
        r.append("\" target=\"_blank\" class=\"board-video\">Watch</a>");
    }
    r.append("</div>\n                            </div>\n                            <div class=\"board-stats\">\n                                <div class=\"board-score\">");
    push_signed_decimal(&mut r, rating);
    r.append("</div>\n                                <div class=\"board-record\">");
    push_decimal(&mut r, wins as u64);
    r.append("W - ");
    push_decimal(&mut r, losses as u64);
    r.append("L</div>\n                            </div>\n                        </div>");
    assert(r@ =~= board_row_spec(
        rank as nat,
        id as nat,
        poster@,
        broken,
        title@,
        team@,
        city@,
        video@,
        rating as int,
        wins as nat,
        losses as nat,
    ));
    r
}

} // verus!
