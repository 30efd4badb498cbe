//! The title and body of a suggested film or correction, as an issue to
//! open on the project's tracker.
use vstd::prelude::*;
use crate::text::{push_chars, string_of, trim_chars, trim_ws, TrimClass};

verus! {

/// A line of the body: the field's label in bold and its trimmed value.
pub open spec fn field_line(label: Seq<char>, value: Seq<char>) -> Seq<char> {
    "- **"@ + label + ":** "@ + trim_ws(value)
}

/// The lines of the fields whose trimmed value is not empty, in order.
pub open spec fn field_lines(fields: Seq<(Seq<char>, Seq<char>)>) -> Seq<Seq<char>>
    decreases fields.len(),
{
    if fields.len() == 0 {
        Seq::empty()
    } else {
        let r = field_lines(fields.drop_last());
        let (label, value) = fields.last();
        if trim_ws(value).len() > 0 {
            r.push(field_line(label, value))
        } else {
            r
        }
    }
}

/// Lines joined with a newline between each two.
pub open spec fn joined(ls: Seq<Seq<char>>) -> Seq<char>
    decreases ls.len(),
{
    if ls.len() == 0 {
        Seq::empty()
    } else if ls.len() == 1 {
        ls[0]
    } else {
        joined(ls.drop_last()) + "\n"@ + ls.last()
    }
}

/// The fields of a suggestion with their labels, in the order of the body.
pub open spec fn suggestion_fields(
    title: Seq<char>,
    team: Seq<char>,
    city: Seq<char>,
    poster: Seq<char>,
    video: Seq<char>,
) -> Seq<(Seq<char>, Seq<char>)> {
    seq![
        ("Title"@, title),
        ("Team"@, team),
        ("City"@, city),
        ("Poster URL"@, poster),
        ("Video URL"@, video),
    ]
}

/// The issue for a suggestion: nothing when the title, team and video are
/// all blank; otherwise a title ("New film: " and the title, or the team
/// when the title is blank, for a new film; "Correction: " and the film's
/// name for a film picked from the list) and a body (a heading, a blank
/// line, one line per filled field, and a final newline).
pub open spec fn suggestion_spec(
    film: Option<Seq<char>>,
    title: Seq<char>,
    team: Seq<char>,
    city: Seq<char>,
    poster: Seq<char>,
    video: Seq<char>,
) -> Option<(Seq<char>, Seq<char>)> {
    if trim_ws(title).len() == 0 && trim_ws(team).len() == 0 && trim_ws(video).len() == 0 {
        None
    } else {
        let issue_title = match film {
            None => "New film: "@ + (if trim_ws(title).len() > 0 {
                title
            } else {
                team
            }),
            Some(name) => "Correction: "@ + name,
        };
        let heading = if film is None {
            "## New film suggestion"@
        } else {
            "## Suggested correction"@
        };
        let body = heading + "\n\n"@ + joined(field_lines(suggestion_fields(title, team, city, poster, video)))
            + "\n"@;
        Some((issue_title, body))
    }
}

/// The characters of the picked film's name, if one is picked.
pub open spec fn name_view(film: Option<&str>) -> Option<Seq<char>> {
    match film {
        Some(f) => Some(f@),
        None => None,
    }
}

proof fn lemma_field_lines_step(f: Seq<(Seq<char>, Seq<char>)>, k: int)
    requires
        0 <= k < f.len(),
    ensures
        field_lines(f.take(k + 1)) == (if trim_ws(f[k].1).len() > 0 {
            field_lines(f.take(k)).push(field_line(f[k].0, f[k].1))
        } else {
            field_lines(f.take(k))
        }),
{
    assert(f.take(k + 1).drop_last() =~= f.take(k));
}

proof fn lemma_joined_push(ls: Seq<Seq<char>>, x: Seq<char>)
    ensures
        joined(ls.push(x)) == joined(ls) + (if ls.len() > 0 {
            "\n"@
        } else {
            Seq::<char>::empty()
        }) + x,
{
    assert(ls.push(x).drop_last() =~= ls);
    if ls.len() == 0 {
        assert(joined(ls) =~= Seq::<char>::empty());
        assert(Seq::<char>::empty() + Seq::<char>::empty() + x =~= x);
    }
}

/// Whether a text is blank once trimmed.
fn is_blank(v: &str) -> (b: bool)
    ensures
        b == (trim_ws(v@).len() == 0),
{
    let c = crate::text::chars_of(v);
    let t = trim_chars(c.as_slice(), TrimClass::Whitespace);
    t.len() == 0
}

/// Appends the line of a field whose trimmed value is not empty, after a
/// newline when `count` lines came before.
fn add_line(acc: &mut String, count: usize, label: &str, value: &str) -> (added: bool)
    ensures
        added == (trim_ws(value@).len() > 0),
        added ==> final(acc)@ == old(acc)@ + (if count > 0 {
            "\n"@
        } else {
            Seq::<char>::empty()
        }) + field_line(label@, value@),
        !added ==> final(acc)@ == old(acc)@,
{
    let c = crate::text::chars_of(value);
    let t = trim_chars(c.as_slice(), TrimClass::Whitespace);
    if t.len() == 0 {
        return false;
    }
    if count > 0 {
        acc.append("\n");
    }
    acc.append("- **");
    acc.append(label);
    acc.append(":** ");
    push_chars(acc, t.as_slice());
    proof {
        if count > 0 {
            assert(acc@ =~= old(acc)@ + "\n"@ + field_line(label@, value@));
        } else {
            assert(acc@ =~= old(acc)@ + Seq::<char>::empty() + field_line(label@, value@));
        }
    }
    true
}

/// The title and body of the issue for a suggestion, or nothing when the
/// title, team and video are all blank. `film` is the name of the film
/// picked from the list, or `None` for a new film.
pub fn suggestion_issue(
    film: Option<&str>,
    title: &str,
    team: &str,
    city: &str,
    poster: &str,
    video: &str,
) -> (r: Option<(String, String)>)
    ensures
        match r {
            None => suggestion_spec(name_view(film), title@, team@, city@, poster@, video@) is None,
            Some((t, b)) => suggestion_spec(name_view(film), title@, team@, city@, poster@, video@)
                == Some((t@, b@)),
        },
{
    let blank_title = is_blank(title);
    if blank_title && is_blank(team) && is_blank(video) {
        return None;
    }
    let issue_title = match film {
        None => {
            let mut t = String::from_str("New film: ");
            if !blank_title {
                t.append(title);
            } else {
                t.append(team);
            }
            t
        },
        Some(name) => {
            let mut t = String::from_str("Correction: ");
            t.append(name);
            t
        },
    };
    let ghost f = suggestion_fields(title@, team@, city@, poster@, video@);
    let mut lines = String::new();
    let mut n: usize = 0;
    assert(f.take(0) =~= Seq::<(Seq<char>, Seq<char>)>::empty());
    assert(lines@ =~= joined(field_lines(f.take(0))));
    proof {
        lemma_field_lines_step(f, 0);
        lemma_joined_push(field_lines(f.take(0)), field_line(f[0].0, f[0].1));
    }
    if add_line(&mut lines, n, "Title", title) {
        n = n + 1;
    }
    assert(lines@ == joined(field_lines(f.take(1))) && n == field_lines(f.take(1)).len());
    proof {
        lemma_field_lines_step(f, 1);
        lemma_joined_push(field_lines(f.take(1)), field_line(f[1].0, f[1].1));
    }
    if add_line(&mut lines, n, "Team", team) {
        n = n + 1;
    }
    assert(lines@ == joined(field_lines(f.take(2))) && n == field_lines(f.take(2)).len());
    proof {
        lemma_field_lines_step(f, 2);
        lemma_joined_push(field_lines(f.take(2)), field_line(f[2].0, f[2].1));
    }
    if add_line(&mut lines, n, "City", city) {
        n = n + 1;
    }
    assert(lines@ == joined(field_lines(f.take(3))) && n == field_lines(f.take(3)).len());
    proof {
        lemma_field_lines_step(f, 3);
        lemma_joined_push(field_lines(f.take(3)), field_line(f[3].0, f[3].1));
    }
    if add_line(&mut lines, n, "Poster URL", poster) {
        n = n + 1;
    }
    assert(lines@ == joined(field_lines(f.take(4))) && n == field_lines(f.take(4)).len());
    proof {
        lemma_field_lines_step(f, 4);
        lemma_joined_push(field_lines(f.take(4)), field_line(f[4].0, f[4].1));
    }
    add_line(&mut lines, n, "Video URL", video);
    assert(f.take(5) =~= f);
    assert(lines@ == joined(field_lines(f)));
    let mut body = match film {
        None => String::from_str("## New film suggestion"),
        Some(_) => String::from_str("## Suggested correction"),
    };
    body.append("\n\n");
    body.append(lines.as_str());
    body.append("\n");
    Some((issue_title, body))
}

} // verus!
