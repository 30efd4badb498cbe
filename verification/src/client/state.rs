//! Pages and the reasons for showing no pair.
use vstd::prelude::*;

verus! {

/// A page of the app.
#[derive(PartialEq, Eq, Structural, Clone, Copy)]
pub enum Page {
    Select,
    Swipe,
    Board,
    More,
}

/// The page a location fragment names; "stats" is another name for the
/// "more" page.
pub open spec fn page_named(s: Seq<char>) -> Option<Page> {
    if s == "select"@ {
        Some(Page::Select)
    } else if s == "swipe"@ {
        Some(Page::Swipe)
    } else if s == "board"@ {
        Some(Page::Board)
    } else if s == "more"@ || s == "stats"@ {
        Some(Page::More)
    } else {
        None
    }
}

/// The name of a page.
pub open spec fn page_name(p: Page) -> Seq<char> {
    match p {
        Page::Select => "select"@,
        Page::Swipe => "swipe"@,
        Page::Board => "board"@,
        Page::More => "more"@,
    }
}

/// Whether two strings hold the same characters.
pub fn str_equals(a: &str, b: &str) -> (r: bool)
    ensures
        r == (a@ == b@),
{
    let x = crate::text::chars_of(a);
    let y = crate::text::chars_of(b);
    let n = x.len();
    if n != y.len() {
        return false;
    }
    for i in 0..n
        invariant
            n == x@.len(),
            n == y@.len(),
            x@ == a@,
            y@ == b@,
            forall|j: int| 0 <= j < i ==> x@[j] == y@[j],
    {
        if x[i] != y[i] {
            assert(x@[i as int] != y@[i as int]);
            return false;
        }
    }
    assert(x@ =~= y@);
    true
}

impl Page {
    /// The page a location fragment names.
    pub fn from_str(s: &str) -> (r: Option<Page>)
        ensures
            r == page_named(s@),
    {
        if str_equals(s, "select") {
            Some(Page::Select)
        } else if str_equals(s, "swipe") {
            Some(Page::Swipe)
        } else if str_equals(s, "board") {
            Some(Page::Board)
        } else if str_equals(s, "more") || str_equals(s, "stats") {
            Some(Page::More)
        } else {
            None
        }
    }

    /// The name of the page.
    pub fn as_str(&self) -> (s: &'static str)
        ensures
            s@ == page_name(*self),
    {
        match self {
            Page::Select => "select",
            Page::Swipe => "swipe",
            Page::Board => "board",
            Page::More => "more",
        }
    }
}

/// Reading a page's name gives back the page.
pub proof fn page_name_round_trip(p: Page)
    ensures
        page_named(page_name(p)) == Some(p),
{
    reveal_strlit("select");
    reveal_strlit("swipe");
    reveal_strlit("board");
    reveal_strlit("more");
    reveal_strlit("stats");
    match p {
        Page::Select => {},
        Page::Swipe => {
            assert("swipe"@ != "select"@) by {
                assert("swipe"@[1] != "select"@[1]);
            }
        },
        Page::Board => {
            assert("board"@ != "select"@) by {
                assert("board"@[0] != "select"@[0]);
            }
            assert("board"@ != "swipe"@) by {
                assert("board"@[0] != "swipe"@[0]);
            }
        },
        Page::More => {
            assert("more"@ != "select"@) by {
                assert("more"@.len() != "select"@.len());
            }
            assert("more"@ != "swipe"@) by {
                assert("more"@.len() != "swipe"@.len());
            }
            assert("more"@ != "board"@) by {
                assert("more"@.len() != "board"@.len());
            }
        },
    }
}

/// Why no pair is shown.
#[derive(PartialEq, Eq, Structural, Clone, Copy)]
pub enum PairDoneReason {
    /// Fewer than two films are selected.
    NotEnough,
    /// Every pair with the focus film is compared.
    FocusDone,
    /// Every pair is compared.
    AllDone,
}

/// Why no pair is shown, given how many films are selected and whether a
/// focus film is set.
pub fn pair_done_reason(selected: usize, focused: bool) -> (r: PairDoneReason)
    ensures
        r == (if selected < 2 {
            PairDoneReason::NotEnough
        } else if focused {
            PairDoneReason::FocusDone
        } else {
            PairDoneReason::AllDone
        }),
{
    if selected < 2 {
        PairDoneReason::NotEnough
    } else if focused {
        PairDoneReason::FocusDone
    } else {
        PairDoneReason::AllDone
    }
}

/// `s` without the `#` characters it starts with.
pub open spec fn drop_hashes(s: Seq<char>) -> Seq<char>
    decreases s.len(),
{
    if s.len() > 0 && s[0] == '#' {
        drop_hashes(s.drop_first())
    } else {
        s
    }
}

/// The location fragment without its leading `#` characters.
pub fn strip_hashes(hash: &str) -> (r: String)
    ensures
        r@ == drop_hashes(hash@),
{
    let v = crate::text::chars_of(hash);
    let n = v.len();
    let mut i: usize = 0;
    assert(v@.skip(0) =~= v@);
    while i < n && v[i] == '#'
        invariant
            n == v@.len(),
            i <= n,
            drop_hashes(hash@) == drop_hashes(v@.skip(i as int)),
        decreases n - i,
    {
        assert(v@.skip(i as int).drop_first() =~= v@.skip(i as int + 1));
        i = i + 1;
    }
    let rest = crate::text::slice_suffix(&v, i);
    crate::text::string_of(&rest)
}

/// The page to open first: the one the location fragment names once its
/// leading `#` characters are dropped, else the selection page when nothing
/// is selected, else the comparison page.
pub fn initial_page(hash: &str, selected: usize) -> (p: Page)
    ensures
        p == (match page_named(drop_hashes(hash@)) {
            Some(q) => q,
            None => if selected == 0 {
                Page::Select
            } else {
                Page::Swipe
            },
        }),
{
    let name = strip_hashes(hash);
    match Page::from_str(name.as_str()) {
        Some(q) => q,
        None => if selected == 0 {
            Page::Select
        } else {
            Page::Swipe
        },
    }
}

/// The heading, message and button label shown when no pair is left, for
/// `reason`, with `votes` the number of votes the user cast.
pub open spec fn done_text_spec(reason: PairDoneReason, votes: nat) -> (Seq<char>, Seq<char>, Seq<char>) {
    match reason {
        PairDoneReason::NotEnough => (
            "Select films first"@,
            "Go back and pick at least 2 films you've watched."@,
            "Select Films"@,
        ),
        PairDoneReason::FocusDone => (
            "All done!"@,
            "You've compared this film against all others."@,
            "Compare All"@,
        ),
        PairDoneReason::AllDone => (
            "All done!"@,
            "You've compared all possible pairs. ("@ + crate::text::decimal(votes) + " votes cast)"@,
            "View Leaderboard"@,
        ),
    }
}

/// The heading, message and button label shown when no pair is left.
pub fn done_text(reason: PairDoneReason, votes: usize) -> (r: (String, String, String))
    ensures
        (r.0@, r.1@, r.2@) == done_text_spec(reason, votes as nat),
{
    match reason {
        PairDoneReason::NotEnough => (
            String::from_str("Select films first"),
            String::from_str("Go back and pick at least 2 films you've watched."),
            String::from_str("Select Films"),
        ),
        PairDoneReason::FocusDone => (
            String::from_str("All done!"),
            String::from_str("You've compared this film against all others."),
            String::from_str("Compare All"),
        ),
        PairDoneReason::AllDone => {
            let mut m = String::from_str("You've compared all possible pairs. (");
            crate::text::push_decimal(&mut m, votes as u64);
            m.append(" votes cast)");
            (String::from_str("All done!"), m, String::from_str("View Leaderboard"))
        },
    }
}

/// The line under a film's title: its team, then a middle dot and its city
/// when it has one.
pub open spec fn film_meta_spec(team: Seq<char>, city: Seq<char>) -> Seq<char> {
    if city.len() == 0 {
        team
    } else {
        team + " \u{00B7} "@ + city
    }
}

/// The line under a film's title.
pub fn film_meta(team: &str, city: &str) -> (r: String)
    ensures
        r@ == film_meta_spec(team@, city@),
{
    let mut r = String::from_str(team);
    if city.unicode_len() > 0 {
        r.append(" \u{00B7} ");
        r.append(city);
    }
    r
}

} // verus!
