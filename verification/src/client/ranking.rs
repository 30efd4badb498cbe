//! Ordering films by the leaderboard and spotting films that overtook others
//! between two boards.
use vstd::prelude::*;

verus! {

/// The position of the last entry for `id` on a board, if there is one.
pub open spec fn last_index(board: Seq<usize>, id: usize) -> Option<int>
    decreases board.len(),
{
    if board.len() == 0 {
        None
    } else if board.last() == id {
        Some(board.len() - 1)
    } else {
        last_index(board.drop_last(), id)
    }
}

/// What `last_index` finds is an entry for `id`, and no later one is.
pub proof fn lemma_last_index(board: Seq<usize>, id: usize)
    ensures
        match last_index(board, id) {
            Some(i) => 0 <= i < board.len() && board[i] == id && forall|j: int|
                i < j < board.len() ==> board[j] != id,
            None => forall|j: int| 0 <= j < board.len() ==> board[j] != id,
        },
    decreases board.len(),
{
    if board.len() > 0 {
        lemma_last_index(board.drop_last(), id);
        assert forall|j: int| 0 <= j < board.len() - 1 implies board.drop_last()[j] == board[j] by {}
    }
}

/// The last position of `id` on `board`.
pub fn find_last(board: &Vec<usize>, id: usize) -> (r: Option<usize>)
    ensures
        match last_index(board@, id) {
            Some(i) => r == Some(i as usize),
            None => r is None,
        },
{
    let n = board.len();
    let mut found: Option<usize> = None;
    for k in 0..n
        invariant
            n == board@.len(),
            match last_index(board@.take(k as int), id) {
                Some(i) => found == Some(i as usize),
                None => found is None,
            },
    {
        assert(board@.take(k as int + 1).drop_last() =~= board@.take(k as int));
        if board[k] == id {
            found = Some(k);
        }
    }
    assert(board@.take(n as int) =~= board@);
    found
}

/// The sort key of film `id`: its last position on the board, or the
/// largest `usize` for a film the board does not hold.
pub open spec fn board_rank(board: Seq<usize>, id: usize) -> int {
    match last_index(board, id) {
        Some(i) => i,
        None => usize::MAX as int,
    }
}

/// Entry `a` of `ids` comes before entry `b` when the board ranks it higher,
/// or ranks both alike and `a` stands first.
pub open spec fn ranked_before(board: Seq<usize>, ids: Seq<usize>, a: int, b: int) -> bool {
    let ka = board_rank(board, ids[a]);
    let kb = board_rank(board, ids[b]);
    ka < kb || (ka == kb && a < b)
}

/// The order in which to show the films `ids`: positions into `ids`, sorted
/// by their board rank, ties kept in their first order (a stable sort).
pub fn board_order(ids: &Vec<usize>, board: &Vec<usize>) -> (order: Vec<usize>)
    ensures
        order@.len() == ids@.len(),
        forall|p: int| 0 <= p < order@.len() ==> order@[p] < ids@.len(),
        forall|k: usize| k < ids@.len() ==> #[trigger] order@.contains(k),
        forall|p: int, q: int|
            0 <= p < q < order@.len() ==> ranked_before(board@, ids@, order@[p] as int, order@[q] as int),
{
    let n = ids.len();
    let bl = board.len();
    let mut keys: Vec<usize> = Vec::new();
    for k in 0..n
        invariant
            n == ids@.len(),
            bl == board@.len(),
            keys@.len() == k,
            forall|j: int| 0 <= j < k ==> keys@[j] as int == board_rank(board@, ids@[j]),
    {
        proof {
            lemma_last_index(board@, ids@[k as int]);
        }
        let r = find_last(board, ids[k]);
        let key: usize = match r {
            Some(i) => i,
            None => usize::MAX,
        };
        keys.push(key);
    }
    let mut order: Vec<usize> = Vec::new();
    for i in 0..n
        invariant
            n == ids@.len(),
            keys@.len() == n,
            forall|j: int| 0 <= j < n ==> keys@[j] as int == board_rank(board@, ids@[j]),
            order@.len() == i,
            forall|p: int| 0 <= p < order@.len() ==> order@[p] < i,
            forall|k: usize| k < i ==> #[trigger] order@.contains(k),
            forall|p: int, q: int|
                0 <= p < q < order@.len() ==> ranked_before(board@, ids@, order@[p] as int, order@[q] as int),
    {
        let mut j: usize = 0;
        while j < order.len() && (keys[order[j]] < keys[i] || (keys[order[j]] == keys[i]
            && order[j] < i))
            invariant
                n == ids@.len(),
                i < n,
                keys@.len() == n,
                forall|t: int| 0 <= t < n ==> keys@[t] as int == board_rank(board@, ids@[t]),
                order@.len() == i,
                forall|p: int| 0 <= p < order@.len() ==> order@[p] < i,
                j <= order@.len(),
                forall|p: int| 0 <= p < j ==> ranked_before(board@, ids@, order@[p] as int, i as int),
            decreases order@.len() - j,
        {
            j = j + 1;
        }
        proof {
            assert forall|q: int| j <= q < order@.len() implies ranked_before(
                board@,
                ids@,
                i as int,
                order@[q] as int,
            ) by {
                if q > j {
                    assert(ranked_before(board@, ids@, order@[j as int] as int, order@[q] as int));
                }
                assert(!ranked_before(board@, ids@, order@[q] as int, i as int));
            }
        }
        let ghost old_order = order@;
        order.insert(j, i);
        proof {
            assert(order@ == old_order.insert(j as int, i));
            assert forall|k: usize| k < i + 1 implies #[trigger] order@.contains(k) by {
                if k == i {
                    assert(order@[j as int] == i);
                } else {
                    assert(old_order.contains(k));
                    let p = choose|p: int| 0 <= p < old_order.len() && old_order[p] == k;
                    if p < j {
                        assert(order@[p] == k);
                    } else {
                        assert(order@[p + 1] == k);
                    }
                }
            }
        }
    }
    order
}

/// One step of overtake detection at board position `i`: the film there
/// overtook the film that held position `i` on the previous board, when it
/// stood lower before and neither film was reported yet. The state is the
/// positions found so far and the films reported so far.
pub open spec fn overtake_step(prev: Seq<usize>, board: Seq<usize>, i: int, st: (Seq<usize>, Seq<usize>)) -> (Seq<usize>, Seq<usize>) {
    let film = board[i];
    match last_index(prev, film) {
        None => st,
        Some(old) => if old <= i || st.1.contains(film) {
            st
        } else if !st.1.contains(prev[i]) {
            (st.0.push(i as usize), st.1.push(film).push(prev[i]))
        } else {
            st
        },
    }
}

/// The overtakes found in the first `n` positions of the new board, with the
/// films already reported.
pub open spec fn overtakes_upto(prev: Seq<usize>, board: Seq<usize>, n: nat) -> (Seq<usize>, Seq<usize>)
    decreases n,
{
    if n == 0 {
        (Seq::empty(), Seq::empty())
    } else {
        overtake_step(prev, board, n - 1, overtakes_upto(prev, board, (n - 1) as nat))
    }
}

/// The board positions at which a film overtook the film that held that
/// position on the previous board, each film reported at most once.
pub fn overtakes(prev: &Vec<usize>, board: &Vec<usize>) -> (r: Vec<usize>)
    ensures
        r@ == overtakes_upto(prev@, board@, board@.len() as nat).0,
{
    let n = board.len();
    let pl = prev.len();
    let mut found: Vec<usize> = Vec::new();
    let mut notified: Vec<usize> = Vec::new();
    for i in 0..n
        invariant
            n == board@.len(),
            pl == prev@.len(),
            found@ == overtakes_upto(prev@, board@, i as nat).0,
            notified@ == overtakes_upto(prev@, board@, i as nat).1,
    {
        let film = board[i];
        proof {
            lemma_last_index(prev@, film);
        }
        match find_last(prev, film) {
            None => {},
            Some(old) => {
                if old > i && !crate::handlers::contains_id(&notified, film) {
                    let displaced = prev[i];
                    if !crate::handlers::contains_id(&notified, displaced) {
                        notified.push(film);
                        notified.push(displaced);
                        found.push(i);
                    }
                }
            },
        }
    }
    found
}

/// Every overtake reported is of a film that now stands at the reported
/// position and stood lower on the previous board; positions are reported
/// in increasing order.
pub proof fn overtakes_moved_up(prev: Seq<usize>, board: Seq<usize>, n: nat)
    requires
        n <= board.len() <= usize::MAX,
    ensures
        forall|p: int| 0 <= p < overtakes_upto(prev, board, n).0.len() ==> {
            let i = #[trigger] overtakes_upto(prev, board, n).0[p] as int;
            &&& 0 <= i < n
            &&& i < prev.len()
            &&& last_index(prev, board[i]) matches Some(old) && old > i
        },
        forall|p: int, q: int| 0 <= p < q < overtakes_upto(prev, board, n).0.len() ==>
            overtakes_upto(prev, board, n).0[p] < overtakes_upto(prev, board, n).0[q],
    decreases n,
{
    if n > 0 {
        overtakes_moved_up(prev, board, (n - 1) as nat);
        let st = overtakes_upto(prev, board, (n - 1) as nat);
        let i = n - 1;
        let film = board[i];
        lemma_last_index(prev, film);
        assert(overtakes_upto(prev, board, n) == overtake_step(prev, board, i as int, st));
        let r = overtakes_upto(prev, board, n).0;
        assert(r.len() == st.0.len() || r == st.0.push(i as usize));
        assert forall|p: int| 0 <= p < r.len() implies {
            let x = #[trigger] r[p] as int;
            &&& 0 <= x < n
            &&& x < prev.len()
            &&& last_index(prev, board[x]) matches Some(old) && old > x
        } by {
            if p < st.0.len() {
                assert(r[p] == st.0[p]);
            } else {
                assert(r[p] == i as usize);
            }
        }
        assert forall|p: int, q: int| 0 <= p < q < r.len() implies r[p] < r[q] by {
            if q < st.0.len() {
                assert(r[p] == st.0[p] && r[q] == st.0[q]);
            } else {
                assert(r[p] == st.0[p]);
            }
        }
    }
}

/// The toast line for a film that overtook another and now stands at
/// `position` (counted from one): both titles escaped for HTML.
pub open spec fn overtake_toast_spec(title: Seq<char>, displaced: Seq<char>, position: nat) -> Seq<char> {
    "\u{2B06}\u{FE0F} <strong>"@ + crate::client::markup::html_escape_spec(title) + "</strong> overtook <strong>"@
        + crate::client::markup::html_escape_spec(displaced) + "</strong> \u{2192} #"@ + crate::text::decimal(
        position,
    )
}

/// The toast line for a film that overtook another.
pub fn overtake_toast(title: &str, displaced: &str, position: usize) -> (r: String)
    ensures
        r@ == overtake_toast_spec(title@, displaced@, position as nat),
{
    let mut r = String::from_str("\u{2B06}\u{FE0F} <strong>");
    let t = crate::client::markup::html_escape(title);
    r.append(t.as_str());
    r.append("</strong> overtook <strong>");
    let d = crate::client::markup::html_escape(displaced);
    r.append(d.as_str());
    r.append("</strong> \u{2192} #");
    crate::text::push_decimal(&mut r, position as u64);
    assert(r@ =~= overtake_toast_spec(title@, displaced@, position as nat));
    r
}

} // verus!
