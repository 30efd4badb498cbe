//! The comparison page's gestures as a state machine: what each pick, skip,
//! undo, pointer or key event does, given whether a pair is shown and
//! whether a card animation is running. The page performs the actions (card
//! styles, timers, requests) and reports each event back.
use vstd::prelude::*;

verus! {

/// What a card animation leads to once it ends.
#[derive(PartialEq, Eq, Structural, Clone, Copy)]
pub enum Pending {
    /// Send the vote.
    Vote { winner: usize, loser: usize },
    /// Ask for the next pair.
    LoadPair,
    /// Take back the last vote.
    UndoVote,
}

/// The gesture state of the comparison page.
#[derive(PartialEq, Eq, Structural, Clone, Copy)]
pub struct SwipeState {
    /// The animation running, and what follows it.
    pub animating: Option<Pending>,
    /// A pointer is held down on the cards.
    pub dragging: bool,
    /// Where the pointer went down.
    pub start_x: i32,
    /// How far the pointer has moved since.
    pub dx: i64,
    /// The pointer moved more than a few pixels: the press is a drag, not a
    /// click.
    pub did_drag: bool,
}

/// What happened on the page.
#[derive(PartialEq, Eq, Structural, Clone, Copy)]
pub enum SwipeEvent {
    /// A pick button: the right film (`right`) or the left one won.
    Pick { right: bool },
    /// An arrow key: right or left.
    Key { right: bool },
    /// The skip button.
    Skip,
    /// The undo button; `history_empty` tells whether a vote can be undone.
    Undo { history_empty: bool },
    /// A pointer went down at `x`, inside the cards' area or not, on a
    /// deselect button or not.
    PointerDown { x: i32, in_arena: bool, on_deselect: bool },
    /// The pointer moved to `x`.
    PointerMove { x: i32 },
    /// The pointer went up.
    PointerUp,
    /// The card animation ended.
    AnimationDone,
}

/// What the page is to do.
#[derive(PartialEq, Eq, Structural, Clone, Copy)]
pub enum SwipeAction {
    Nothing,
    /// Fly the winning card out to the right (`right`) or left and drop the
    /// other, for 350 ms.
    FlyOut { right: bool },
    /// Drop both cards, for 300 ms.
    SkipOut,
    /// Shrink both cards, for 200 ms.
    UndoOut,
    /// Stop the cards' transitions: a drag begins.
    StartDrag,
    /// Move the cards with the pointer, `dx` pixels from where it went down.
    DragTo { dx: i64 },
    /// Let the cards return to their places.
    SnapBack,
    /// Send the vote.
    CastVote { winner: usize, loser: usize },
    /// Ask for the next pair.
    LoadPair,
    /// Take back the last vote.
    UndoVote,
}

/// How far a drag must go, in pixels, to count as a pick.
pub const PICK_DISTANCE: i64 = 80;

/// How far a press must move, in pixels, to count as a drag.
pub const DRAG_DISTANCE: i64 = 5;

/// A pick of the right film (`right`) or the left one: nothing without a
/// pair or while an animation runs or when no card is shown; otherwise the
/// cards fly out and the vote (picked film over the other) follows.
pub open spec fn pick_spec(st: SwipeState, right: bool, pair: Option<(usize, usize)>, cards: bool) -> (
    SwipeState,
    SwipeAction,
) {
    match pair {
        None => (st, SwipeAction::Nothing),
        Some((a, b)) => if st.animating is Some || !cards {
            (st, SwipeAction::Nothing)
        } else {
            let (w, l) = if right { (b, a) } else { (a, b) };
            (SwipeState { animating: Some(Pending::Vote { winner: w, loser: l }), ..st }, SwipeAction::FlyOut { right })
        },
    }
}

/// The next state and the action for an event. `pair` is the pair shown,
/// `cards` whether its cards are on the page, `on_page` whether the
/// comparison page is the one shown.
pub open spec fn swipe_spec(
    st: SwipeState,
    ev: SwipeEvent,
    pair: Option<(usize, usize)>,
    cards: bool,
    on_page: bool,
) -> (SwipeState, SwipeAction) {
    match ev {
        SwipeEvent::Pick { right } => pick_spec(st, right, pair, cards),
        SwipeEvent::Key { right } => if on_page {
            pick_spec(st, right, pair, cards)
        } else {
            (st, SwipeAction::Nothing)
        },
        SwipeEvent::Skip => if st.animating is Some {
            (st, SwipeAction::Nothing)
        } else {
            (SwipeState { animating: Some(Pending::LoadPair), ..st }, SwipeAction::SkipOut)
        },
        SwipeEvent::Undo { history_empty } => if history_empty || st.animating is Some {
            (st, SwipeAction::Nothing)
        } else {
            (SwipeState { animating: Some(Pending::UndoVote), ..st }, SwipeAction::UndoOut)
        },
        SwipeEvent::PointerDown { x, in_arena, on_deselect } => if st.animating is Some || !on_page
            || !in_arena || on_deselect {
            (st, SwipeAction::Nothing)
        } else {
            (
                SwipeState { dragging: true, start_x: x, dx: 0, did_drag: false, ..st },
                SwipeAction::StartDrag,
            )
        },
        SwipeEvent::PointerMove { x } => if !st.dragging {
            (st, SwipeAction::Nothing)
        } else {
            let d = x - st.start_x;
            (
                SwipeState {
                    dx: d as i64,
                    did_drag: st.did_drag || d > DRAG_DISTANCE || d < -DRAG_DISTANCE,
                    ..st
                },
                SwipeAction::DragTo { dx: d as i64 },
            )
        },
        SwipeEvent::PointerUp => if !st.dragging {
            (st, SwipeAction::Nothing)
        } else {
            let up = SwipeState { dragging: false, ..st };
            if st.dx > PICK_DISTANCE || st.dx < -PICK_DISTANCE {
                pick_spec(up, st.dx > 0, pair, cards)
            } else {
                (up, SwipeAction::SnapBack)
            }
        },
        SwipeEvent::AnimationDone => match st.animating {
            None => (st, SwipeAction::Nothing),
            Some(p) => (
                SwipeState { animating: None, ..st },
                match p {
                    Pending::Vote { winner, loser } => SwipeAction::CastVote { winner, loser },
                    Pending::LoadPair => SwipeAction::LoadPair,
                    Pending::UndoVote => SwipeAction::UndoVote,
                },
            ),
        },
    }
}

fn pick(st: SwipeState, right: bool, pair: Option<(usize, usize)>, cards: bool) -> (r: (SwipeState, SwipeAction))
    ensures
        r == pick_spec(st, right, pair, cards),
{
    match pair {
        None => (st, SwipeAction::Nothing),
        Some((a, b)) => if st.animating.is_some() || !cards {
            (st, SwipeAction::Nothing)
        } else {
            let (w, l) = if right { (b, a) } else { (a, b) };
            (SwipeState { animating: Some(Pending::Vote { winner: w, loser: l }), ..st }, SwipeAction::FlyOut { right })
        },
    }
}

/// The next gesture state and what the page is to do, for one event.
pub fn swipe_step(
    st: SwipeState,
    ev: SwipeEvent,
    pair: Option<(usize, usize)>,
    cards: bool,
    on_page: bool,
) -> (r: (SwipeState, SwipeAction))
    ensures
        r == swipe_spec(st, ev, pair, cards, on_page),
{
    match ev {
        SwipeEvent::Pick { right } => pick(st, right, pair, cards),
        SwipeEvent::Key { right } => if on_page {
            pick(st, right, pair, cards)
        } else {
            (st, SwipeAction::Nothing)
        },
        SwipeEvent::Skip => if st.animating.is_some() {
            (st, SwipeAction::Nothing)
        } else {
            (SwipeState { animating: Some(Pending::LoadPair), ..st }, SwipeAction::SkipOut)
        },
        SwipeEvent::Undo { history_empty } => if history_empty || st.animating.is_some() {
            (st, SwipeAction::Nothing)
        } else {
            (SwipeState { animating: Some(Pending::UndoVote), ..st }, SwipeAction::UndoOut)
        },
        SwipeEvent::PointerDown { x, in_arena, on_deselect } => if st.animating.is_some() || !on_page
            || !in_arena || on_deselect {
            (st, SwipeAction::Nothing)
        } else {
            (
                SwipeState { dragging: true, start_x: x, dx: 0, did_drag: false, ..st },
                SwipeAction::StartDrag,
            )
        },
        SwipeEvent::PointerMove { x } => if !st.dragging {
            (st, SwipeAction::Nothing)
        } else {
            let d: i64 = x as i64 - st.start_x as i64;
            (
                SwipeState {
                    dx: d,
                    did_drag: st.did_drag || d > DRAG_DISTANCE || d < -DRAG_DISTANCE,
                    ..st
                },
                SwipeAction::DragTo { dx: d },
            )
        },
        SwipeEvent::PointerUp => if !st.dragging {
            (st, SwipeAction::Nothing)
        } else {
            let up = SwipeState { dragging: false, ..st };
            if st.dx > PICK_DISTANCE || st.dx < -PICK_DISTANCE {
                pick(up, st.dx > 0, pair, cards)
            } else {
                (up, SwipeAction::SnapBack)
            }
        },
        SwipeEvent::AnimationDone => match st.animating {
            None => (st, SwipeAction::Nothing),
            Some(p) => (
                SwipeState { animating: None, ..st },
                match p {
                    Pending::Vote { winner, loser } => SwipeAction::CastVote { winner, loser },
                    Pending::LoadPair => SwipeAction::LoadPair,
                    Pending::UndoVote => SwipeAction::UndoVote,
                },
            ),
        },
    }
}

/// A pick while no animation runs, with a pair and its cards shown, flies
/// the cards out; when that animation ends, the vote for the picked film
/// over the other is sent.
pub proof fn pick_then_vote(st: SwipeState, right: bool, a: usize, b: usize, on_page: bool)
    requires
        st.animating is None,
    ensures
        ({
            let (s1, act1) = swipe_spec(st, SwipeEvent::Pick { right }, Some((a, b)), true, on_page);
            let (s2, act2) = swipe_spec(s1, SwipeEvent::AnimationDone, Some((a, b)), true, on_page);
            &&& act1 == SwipeAction::FlyOut { right }
            &&& act2 == (if right {
                SwipeAction::CastVote { winner: b, loser: a }
            } else {
                SwipeAction::CastVote { winner: a, loser: b }
            })
            &&& s2.animating is None
        }),
{
}

/// While an animation runs, picks, arrow keys, skips, undos and new presses
/// do nothing and leave the state as it is.
pub proof fn animation_blocks_actions(
    st: SwipeState,
    ev: SwipeEvent,
    pair: Option<(usize, usize)>,
    cards: bool,
    on_page: bool,
)
    requires
        st.animating is Some,
        ev is Pick || ev is Key || ev is Skip || ev is Undo || ev is PointerDown,
    ensures
        swipe_spec(st, ev, pair, cards, on_page) == (st, SwipeAction::Nothing),
{
}

/// Letting go after a drag of more than `PICK_DISTANCE` pixels is a pick of
/// the film on the side the drag went to.
pub proof fn long_drag_is_a_pick(st: SwipeState, pair: Option<(usize, usize)>, cards: bool, on_page: bool)
    requires
        st.dragging,
        st.dx > PICK_DISTANCE || st.dx < -PICK_DISTANCE,
    ensures
        swipe_spec(st, SwipeEvent::PointerUp, pair, cards, on_page) == pick_spec(
            SwipeState { dragging: false, ..st },
            st.dx > 0,
            pair,
            cards,
        ),
{
}

} // verus!
