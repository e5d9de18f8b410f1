//! The decisions of iterative deepening under a deadline.
//!
//! A worker searches depth after depth and publishes the best move of each
//! depth it completes. A controller keeps the last move published and, at
//! the deadline, cancels the worker and emits that move. The threads, the
//! channel and the clock belong to the caller; what to do on each event is
//! decided here.

use vstd::prelude::*;
use crate::moves::{Move, MoveError};
use crate::position::Position;
use crate::score::Score;
use crate::search::{
    minimax, searched, result_view, looks_fit, CancelToken, MoveChain, SearchContext,
};

verus! {

/// What the worker does after the search of one depth has returned.
#[derive(Clone, Copy, PartialEq, Eq, Structural, Debug)]
pub enum WorkerStep {
    /// The search was cancelled: the worker ends and publishes nothing.
    Cancelled,
    /// No deeper search can be asked for: the worker ends and publishes
    /// nothing.
    Exhausted,
    /// The depth is complete: its best move, where it has one, is published
    /// and the next depth searched.
    Deepen { publish: Option<Move>, next_depth: i32 },
}

/// What follows the search of `depth`.
pub open spec fn worker_next(depth: i32, cancelled: bool, best: Option<Move>) -> WorkerStep {
    if cancelled {
        WorkerStep::Cancelled
    } else if depth == i32::MAX {
        WorkerStep::Exhausted
    } else {
        WorkerStep::Deepen { publish: best, next_depth: (depth + 1) as i32 }
    }
}

/// Decides what follows the search of `depth`. `cancelled` says whether the
/// cancel flag is set now that the search has returned; `best` is the first
/// move of the line it found. A result that came back under a set flag is
/// never published: it may be the value that stands for a cancelled search.
pub fn worker_step(depth: i32, cancelled: bool, best: Option<Move>) -> (step: WorkerStep)
    ensures
        step == worker_next(depth, cancelled, best),
        cancelled ==> !(step is Deepen),
{
    if cancelled {
        WorkerStep::Cancelled
    } else if depth == i32::MAX {
        WorkerStep::Exhausted
    } else {
        WorkerStep::Deepen { publish: best, next_depth: depth + 1 }
    }
}

/// What the search of one depth has come to.
pub struct DepthReport {
    /// What the worker does next.
    pub step: WorkerStep,
    /// The score of the depth, good for the side to move.
    pub score: Score,
    /// The principal line of the depth.
    pub chain: Option<MoveChain>,
    /// The nodes that the search has visited.
    pub nodes: u32,
}

/// The first move of a chain that may be absent.
pub open spec fn first_move(chain: Option<MoveChain>) -> Option<Move> {
    match chain {
        Some(c) => Some(c.current),
        None => None,
    }
}

/// The clear looks with which the model of one depth is run, given what the
/// token saw while the depth was searched: none where the flag was seen set
/// before; all the clear looks made where it was seen set during the depth
/// or the depth ended in an error; and all but the last, which follows the
/// search, where it was never seen set.
pub open spec fn depth_looks(was_seen: bool, is_seen: bool, made: int, failed: bool) -> nat {
    if was_seen {
        0
    } else if is_seen || failed {
        made as nat
    } else {
        (made - 1) as nat
    }
}

/// Searches one depth from the root with the full window: the node count is
/// reset, the position searched, the flag looked at once more, and the next
/// step decided. A depth that returns under a set flag is reported as
/// cancelled whatever it holds. Result, position and node count are those of
/// the model of the search for the looks as they went.
pub fn search_depth(
    ctx: &mut SearchContext,
    pos: &mut Position,
    depth: i32,
    cancel: &mut CancelToken,
) -> (report: Result<DepthReport, MoveError>)
    ensures
        old(cancel).observed() ==> final(cancel).observed(),
        final(cancel).cleared() >= old(cancel).cleared(),
        report matches Ok(found) ==> {
            &&& found.step == worker_next(
                depth,
                final(cancel).observed(),
                first_move(found.chain),
            )
            &&& found.nodes == final(ctx).counted()
            &&& found.score.wf()
        },
        ({
            let whole = searched(
                *old(pos),
                depth as int,
                true,
                Score::NegInfinity,
                Score::Infinity,
                0,
                depth_looks(
                    old(cancel).observed(),
                    final(cancel).observed(),
                    final(cancel).cleared() - old(cancel).cleared(),
                    report is Err,
                ),
            );
            &&& *final(pos) == whole.pos
            &&& final(ctx).counted() == whole.counted
            &&& match report {
                Ok(found) => result_view(
                    Ok::<(Score, Option<MoveChain>), MoveError>((found.score, found.chain)),
                ) == whole.result,
                Err(error) => whole.result == Err::<(Score, Option<Seq<Move>>), MoveError>(error),
            }
        }),
{
    let ghost was_seen = cancel.observed();
    let ghost was_cleared = cancel.cleared();
    ctx.reset();
    let searched_to = minimax(
        ctx,
        pos,
        depth,
        true,
        cancel,
        Score::NegInfinity,
        Score::Infinity,
    );
    let ghost then_seen = cancel.observed();
    let ghost made = cancel.cleared() - was_cleared;
    let (score, chain) = match searched_to {
        Ok(found) => found,
        Err(error) => {
            proof {
                assert(looks_fit(was_seen, then_seen, made, depth_looks(was_seen, then_seen, made, true)));
            }
            return Err(error);
        },
    };
    let cancelled = cancel.poll();
    proof {
        let clear = depth_looks(was_seen, cancelled, cancel.cleared() - was_cleared, false);
        assert(looks_fit(was_seen, then_seen, made, clear));
    }
    let best = match &chain {
        Some(c) => Some(c.current),
        None => None,
    };
    let step = worker_step(depth, cancelled, best);
    let nodes = ctx.nodes();
    Ok(DepthReport { step, score, chain, nodes })
}

/// Where the controller stands.
#[derive(Clone, Copy, PartialEq, Eq, Structural, Debug)]
pub enum ControllerState {
    /// Before the deadline, with the last move the worker has published.
    Waiting { best: Option<Move> },
    /// Past the deadline with no move published yet.
    Overtime,
    /// The answer was given.
    Done,
}

/// What the controller is told.
#[derive(Clone, Copy, PartialEq, Eq, Structural, Debug)]
pub enum ControllerEvent {
    /// The worker has published the best move of one more depth.
    Received(Move),
    /// The deadline has passed.
    DeadlinePassed,
    /// The worker has gone and will publish nothing more.
    Disconnected,
}

/// What the controller does next.
#[derive(Clone, Copy, PartialEq, Eq, Structural, Debug)]
pub enum ControllerAction {
    /// Wait for the next move, no longer than until the deadline.
    Wait,
    /// Wait for the first move, however long it takes.
    WaitUnbounded,
    /// Set the cancel flag and emit the move.
    CancelAndEmit(Move),
    /// Emit the move.
    Emit(Move),
    /// There is no move to emit.
    EmitNothing,
    /// Nothing is left to do.
    Nothing,
}

/// The state and the action that follow an event.
pub open spec fn controller_next(state: ControllerState, event: ControllerEvent) -> (
    ControllerState,
    ControllerAction,
) {
    match (state, event) {
        (ControllerState::Waiting { best }, ControllerEvent::Received(mv)) => (
            ControllerState::Waiting { best: Some(mv) },
            ControllerAction::Wait,
        ),
        (ControllerState::Waiting { best: Some(mv) }, ControllerEvent::DeadlinePassed) => (
            ControllerState::Done,
            ControllerAction::CancelAndEmit(mv),
        ),
        (ControllerState::Waiting { best: None }, ControllerEvent::DeadlinePassed) => (
            ControllerState::Overtime,
            ControllerAction::WaitUnbounded,
        ),
        (ControllerState::Waiting { best }, ControllerEvent::Disconnected) => (
            ControllerState::Waiting { best },
            ControllerAction::Wait,
        ),
        (ControllerState::Overtime, ControllerEvent::Received(mv)) => (
            ControllerState::Done,
            ControllerAction::Emit(mv),
        ),
        (ControllerState::Overtime, ControllerEvent::DeadlinePassed) => (
            ControllerState::Overtime,
            ControllerAction::WaitUnbounded,
        ),
        (ControllerState::Overtime, ControllerEvent::Disconnected) => (
            ControllerState::Done,
            ControllerAction::EmitNothing,
        ),
        (ControllerState::Done, _) => (ControllerState::Done, ControllerAction::Nothing),
    }
}

/// The controller before any event.
pub fn controller_start() -> (state: ControllerState)
    ensures
        state == (ControllerState::Waiting { best: None }),
{
    ControllerState::Waiting { best: None }
}

/// Takes one event and says what to do. Every move received before the
/// deadline replaces the one kept; at the deadline the move kept is emitted
/// and the worker cancelled; with none kept the controller waits for the
/// first, so that a move is emitted as soon as one depth is complete.
pub fn controller_step(state: ControllerState, event: ControllerEvent) -> (next: (
    ControllerState,
    ControllerAction,
))
    ensures
        next == controller_next(state, event),
{
    match state {
        ControllerState::Waiting { best } => match event {
            ControllerEvent::Received(mv) => (
                ControllerState::Waiting { best: Some(mv) },
                ControllerAction::Wait,
            ),
            ControllerEvent::DeadlinePassed => match best {
                Some(mv) => (ControllerState::Done, ControllerAction::CancelAndEmit(mv)),
                None => (ControllerState::Overtime, ControllerAction::WaitUnbounded),
            },
            ControllerEvent::Disconnected => (
                ControllerState::Waiting { best },
                ControllerAction::Wait,
            ),
        },
        ControllerState::Overtime => match event {
            ControllerEvent::Received(mv) => (ControllerState::Done, ControllerAction::Emit(mv)),
            ControllerEvent::DeadlinePassed => (
                ControllerState::Overtime,
                ControllerAction::WaitUnbounded,
            ),
            ControllerEvent::Disconnected => (ControllerState::Done, ControllerAction::EmitNothing),
        },
        ControllerState::Done => (ControllerState::Done, ControllerAction::Nothing),
    }
}

/// The controller emits only moves that the worker has published: the move
/// of an emitting action is the one just received or the one kept.
pub proof fn lemma_emits_published(state: ControllerState, event: ControllerEvent)
    ensures
        match controller_next(state, event).1 {
            ControllerAction::CancelAndEmit(mv) => state == (ControllerState::Waiting {
                best: Some(mv),
            }),
            ControllerAction::Emit(mv) => event == ControllerEvent::Received(mv),
            _ => true,
        },
{
}

} // verus!
