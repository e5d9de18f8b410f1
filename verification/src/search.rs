//! Negamax search with alpha-beta pruning, cancellable between moves.

use vstd::prelude::*;
use core::sync::atomic::AtomicBool;
use crate::position::Position;
use crate::moves::{
    Move, MoveError, generate_moves, generate_legal_moves, candidate_moves, legal_outcome,
};
use crate::score::{Score, evaluate, static_score};

verus! {

/// A move and the line that follows it.
#[derive(Debug)]
pub struct MoveChain {
    pub current: Move,
    pub next: Option<Box<MoveChain>>,
}

impl MoveChain {
    /// The moves of the chain, first move first.
    pub open spec fn view(&self) -> Seq<Move>
        decreases self,
    {
        match self.next {
            Some(rest) => seq![self.current] + rest.view(),
            None => seq![self.current],
        }
    }

    /// Puts a move in front of a line.
    pub fn new(current: Move, next: Option<MoveChain>) -> (chain: MoveChain)
        ensures
            chain.current == current,
            chain@ == seq![current] + line_of(next),
    {
        let chain = MoveChain {
            current,
            next: match next {
                Some(c) => Some(Box::new(c)),
                None => None,
            },
        };
        assert(chain@ =~= seq![current] + line_of(next));
        chain
    }
}

/// The moves of a chain that may be absent.
pub open spec fn line_of(chain: Option<MoveChain>) -> Seq<Move> {
    match chain {
        Some(c) => c@,
        None => Seq::empty(),
    }
}

/// The moves of a line that may be absent.
pub open spec fn moves_of(line: Option<Seq<Move>>) -> Seq<Move> {
    match line {
        Some(moves) => moves,
        None => Seq::empty(),
    }
}

/// A node counter and a pool of move buffers, kept from search to search so
/// that no node has to allocate.
pub struct SearchContext {
    move_lists: Vec<Vec<Move>>,
    nodes: u32,
}

/// A node counter advanced by `by`, stopping at the largest count.
pub open spec fn bumped(nodes: u32, by: nat) -> u32 {
    if nodes + by > u32::MAX {
        u32::MAX
    } else {
        (nodes + by) as u32
    }
}

impl SearchContext {
    /// How many nodes have been counted since the last reset.
    pub closed spec fn counted(&self) -> u32 {
        self.nodes
    }

    /// How many buffers wait in the pool.
    pub closed spec fn pooled(&self) -> nat {
        self.move_lists@.len()
    }

    /// A context with no node counted and no buffer pooled.
    pub fn new() -> (ctx: SearchContext)
        ensures
            ctx.counted() == 0,
            ctx.pooled() == 0,
    {
        SearchContext { move_lists: Vec::new(), nodes: 0 }
    }

    /// How many nodes have been counted since the last reset.
    #[verifier::when_used_as_spec(counted)]
    pub fn nodes(&self) -> (count: u32)
        ensures
            count == self.counted(),
    {
        self.nodes
    }

    /// Starts a new count of nodes. The pool stays.
    pub fn reset(&mut self)
        ensures
            final(self).counted() == 0,
            final(self).pooled() == old(self).pooled(),
    {
        self.nodes = 0;
    }

    /// Borrows an empty buffer: one from the pool where one waits, a fresh
    /// one otherwise.
    pub fn get_move_vec(&mut self) -> (buffer: Vec<Move>)
        ensures
            buffer@.len() == 0,
            final(self).counted() == old(self).counted(),
            final(self).pooled() == (if old(self).pooled() == 0 {
                0
            } else {
                old(self).pooled() - 1
            }),
    {
        if let Some(mut move_vec) = self.move_lists.pop() {
            move_vec.clear();
            return move_vec;
        } else {
            return Vec::new();
        }
    }

    /// Gives a buffer back to the pool.
    pub fn return_move_vec(&mut self, move_vec: Vec<Move>)
        ensures
            final(self).counted() == old(self).counted(),
            final(self).pooled() == old(self).pooled() + 1,
    {
        self.move_lists.push(move_vec);
    }

    /// Counts one more node. The count stops at the largest value it can
    /// hold.
    pub fn count_node(&mut self)
        ensures
            final(self).counted() == bumped(old(self).counted(), 1),
            final(self).pooled() == old(self).pooled(),
    {
        if self.nodes < u32::MAX {
            self.nodes = self.nodes + 1;
        }
    }
}

/// A view of a shared cancel flag that never goes back: once it has seen the
/// flag set, it reports it set. It keeps count of the looks that found the
/// flag clear.
pub struct CancelToken<'a> {
    flag: &'a AtomicBool,
    seen: bool,
    clear_looks: Ghost<nat>,
}

impl<'a> CancelToken<'a> {
    /// The token has seen the flag set.
    pub closed spec fn observed(&self) -> bool {
        self.seen
    }

    /// How many looks at the flag have found it clear.
    pub closed spec fn cleared(&self) -> nat {
        self.clear_looks@
    }

    /// A token on a flag, which it has not yet seen set.
    pub fn new(flag: &'a AtomicBool) -> (token: CancelToken<'a>)
        ensures
            !token.observed(),
            token.cleared() == 0,
    {
        CancelToken { flag, seen: false, clear_looks: Ghost(0) }
    }

    /// Looks at the flag, unless it was seen set before. What another
    /// thread has stored decides the answer; a flag once seen stays seen,
    /// and a look that finds the flag clear is counted.
    pub fn poll(&mut self) -> (cancelled: bool)
        ensures
            cancelled == final(self).observed(),
            old(self).observed() ==> cancelled,
            final(self).cleared() == old(self).cleared() + (if cancelled {
                0nat
            } else {
                1nat
            }),
    {
        if !self.seen {
            self.seen = self.look();
        }
        if !self.seen {
            proof {
                self.clear_looks = Ghost((self.clear_looks@ + 1) as nat);
            }
        }
        self.seen
    }

    /// One look at the flag. Nothing is known of what it finds.
    fn look(&self) -> (set: bool) {
        self.flag.load(core::sync::atomic::Ordering::Relaxed)
    }
}

/// What a search comes to: its score and principal line or the error that
/// stopped it, the position it leaves behind, the node counter as it leaves
/// it, the looks at the cancel flag that found it clear, and whether a look
/// found it set.
pub struct Searched {
    pub result: Result<(Score, Option<Seq<Move>>), MoveError>,
    pub pos: Position,
    pub counted: u32,
    pub cleared: nat,
    pub cut: bool,
}

/// The moves that a node lists: the legal ones at the root, the
/// pseudo-legal ones elsewhere, with the position that listing them leaves
/// and the error that may have cut it short.
pub open spec fn listing(pos: Position, is_root: bool) -> (
    Result<(), MoveError>,
    Position,
    Seq<Move>,
) {
    if is_root {
        legal_outcome(pos, Seq::empty())
    } else {
        (Ok(()), pos, candidate_moves(pos))
    }
}

/// What a node with no move to make comes to: the lost score where the side
/// to move is in check, 0 where it is not.
pub open spec fn stuck(pos: Position, counted: u32) -> Searched {
    let (found, left) = pos.check_outcome();
    Searched {
        result: match found {
            Err(error) => Err(error),
            Ok(in_check) => Ok(
                (
                    if in_check {
                        Score::NegInfinity
                    } else {
                        Score::Finite(0)
                    },
                    None,
                ),
            ),
        },
        pos: left,
        counted,
        cleared: 0,
        cut: false,
    }
}

/// The node looks at no flag: its depth is below 1, its moves cannot be
/// listed, or it has no move to make.
pub open spec fn tries_no_move(pos: Position, depth: int, is_root: bool) -> bool {
    depth < 1 || listing(pos, is_root).0 is Err || listing(pos, is_root).2.len() == 0
}

/// What a node that tries no move comes to: at depth 0 the static
/// evaluation of the unchanged position; the error of a failed listing;
/// the lost score or 0 with no move to make. One node is counted on top of
/// the `counted` before.
pub open spec fn settled(pos: Position, depth: int, is_root: bool, counted: u32) -> Searched {
    let (listed, at, moves) = listing(pos, is_root);
    let counted = bumped(counted, 1);
    if depth < 1 {
        Searched { result: Ok((static_score(pos), None)), pos, counted, cleared: 0, cut: false }
    } else if listed is Err {
        Searched { result: Err(listed->Err_0), pos: at, counted, cleared: 0, cut: false }
    } else {
        stuck(at, counted)
    }
}

/// The search of a position to a depth within the window from `alpha` to
/// `beta`, with `counted` nodes counted before it, where the next `clear`
/// looks at the cancel flag find it clear and the look after them finds it
/// set. A node that tries no move is settled at once; otherwise the moves
/// are tried in turn.
#[verifier::opaque]
pub open spec fn searched(
    pos: Position,
    depth: int,
    is_root: bool,
    alpha: Score,
    beta: Score,
    counted: u32,
    clear: nat,
) -> Searched
    decreases depth, 1int, 0int,
{
    if tries_no_move(pos, depth, is_root) {
        settled(pos, depth, is_root, counted)
    } else {
        tried(
            listing(pos, is_root).1,
            listing(pos, is_root).2,
            0,
            depth,
            alpha,
            beta,
            None,
            bumped(counted, 1),
            0,
            clear,
        )
    }
}

/// What trying one move comes to, given the search that answers it: the end
/// of the trial, or the state in which the next move is tried.
pub enum Trial {
    Over(Searched),
    Next { pos: Position, alpha: Score, best: Option<Seq<Move>>, cleared: nat },
}

/// Trying one move. It is made, answered by `child`, and reverted; then the
/// cancel flag is looked at. Where the flag is found set, because the answer
/// was cut short or because no clear look is left of the `clear` that were,
/// the trial ends with the lost score and no line. Otherwise the negated
/// answer replaces `alpha` and the line where it is strictly better, and
/// ends the trial where it reaches `beta`.
pub open spec fn trial(
    pos: Position,
    mv: Move,
    child: Searched,
    alpha: Score,
    beta: Score,
    best: Option<Seq<Move>>,
    counted: u32,
    cleared: nat,
    clear: nat,
) -> Trial {
    let looked = cleared + child.cleared;
    let ended = |result: Result<(Score, Option<Seq<Move>>), MoveError>, pos: Position, cut: bool|
        Trial::Over(Searched { result, pos, counted: child.counted, cleared: looked, cut });
    if pos.piece_at(mv.src).is_none() {
        Trial::Over(
            Searched {
                result: Err(MoveError::SourceEmpty(mv.src)),
                pos,
                counted,
                cleared,
                cut: false,
            },
        )
    } else {
        match child.result {
            Err(error) => ended(Err(error), child.pos, child.cut),
            Ok((reply, line)) => {
                let score = reply.negated();
                let back = child.pos.before_move(pos.record_of(mv));
                let found = Some(seq![mv] + moves_of(line));
                if child.pos.piece_at(mv.dest).is_none() {
                    ended(Err(MoveError::DestinationEmpty(mv.dest)), child.pos, child.cut)
                } else if child.cut || child.cleared >= clear {
                    ended(Ok((Score::NegInfinity, None)), back, true)
                } else if !score.above(alpha) {
                    Trial::Next { pos: back, alpha, best, cleared: looked + 1 }
                } else if beta.above(score) {
                    Trial::Next { pos: back, alpha: score, best: found, cleared: looked + 1 }
                } else {
                    Trial::Over(
                        Searched {
                            result: Ok((score, found)),
                            pos: back,
                            counted: child.counted,
                            cleared: looked + 1,
                            cut: false,
                        },
                    )
                }
            },
        }
    }
}

/// The search that answers the `i`-th move.
pub open spec fn answer(
    pos: Position,
    moves: Seq<Move>,
    i: int,
    depth: int,
    alpha: Score,
    beta: Score,
    counted: u32,
    clear: nat,
) -> Searched
    recommends
        depth >= 1,
        0 <= i < moves.len(),
{
    searched(pos.after_move(moves[i]), depth - 1, false, beta.negated(), alpha.negated(), counted, clear)
}

/// Trying the moves from the `i`-th on, one after another, with `counted`
/// nodes counted and `cleared` clear looks made so far and `clear` clear
/// looks to come.
#[verifier::opaque]
pub open spec fn tried(
    pos: Position,
    moves: Seq<Move>,
    i: int,
    depth: int,
    alpha: Score,
    beta: Score,
    best: Option<Seq<Move>>,
    counted: u32,
    cleared: nat,
    clear: nat,
) -> Searched
    decreases depth, 0int, moves.len() - i,
{
    if depth < 1 || i < 0 || i >= moves.len() {
        Searched { result: Ok((alpha, best)), pos, counted, cleared, cut: false }
    } else {
        let child = searched(
            pos.after_move(moves[i]),
            depth - 1,
            false,
            beta.negated(),
            alpha.negated(),
            counted,
            clear,
        );
        match trial(pos, moves[i], child, alpha, beta, best, counted, cleared, clear) {
            Trial::Over(end) => end,
            Trial::Next { pos: back, alpha: raised, best: line, cleared: looked } => tried(
                back,
                moves,
                i + 1,
                depth,
                raised,
                beta,
                line,
                child.counted,
                looked,
                (clear - child.cleared - 1) as nat,
            ),
        }
    }
}

/// What [`searched`] comes to, case by case.
pub proof fn lemma_searched(
    pos: Position,
    depth: int,
    is_root: bool,
    alpha: Score,
    beta: Score,
    counted: u32,
    clear: nat,
)
    ensures
        tries_no_move(pos, depth, is_root) ==> searched(
            pos,
            depth,
            is_root,
            alpha,
            beta,
            counted,
            clear,
        ) == settled(pos, depth, is_root, counted),
        !tries_no_move(pos, depth, is_root) ==> searched(
            pos,
            depth,
            is_root,
            alpha,
            beta,
            counted,
            clear,
        ) == tried(
            listing(pos, is_root).1,
            listing(pos, is_root).2,
            0,
            depth,
            alpha,
            beta,
            None,
            bumped(counted, 1),
            0,
            clear,
        ),
{
    reveal_with_fuel(searched, 2);
    reveal_with_fuel(tried, 2);
}

/// What [`tried`] comes to, case by case.
pub proof fn lemma_tried(
    pos: Position,
    moves: Seq<Move>,
    i: int,
    depth: int,
    alpha: Score,
    beta: Score,
    best: Option<Seq<Move>>,
    counted: u32,
    cleared: nat,
    clear: nat,
)
    requires
        depth >= 1,
        0 <= i <= moves.len(),
    ensures
        i == moves.len() ==> tried(pos, moves, i, depth, alpha, beta, best, counted, cleared, clear)
            == (Searched { result: Ok((alpha, best)), pos, counted, cleared, cut: false }),
        i < moves.len() ==> tried(pos, moves, i, depth, alpha, beta, best, counted, cleared, clear)
            == ({
            let child = answer(pos, moves, i, depth, alpha, beta, counted, clear);
            match trial(pos, moves[i], child, alpha, beta, best, counted, cleared, clear) {
                Trial::Over(end) => end,
                Trial::Next { pos: back, alpha: raised, best: line, cleared: looked } => tried(
                    back,
                    moves,
                    i + 1,
                    depth,
                    raised,
                    beta,
                    line,
                    child.counted,
                    looked,
                    (clear - child.cleared - 1) as nat,
                ),
            }
        }),
{
    reveal_with_fuel(tried, 2);
    reveal_with_fuel(searched, 2);
}

/// The result of a search with its chain read as a line of moves.
pub open spec fn result_view(found: Result<(Score, Option<MoveChain>), MoveError>) -> Result<
    (Score, Option<Seq<Move>>),
    MoveError,
> {
    match found {
        Ok((score, Some(chain))) => Ok((score, Some(chain@))),
        Ok((score, None)) => Ok((score, None)),
        Err(error) => Err(error),
    }
}

/// The result that stands for a cancelled search. It is no evaluation.
pub open spec fn is_sentinel(found: Result<(Score, Option<MoveChain>), MoveError>) -> bool {
    found matches Ok((Score::NegInfinity, None))
}

/// The principal line of a chain that may be absent.
pub open spec fn chain_view(chain: Option<MoveChain>) -> Option<Seq<Move>> {
    match chain {
        Some(c) => Some(c@),
        None => None,
    }
}

/// A node that tries no move is the same whatever the cancel flag holds and
/// whatever the window: it makes no look, and it counts one node.
pub proof fn lemma_settled(
    pos: Position,
    depth: int,
    is_root: bool,
    alpha: Score,
    beta: Score,
    counted: u32,
    clear: nat,
)
    requires
        tries_no_move(pos, depth, is_root),
    ensures
        searched(pos, depth, is_root, alpha, beta, counted, clear) == settled(
            pos,
            depth,
            is_root,
            counted,
        ),
        settled(pos, depth, is_root, counted).counted == bumped(counted, 1),
        settled(pos, depth, is_root, counted).cleared == 0,
        !settled(pos, depth, is_root, counted).cut,
        depth < 1 ==> settled(pos, depth, is_root, counted).pos == pos && settled(
            pos,
            depth,
            is_root,
            counted,
        ).result == Ok::<(Score, Option<Seq<Move>>), MoveError>((static_score(pos), None)),
{
    lemma_searched(pos, depth, is_root, alpha, beta, counted, clear);
}

/// A node with no move to make scores the lost score where the side to move
/// is in check and 0 where it is not, whatever the window and whatever the
/// cancel flag holds. At the root that is a position without a legal move:
/// checkmate or stalemate.
pub proof fn lemma_no_move_to_make(
    pos: Position,
    depth: int,
    is_root: bool,
    alpha: Score,
    beta: Score,
    counted: u32,
    clear: nat,
)
    requires
        depth >= 1,
        listing(pos, is_root).0 is Ok,
        listing(pos, is_root).2.len() == 0,
    ensures
        searched(pos, depth, is_root, alpha, beta, counted, clear).result == (match listing(
            pos,
            is_root,
        ).1.check_outcome().0 {
            Ok(true) => Ok((Score::NegInfinity, None::<Seq<Move>>)),
            Ok(false) => Ok((Score::Finite(0), None::<Seq<Move>>)),
            Err(error) => Err(error),
        }),
        searched(pos, depth, is_root, alpha, beta, counted, clear).pos == listing(
            pos,
            is_root,
        ).1.check_outcome().1,
{
    lemma_searched(pos, depth, is_root, alpha, beta, counted, clear);
}

/// The number of clear looks that a model of a search is run with agrees
/// with what a token has seen while the search ran. A token that had seen
/// the flag set before finds it set at every look. A token that saw it set
/// during the search made exactly that many clear looks before. A token
/// that never saw it set made at most that many.
pub open spec fn looks_fit(was_seen: bool, is_seen: bool, made: int, clear: nat) -> bool {
    if was_seen {
        clear == 0
    } else if is_seen {
        clear == made
    } else {
        clear >= made
    }
}

/// What a call has in common with the model of the search: the result, the
/// position left behind, the node counter, the clear looks made and whether
/// the flag was seen set.
pub open spec fn agrees(
    found: Result<(Score, Option<MoveChain>), MoveError>,
    pos: Position,
    counted: u32,
    made: int,
    was_seen: bool,
    is_seen: bool,
    whole: Searched,
) -> bool {
    &&& result_view(found) == whole.result
    &&& pos == whole.pos
    &&& counted == whole.counted
    &&& made == whole.cleared
    &&& is_seen == (was_seen || whole.cut)
}

/// Searches a position to a depth within the window from `alpha` to `beta`
/// and hands back the score, good for the side to move, with the principal
/// line. After each move tried the cancel flag is looked at; once it is
/// found set, every search under way returns the lost score without a line,
/// which then stands for no evaluation at all.
///
/// What the flag holds at each look is for another thread to decide. The
/// call is the search of the model for the looks as they went: its result,
/// the position it leaves, the nodes it counts, the clear looks it makes
/// and whether it has seen the flag set are those of [`searched`] run with
/// the number of looks that found the flag clear. A node that tries no
/// move, at depth 0 or with no move to make, never looks at the flag and is
/// the same whatever the flag holds.
#[verifier::rlimit(50)]
pub fn minimax(
    ctx: &mut SearchContext,
    pos: &mut Position,
    depth: i32,
    is_root: bool,
    cancel: &mut CancelToken,
    alpha: Score,
    beta: Score,
) -> (found: Result<(Score, Option<MoveChain>), MoveError>)
    requires
        alpha.wf(),
        beta.wf(),
    ensures
        old(cancel).observed() ==> final(cancel).observed(),
        final(cancel).cleared() >= old(cancel).cleared(),
        found matches Ok((score, _)) ==> score.wf(),
        found matches Ok((score, Some(_))) ==> score.above(alpha),
        final(ctx).counted() >= bumped(old(ctx).counted(), 1),
        final(cancel).observed() && !tries_no_move(*old(pos), depth as int, is_root)
            ==> is_sentinel(found) || found is Err,
        forall|clear: nat| #[trigger]
            looks_fit(
                old(cancel).observed(),
                final(cancel).observed(),
                final(cancel).cleared() - old(cancel).cleared(),
                clear,
            ) ==> agrees(
                found,
                *final(pos),
                final(ctx).counted(),
                final(cancel).cleared() - old(cancel).cleared(),
                old(cancel).observed(),
                final(cancel).observed(),
                searched(*old(pos), depth as int, is_root, alpha, beta, old(ctx).counted(), clear),
            ),
        tries_no_move(*old(pos), depth as int, is_root) ==> {
            let whole = settled(*old(pos), depth as int, is_root, old(ctx).counted());
            &&& final(cancel).observed() == old(cancel).observed()
            &&& final(cancel).cleared() == old(cancel).cleared()
            &&& result_view(found) == whole.result
            &&& *final(pos) == whole.pos
            &&& final(ctx).counted() == whole.counted
        },
    decreases depth,
{
    let ghost start = *pos;
    let ghost was_seen = cancel.observed();
    let ghost was_cleared = cancel.cleared();
    let ghost was_counted = ctx.counted();
    let mut raised = alpha;
    proof {
        assert forall|clear: nat|
            tries_no_move(start, depth as int, is_root) implies #[trigger] searched(
            start,
            depth as int,
            is_root,
            alpha,
            beta,
            was_counted,
            clear,
        ) == settled(start, depth as int, is_root, was_counted) by {
            lemma_searched(start, depth as int, is_root, alpha, beta, was_counted, clear);
        }
    }
    ctx.count_node();
    if depth < 1 {
        let mut scratch = ctx.get_move_vec();
        let score = evaluate(&mut scratch, pos);
        ctx.return_move_vec(scratch);
        return Ok((score, None));
    }
    let mut moves = ctx.get_move_vec();
    assert(moves@ =~= Seq::<Move>::empty());
    if is_root {
        match generate_legal_moves(&mut moves, pos) {
            Ok(_) => {},
            Err(error) => {
                return Err(error);
            },
        }
        assert(listing(start, is_root).0 is Ok);
        assert(listing(start, is_root).1 == *pos);
        assert(listing(start, is_root).2 == moves@);
    } else {
        generate_moves(&mut moves, pos, true);
        generate_moves(&mut moves, pos, false);
        assert(moves@ =~= candidate_moves(*pos));
        assert(listing(start, is_root).0 is Ok);
        assert(listing(start, is_root).1 == *pos);
        assert(listing(start, is_root).2 == moves@);
    }
    if moves.len() == 0 {
        match pos.is_check() {
            Ok(in_check) => {
                if in_check {
                    return Ok((Score::NegInfinity, None));
                } else {
                    return Ok((Score::Finite(0), None));
                }
            },
            Err(error) => {
                return Err(error);
            },
        }
    }
    let mut best_chain: Option<MoveChain> = None;
    let mut i: usize = 0;
    proof {
        assert forall|rest: nat| #[trigger]
            tried(
                *pos,
                moves@,
                0,
                depth as int,
                raised,
                beta,
                None,
                ctx.counted(),
                0,
                rest,
            ) == searched(start, depth as int, is_root, alpha, beta, was_counted, rest) by {
            lemma_searched(start, depth as int, is_root, alpha, beta, was_counted, rest);
        }
    }
    while i < moves.len()
        invariant
            depth >= 1,
            i <= moves.len(),
            moves@.len() > 0,
            !tries_no_move(start, depth as int, is_root),
            raised.wf(),
            raised.key() >= alpha.key(),
            best_chain is Some ==> raised.above(alpha),
            ctx.counted() >= bumped(was_counted, 1),
            beta.wf(),
            was_seen == old(cancel).observed(),
            was_cleared == old(cancel).cleared(),
            was_counted == old(ctx).counted(),
            start == *old(pos),
            cancel.observed() == was_seen,
            cancel.cleared() >= was_cleared,
            was_seen ==> cancel.cleared() == was_cleared,
            i > 0 ==> !cancel.observed(),
            forall|rest: nat|
                (cancel.observed() ==> rest == 0) ==> #[trigger] tried(
                    *pos,
                    moves@,
                    i as int,
                    depth as int,
                    raised,
                    beta,
                    chain_view(best_chain),
                    ctx.counted(),
                    (cancel.cleared() - was_cleared) as nat,
                    rest,
                ) == searched(
                    start,
                    depth as int,
                    is_root,
                    alpha,
                    beta,
                    was_counted,
                    (cancel.cleared() - was_cleared + rest) as nat,
                ),
        decreases moves.len() - i,
    {
        let mv = moves[i];
        let ghost before = *pos;
        let ghost looked = (cancel.cleared() - was_cleared) as nat;
        let ghost at_cleared = cancel.cleared();
        let ghost line = chain_view(best_chain);
        let ghost floor = raised;
        let ghost seen_nodes = ctx.counted();
        let past_move = match pos.do_move(mv) {
            Ok(past_move) => past_move,
            Err(error) => {
                proof {
                    assert forall|clear: nat| #[trigger]
                        looks_fit(was_seen, cancel.observed(), looked as int, clear) implies agrees(
                        Err(error),
                        *pos,
                        ctx.counted(),
                        looked as int,
                        was_seen,
                        cancel.observed(),
                        searched(start, depth as int, is_root, alpha, beta, was_counted, clear),
                    ) by {
                        let rest = (clear - looked) as nat;
                        lemma_tried(
                            before,
                            moves@,
                            i as int,
                            depth as int,
                            floor,
                            beta,
                            line,
                            seen_nodes,
                            looked,
                            rest,
                        );
                    }
                }
                return Err(error);
            },
        };
        let answered = minimax(ctx, pos, depth - 1, false, cancel, beta.negate(), raised.negate());
        let ghost made = cancel.cleared() - at_cleared;
        let ghost child_seen = cancel.observed();
        let ghost child_pos = *pos;
        let ghost child_counted = ctx.counted();
        proof {
            assert forall|clear: nat| #[trigger]
                looks_fit(was_seen, child_seen, looked + made, clear) implies ({
                let rest = (clear - looked) as nat;
                let child = answer(
                    before,
                    moves@,
                    i as int,
                    depth as int,
                    floor,
                    beta,
                    seen_nodes,
                    rest,
                );
                &&& clear == looked + rest
                &&& (was_seen ==> rest == 0)
                &&& agrees(answered, child_pos, child_counted, made, was_seen, child_seen, child)
                &&& tried(
                    before,
                    moves@,
                    i as int,
                    depth as int,
                    floor,
                    beta,
                    line,
                    seen_nodes,
                    looked,
                    rest,
                ) == searched(start, depth as int, is_root, alpha, beta, was_counted, clear)
            }) by {
                let rest = (clear - looked) as nat;
                assert(looks_fit(was_seen, child_seen, made, rest));
            }
        }
        let (reply, chain) = match answered {
            Ok(answer) => answer,
            Err(error) => {
                proof {
                    assert forall|clear: nat| #[trigger]
                        looks_fit(was_seen, child_seen, looked + made, clear) implies agrees(
                        Err(error),
                        *pos,
                        ctx.counted(),
                        looked + made,
                        was_seen,
                        child_seen,
                        searched(start, depth as int, is_root, alpha, beta, was_counted, clear),
                    ) by {
                        let rest = (clear - looked) as nat;
                        lemma_tried(
                            before,
                            moves@,
                            i as int,
                            depth as int,
                            floor,
                            beta,
                            line,
                            seen_nodes,
                            looked,
                            rest,
                        );
                    }
                }
                return Err(error);
            },
        };
        let score = reply.negate();
        match pos.undo_move(past_move) {
            Ok(_) => {},
            Err(error) => {
                proof {
                    assert forall|clear: nat| #[trigger]
                        looks_fit(was_seen, child_seen, looked + made, clear) implies agrees(
                        Err(error),
                        *pos,
                        ctx.counted(),
                        looked + made,
                        was_seen,
                        child_seen,
                        searched(start, depth as int, is_root, alpha, beta, was_counted, clear),
                    ) by {
                        let rest = (clear - looked) as nat;
                        lemma_tried(
                            before,
                            moves@,
                            i as int,
                            depth as int,
                            floor,
                            beta,
                            line,
                            seen_nodes,
                            looked,
                            rest,
                        );
                    }
                }
                return Err(error);
            },
        }
        if cancel.poll() {
            proof {
                assert forall|clear: nat| #[trigger]
                    looks_fit(was_seen, true, looked + made, clear) implies agrees(
                    Ok((Score::NegInfinity, None)),
                    *pos,
                    ctx.counted(),
                    looked + made,
                    was_seen,
                    true,
                    searched(start, depth as int, is_root, alpha, beta, was_counted, clear),
                ) by {
                    let rest = (clear - looked) as nat;
                    assert(looks_fit(was_seen, child_seen, looked + made, clear));
                    lemma_tried(
                        before,
                        moves@,
                        i as int,
                        depth as int,
                        floor,
                        beta,
                        line,
                        seen_nodes,
                        looked,
                        rest,
                    );
                }
            }
            return Ok((Score::NegInfinity, None));
        }
        proof {
            assert(moves_of(chain_view(chain)) == line_of(chain));
        }
        if score.is_above(raised) {
            raised = score;
            best_chain = Some(MoveChain::new(mv, chain));
            if !beta.is_above(raised) {
                proof {
                    assert forall|clear: nat| #[trigger]
                        looks_fit(was_seen, false, looked + made + 1, clear) implies agrees(
                        Ok((raised, best_chain)),
                        *pos,
                        ctx.counted(),
                        looked + made + 1,
                        was_seen,
                        false,
                        searched(start, depth as int, is_root, alpha, beta, was_counted, clear),
                    ) by {
                        let rest = (clear - looked) as nat;
                        assert(looks_fit(was_seen, child_seen, looked + made, clear));
                        lemma_tried(
                            before,
                            moves@,
                            i as int,
                            depth as int,
                            floor,
                            beta,
                            line,
                            seen_nodes,
                            looked,
                            rest,
                        );
                    }
                }
                ctx.return_move_vec(moves);
                return Ok((raised, best_chain));
            }
        }
        proof {
            assert forall|rest: nat| #[trigger]
                tried(
                    *pos,
                    moves@,
                    i + 1,
                    depth as int,
                    raised,
                    beta,
                    chain_view(best_chain),
                    ctx.counted(),
                    (looked + made + 1) as nat,
                    rest,
                ) == searched(
                    start,
                    depth as int,
                    is_root,
                    alpha,
                    beta,
                    was_counted,
                    (looked + made + 1 + rest) as nat,
                ) by {
                let clear = (looked + made + 1 + rest) as nat;
                let wide = (clear - looked) as nat;
                assert(looks_fit(was_seen, child_seen, looked + made, clear));
                lemma_tried(
                    before,
                    moves@,
                    i as int,
                    depth as int,
                    floor,
                    beta,
                    line,
                    seen_nodes,
                    looked,
                    wide,
                );
            }
        }
        i = i + 1;
    }
    proof {
        let looked = (cancel.cleared() - was_cleared) as nat;
        assert forall|clear: nat| #[trigger]
            looks_fit(was_seen, cancel.observed(), looked as int, clear) implies agrees(
            Ok((raised, best_chain)),
            *pos,
            ctx.counted(),
            looked as int,
            was_seen,
            cancel.observed(),
            searched(start, depth as int, is_root, alpha, beta, was_counted, clear),
        ) by {
            let rest = (clear - looked) as nat;
            lemma_tried(
                *pos,
                moves@,
                i as int,
                depth as int,
                raised,
                beta,
                chain_view(best_chain),
                ctx.counted(),
                looked,
                rest,
            );
        }
    }
    ctx.return_move_vec(moves);
    Ok((raised, best_chain))
}

} // verus!
