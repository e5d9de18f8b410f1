//! What the check test finds and what it leaves behind.

use vstd::prelude::*;
use crate::square::Square;
use crate::piece::PieceType;
use crate::position::{Position, lemma_piece_at_valid};
use crate::moves::{
    Move, MoveError, PastMove, pseudo_legal_moves, step_moves, step_open, ray_moves, rook_moves,
    bishop_moves, queen_moves, knight_moves, pawn_moves, king_moves, piece_moves,
    group_moves, kind_moves, candidate_moves, sifted, legal_outcome,
};
use crate::rules::{movable, fits, lemma_pseudo_legal_playable};
use crate::score::Score;
use crate::search::{
    searched, tried, trial, answer, bumped, lemma_searched, lemma_tried, Trial,
};
use crate::reversal::{
    lemma_same_boards, lemma_undo_restores, lemma_move_keeps_well_formed, rook_in_corner,
    with_rights_of,
};

verus! {

/// The two positions differ in castling rights at most.
pub open spec fn same_but_rights(a: Position, b: Position) -> bool {
    a == with_rights_of(b, a)
}

/// The first position holds no castling right that the second lacks.
pub open spec fn rights_within(a: Position, b: Position) -> bool {
    a.white_castle_state.no_more_than(b.white_castle_state)
        && a.black_castle_state.no_more_than(b.black_castle_state)
}

/// The move leaves fewer than two kings on the board.
pub open spec fn takes_king(pos: Position, mv: Move) -> bool {
    pos.after_move(mv).kings.cardinality() < 2
}

/// One of the moves leaves fewer than two kings on the board.
pub open spec fn some_takes_king(pos: Position, moves: Seq<Move>) -> bool {
    exists|i: int| 0 <= i < moves.len() && takes_king(pos, #[trigger] moves[i])
}

/// Castling rights play no part in what a move does to the board, nor in
/// whether the board admits it.
pub proof fn lemma_rights_apart(a: Position, b: Position, mv: Move)
    requires
        same_but_rights(a, b),
    ensures
        forall|s: Square| a.piece_at(s) == b.piece_at(s),
        a.well_formed() == b.well_formed(),
        movable(a, mv) == movable(b, mv),
        a.is_castle(mv) == b.is_castle(mv),
        rook_in_corner(a, mv) == rook_in_corner(b, mv),
        same_but_rights(a.after_move(mv), b.after_move(mv)),
        a.record_of(mv) == b.record_of(mv),
        rights_within(a.after_move(mv), a),
{
    lemma_same_boards(a, b);
    assert(a.cleared(mv.src) == with_rights_of(b.cleared(mv.src), a));
}

/// Reverting a move keeps the castling rights and needs none.
pub proof fn lemma_rights_kept(a: Position, b: Position, past_move: PastMove)
    requires
        same_but_rights(a, b),
    ensures
        same_but_rights(a.before_move(past_move), b.before_move(past_move)),
        a.before_move(past_move).white_castle_state == a.white_castle_state,
        a.before_move(past_move).black_castle_state == a.black_castle_state,
{
    lemma_same_boards(a, b);
}

/// Trying moves that the board admits and that do not castle: the trial
/// ends without an error, finds whether one of the moves leaves fewer than
/// two kings, and leaves the position as it was but for castling rights it
/// may have cleared.
pub proof fn lemma_probed(at: Position, base: Position, moves: Seq<Move>)
    requires
        base.well_formed(),
        same_but_rights(at, base),
        forall|i: int|
            0 <= i < moves.len() ==> movable(base, #[trigger] moves[i]) && !base.is_castle(
                moves[i],
            ),
    ensures
        at.probed(moves).0 == Ok::<bool, MoveError>(some_takes_king(base, moves)),
        same_but_rights(at.probed(moves).1, base),
        rights_within(at.probed(moves).1, at),
    decreases moves.len(),
{
    if moves.len() > 0 {
        let mv = moves[0];
        let rest = moves.drop_first();
        lemma_rights_apart(at, base, mv);
        lemma_undo_restores(at, mv);
        let moved = at.after_move(mv);
        let back = moved.before_move(at.record_of(mv));
        assert(back == with_rights_of(at, moved));
        assert(same_but_rights(back, base));
        assert(takes_king(at, mv) == takes_king(base, mv));
        assert forall|i: int| 0 <= i < rest.len() implies movable(base, #[trigger] rest[i])
            && !base.is_castle(rest[i]) by {
            assert(rest[i] == moves[i + 1]);
        }
        if takes_king(base, mv) {
            assert(some_takes_king(base, moves));
        } else {
            lemma_probed(back, base, rest);
            if some_takes_king(base, rest) {
                let i = choose|i: int| 0 <= i < rest.len() && takes_king(base, #[trigger] rest[i]);
                assert(moves[i + 1] == rest[i]);
            }
            if some_takes_king(base, moves) {
                let i = choose|i: int|
                    0 <= i < moves.len() && takes_king(base, #[trigger] moves[i]);
                assert(i > 0);
                assert(rest[i - 1] == moves[i]);
            }
        }
    }
}

/// The check test on a position whose turn, once passed, gives a
/// well-formed position: it ends without an error; it reports check exactly
/// when one of the opponent's pseudo-legal captures leaves fewer than two
/// kings on the board; and it leaves the position as it was but for
/// castling rights that the tried captures may have cleared.
pub proof fn lemma_check_outcome(pos: Position)
    requires
        pos.passed().well_formed(),
    ensures
        pos.check_outcome().0 == Ok::<bool, MoveError>(
            some_takes_king(pos.passed(), pseudo_legal_moves(pos.passed(), true)),
        ),
        same_but_rights(pos.check_outcome().1, pos),
        rights_within(pos.check_outcome().1, pos),
{
    let turned = pos.passed();
    let moves = pseudo_legal_moves(turned, true);
    lemma_pseudo_legal_playable(turned, true);
    assert forall|i: int| 0 <= i < moves.len() implies movable(turned, #[trigger] moves[i])
        && !turned.is_castle(moves[i]) by {
        assert(fits(turned, moves[i], true));
        lemma_piece_at_valid(turned, moves[i].src);
    }
    lemma_probed(turned, turned, moves);
}

proof fn lemma_step_apart(a: Position, b: Position, src: Square, dest: Square, capture: bool)
    requires
        same_but_rights(a, b),
    ensures
        step_moves(a, src, dest, capture) == step_moves(b, src, dest, capture),
        step_open(a, dest) == step_open(b, dest),
{
    reveal(step_moves);
}

proof fn lemma_ray_apart(
    a: Position,
    b: Position,
    src: Square,
    dr: int,
    df: int,
    capture: bool,
    k: int,
)
    requires
        same_but_rights(a, b),
    ensures
        ray_moves(a, src, dr, df, capture, k) == ray_moves(b, src, dr, df, capture, k),
    decreases 8 - k,
{
    if k < 8 {
        lemma_step_apart(a, b, src, src.offset(k * dr, k * df), capture);
        lemma_ray_apart(a, b, src, dr, df, capture, k + 1);
    }
}

proof fn lemma_sliders_apart(a: Position, b: Position, src: Square)
    requires
        same_but_rights(a, b),
    ensures
        rook_moves(a, src, true) == rook_moves(b, src, true),
        bishop_moves(a, src, true) == bishop_moves(b, src, true),
        queen_moves(a, src, true) == queen_moves(b, src, true),
{
    lemma_ray_apart(a, b, src, 0, 1, true, 1);
    lemma_ray_apart(a, b, src, 0, -1, true, 1);
    lemma_ray_apart(a, b, src, 1, 0, true, 1);
    lemma_ray_apart(a, b, src, -1, 0, true, 1);
    lemma_ray_apart(a, b, src, 1, 1, true, 1);
    lemma_ray_apart(a, b, src, -1, -1, true, 1);
    lemma_ray_apart(a, b, src, -1, 1, true, 1);
    lemma_ray_apart(a, b, src, 1, -1, true, 1);
}

proof fn lemma_knight_apart(a: Position, b: Position, src: Square)
    requires
        same_but_rights(a, b),
    ensures
        knight_moves(a, src, true) == knight_moves(b, src, true),
{
    lemma_step_apart(a, b, src, src.offset(2, 1), true);
    lemma_step_apart(a, b, src, src.offset(2, -1), true);
    lemma_step_apart(a, b, src, src.offset(-2, 1), true);
    lemma_step_apart(a, b, src, src.offset(-2, -1), true);
    lemma_step_apart(a, b, src, src.offset(1, 2), true);
    lemma_step_apart(a, b, src, src.offset(-1, 2), true);
    lemma_step_apart(a, b, src, src.offset(1, -2), true);
    lemma_step_apart(a, b, src, src.offset(-1, -2), true);
}

proof fn lemma_king_apart(a: Position, b: Position, src: Square)
    requires
        same_but_rights(a, b),
    ensures
        king_moves(a, src, true) == king_moves(b, src, true),
{
    lemma_step_apart(a, b, src, src.offset(0, 1), true);
    lemma_step_apart(a, b, src, src.offset(0, -1), true);
    lemma_step_apart(a, b, src, src.offset(1, 0), true);
    lemma_step_apart(a, b, src, src.offset(-1, 0), true);
    lemma_step_apart(a, b, src, src.offset(1, 1), true);
    lemma_step_apart(a, b, src, src.offset(-1, -1), true);
    lemma_step_apart(a, b, src, src.offset(1, -1), true);
    lemma_step_apart(a, b, src, src.offset(-1, 1), true);
}

proof fn lemma_pawn_apart(a: Position, b: Position, src: Square)
    requires
        same_but_rights(a, b),
    ensures
        pawn_moves(a, src, true) == pawn_moves(b, src, true),
{
    let direction = crate::moves::pawn_direction(a, src);
    lemma_step_apart(a, b, src, src.offset(direction, 1), true);
    lemma_step_apart(a, b, src, src.offset(direction, -1), true);
}

proof fn lemma_piece_apart(a: Position, b: Position, kind: PieceType, src: Square)
    requires
        same_but_rights(a, b),
    ensures
        piece_moves(a, kind, src, true) == piece_moves(b, kind, src, true),
{
    lemma_sliders_apart(a, b, src);
    lemma_knight_apart(a, b, src);
    lemma_king_apart(a, b, src);
    lemma_pawn_apart(a, b, src);
}

proof fn lemma_group_apart(a: Position, b: Position, kind: PieceType, squares: Seq<Square>)
    requires
        same_but_rights(a, b),
    ensures
        group_moves(a, kind, squares, true) == group_moves(b, kind, squares, true),
    decreases squares.len(),
{
    if squares.len() > 0 {
        lemma_piece_apart(a, b, kind, squares[0]);
        lemma_group_apart(a, b, kind, squares.drop_first());
    }
}

/// Castling rights play no part in the pseudo-legal captures of a position.
pub proof fn lemma_captures_apart(a: Position, b: Position)
    requires
        same_but_rights(a, b),
    ensures
        pseudo_legal_moves(a, true) == pseudo_legal_moves(b, true),
{
    reveal(kind_moves);
    let own = a.color_board(a.white_to_play);
    lemma_group_apart(a, b, PieceType::Queen, a.queens.spec_intersect(own).squares());
    lemma_group_apart(a, b, PieceType::Knight, a.knights.spec_intersect(own).squares());
    lemma_group_apart(a, b, PieceType::Rook, a.rooks.spec_intersect(own).squares());
    lemma_group_apart(a, b, PieceType::Bishop, a.bishops.spec_intersect(own).squares());
    lemma_group_apart(a, b, PieceType::Pawn, a.pawns.spec_intersect(own).squares());
    lemma_group_apart(a, b, PieceType::King, a.kings.spec_intersect(own).squares());
}

/// Castling rights play no part in whether a move takes a king.
pub proof fn lemma_takes_king_apart(a: Position, b: Position, moves: Seq<Move>)
    requires
        same_but_rights(a, b),
    ensures
        some_takes_king(a, moves) == some_takes_king(b, moves),
{
    if some_takes_king(a, moves) {
        let i = choose|i: int| 0 <= i < moves.len() && takes_king(a, #[trigger] moves[i]);
        lemma_rights_apart(a, b, moves[i]);
        assert(takes_king(b, moves[i]));
    }
    if some_takes_king(b, moves) {
        let i = choose|i: int| 0 <= i < moves.len() && takes_king(b, #[trigger] moves[i]);
        lemma_rights_apart(a, b, moves[i]);
        assert(takes_king(a, moves[i]));
    }
}

/// Making the move leaves a king of the mover open to capture: one of the
/// opponent's pseudo-legal captures in the position after the move leaves
/// fewer than two kings on the board.
pub open spec fn exposes_king(pos: Position, mv: Move) -> bool {
    some_takes_king(pos.after_move(mv), pseudo_legal_moves(pos.after_move(mv), true))
}

/// The moves among the candidates that do not expose a king, in the order
/// of the candidates.
pub open spec fn legal_among(pos: Position, candidates: Seq<Move>) -> Seq<Move>
    decreases candidates.len(),
{
    if candidates.len() == 0 {
        Seq::empty()
    } else if exposes_king(pos, candidates[0]) {
        legal_among(pos, candidates.drop_first())
    } else {
        seq![candidates[0]] + legal_among(pos, candidates.drop_first())
    }
}

/// Sifting candidates that the board admits, castling only with the rook in
/// its corner: the sifting ends without an error, keeps exactly the
/// candidates that do not expose a king, in their order, and leaves the
/// position as it was but for castling rights it may have cleared.
pub proof fn lemma_sifted(at: Position, base: Position, candidates: Seq<Move>, kept: Seq<Move>)
    requires
        base.well_formed(),
        same_but_rights(at, base),
        forall|i: int|
            0 <= i < candidates.len() ==> movable(base, #[trigger] candidates[i])
                && rook_in_corner(base, candidates[i]),
    ensures
        sifted(at, candidates, kept).0 is Ok,
        sifted(at, candidates, kept).2 == kept + legal_among(base, candidates),
        same_but_rights(sifted(at, candidates, kept).1, base),
        rights_within(sifted(at, candidates, kept).1, at),
    decreases candidates.len(),
{
    if candidates.len() == 0 {
        assert(kept + legal_among(base, candidates) =~= kept);
    } else {
        let mv = candidates[0];
        let rest = candidates.drop_first();
        lemma_rights_apart(at, base, mv);
        lemma_undo_restores(at, mv);
        lemma_move_keeps_well_formed(at, mv);
        let moved = at.after_move(mv);
        let turned = moved.passed();
        assert(turned.passed() == moved);
        lemma_check_outcome(turned);
        let (found, tested) = turned.check_outcome();
        let in_check = some_takes_king(moved, pseudo_legal_moves(moved, true));
        assert(found == Ok::<bool, MoveError>(in_check));
        lemma_captures_apart(moved, base.after_move(mv));
        lemma_takes_king_apart(moved, base.after_move(mv), pseudo_legal_moves(moved, true));
        assert(in_check == exposes_king(base, mv));
        let unpassed = tested.passed();
        assert(same_but_rights(unpassed, moved));
        lemma_same_boards(unpassed, moved);
        lemma_rights_kept(unpassed, moved, at.record_of(mv));
        let back = unpassed.before_move(at.record_of(mv));
        assert(same_but_rights(back, base));
        assert(rights_within(back, at));
        let held = if in_check {
            kept
        } else {
            kept.push(mv)
        };
        assert forall|i: int| 0 <= i < rest.len() implies movable(base, #[trigger] rest[i])
            && rook_in_corner(base, rest[i]) by {
            assert(rest[i] == candidates[i + 1]);
        }
        lemma_sifted(back, base, rest, held);
        assert(held + legal_among(base, rest) =~= kept + legal_among(base, candidates));
    }
}

/// Wherever the side to move could castle, its rook stands in the corner.
pub open spec fn castles_in_order(pos: Position) -> bool {
    forall|i: int|
        0 <= i < candidate_moves(pos).len() ==> rook_in_corner(
            pos,
            #[trigger] candidate_moves(pos)[i],
        )
}

/// Generating the legal moves of a well-formed position in which castling
/// finds its rook: it ends without an error; the moves it appends are
/// exactly the pseudo-legal moves, captures first, that do not leave a king
/// of the mover open to capture; and it leaves the position as it was but
/// for castling rights it may have cleared.
pub proof fn lemma_legal_outcome(pos: Position, kept: Seq<Move>)
    requires
        pos.well_formed(),
        castles_in_order(pos),
    ensures
        legal_outcome(pos, kept).0 is Ok,
        legal_outcome(pos, kept).2 == kept + legal_among(pos, candidate_moves(pos)),
        same_but_rights(legal_outcome(pos, kept).1, pos),
        rights_within(legal_outcome(pos, kept).1, pos),
{
    let candidates = candidate_moves(pos);
    lemma_pseudo_legal_playable(pos, true);
    lemma_pseudo_legal_playable(pos, false);
    let captures = pseudo_legal_moves(pos, true);
    assert forall|i: int| 0 <= i < candidates.len() implies movable(
        pos,
        #[trigger] candidates[i],
    ) && rook_in_corner(pos, candidates[i]) by {
        if i < captures.len() {
            assert(fits(pos, captures[i], true));
        } else {
            assert(fits(pos, pseudo_legal_moves(pos, false)[i - captures.len()], false));
        }
    }
    lemma_sifted(pos, pos, candidates, kept);
}

/// Every move kept among the candidates is one of the candidates.
pub proof fn lemma_legal_among_candidates(pos: Position, candidates: Seq<Move>)
    ensures
        forall|i: int|
            0 <= i < legal_among(pos, candidates).len() ==> candidates.contains(
                #[trigger] legal_among(pos, candidates)[i],
            ),
    decreases candidates.len(),
{
    if candidates.len() > 0 {
        let rest = candidates.drop_first();
        lemma_legal_among_candidates(pos, rest);
        let kept = legal_among(pos, candidates);
        assert forall|i: int| 0 <= i < kept.len() implies candidates.contains(
            #[trigger] kept[i],
        ) by {
            if !exposes_king(pos, candidates[0]) && i == 0 {
                assert(candidates[0] == kept[0]);
            } else {
                let j = if exposes_king(pos, candidates[0]) {
                    i
                } else {
                    i - 1
                };
                assert(kept[i] == legal_among(pos, rest)[j]);
                let k = choose|k: int| 0 <= k < rest.len() && rest[k] == kept[i];
                assert(candidates[k + 1] == kept[i]);
            }
        }
    }
}

/// A root without a legal move, on a well-formed position with no
/// en-passant target in which castling finds its rook: the search returns
/// without an error, with the lost score where one of the opponent's
/// pseudo-legal captures leaves fewer than two kings on the board and with
/// 0 where none does, whatever the window and whatever the cancel flag
/// holds. It counts one node, looks at no flag, and leaves the position as
/// it was but for castling rights it may have cleared.
pub proof fn lemma_mate_or_stalemate(
    pos: Position,
    depth: int,
    alpha: Score,
    beta: Score,
    counted: u32,
    clear: nat,
)
    requires
        depth >= 1,
        pos.well_formed(),
        pos.en_passant_target.is_none(),
        castles_in_order(pos),
        legal_among(pos, candidate_moves(pos)).len() == 0,
    ensures
        ({
            let whole = searched(pos, depth, true, alpha, beta, counted, clear);
            &&& whole.result == Ok::<(Score, Option<Seq<Move>>), MoveError>(
                (
                    if some_takes_king(pos.passed(), pseudo_legal_moves(pos.passed(), true)) {
                        Score::NegInfinity
                    } else {
                        Score::Finite(0)
                    },
                    None,
                ),
            )
            &&& same_but_rights(whole.pos, pos)
            &&& rights_within(whole.pos, pos)
            &&& whole.counted == bumped(counted, 1)
            &&& whole.cleared == 0
            &&& !whole.cut
        }),
{
    lemma_legal_outcome(pos, Seq::empty());
    let at = legal_outcome(pos, Seq::empty()).1;
    assert(legal_outcome(pos, Seq::empty()).2 =~= legal_among(pos, candidate_moves(pos)));
    lemma_searched(pos, depth, true, alpha, beta, counted, clear);
    lemma_same_boards(at.passed(), pos);
    lemma_same_boards(pos.passed(), pos);
    assert(at.passed().well_formed());
    lemma_check_outcome(at);
    lemma_captures_apart(at.passed(), pos.passed());
    lemma_takes_king_apart(at.passed(), pos.passed(), pseudo_legal_moves(at.passed(), true));
}

/// Trying, one ply deep, moves that the board admits, castling only with
/// the rook in its corner: the trial ends without an error and leaves the
/// position as it was but for castling rights it may have cleared, whatever
/// the window and whatever the cancel flag holds.
pub proof fn lemma_tried_one_ply(
    at: Position,
    base: Position,
    moves: Seq<Move>,
    i: int,
    alpha: Score,
    beta: Score,
    best: Option<Seq<Move>>,
    counted: u32,
    cleared: nat,
    clear: nat,
)
    requires
        base.well_formed(),
        same_but_rights(at, base),
        0 <= i <= moves.len(),
        forall|j: int|
            0 <= j < moves.len() ==> movable(base, #[trigger] moves[j]) && rook_in_corner(
                base,
                moves[j],
            ),
    ensures
        tried(at, moves, i, 1, alpha, beta, best, counted, cleared, clear).result is Ok,
        same_but_rights(
            tried(at, moves, i, 1, alpha, beta, best, counted, cleared, clear).pos,
            base,
        ),
        rights_within(tried(at, moves, i, 1, alpha, beta, best, counted, cleared, clear).pos, at),
    decreases moves.len() - i,
{
    lemma_tried(at, moves, i, 1, alpha, beta, best, counted, cleared, clear);
    if i < moves.len() {
        let mv = moves[i];
        lemma_rights_apart(at, base, mv);
        lemma_undo_restores(at, mv);
        let moved = at.after_move(mv);
        let child = answer(at, moves, i, 1, alpha, beta, counted, clear);
        lemma_searched(moved, 0, false, beta.negated(), alpha.negated(), counted, clear);
        assert(child.pos == moved);
        let back = moved.before_move(at.record_of(mv));
        assert(same_but_rights(back, base));
        match trial(at, mv, child, alpha, beta, best, counted, cleared, clear) {
            Trial::Over(end) => {},
            Trial::Next { pos: next, alpha: raised, best: line, cleared: looked } => {
                lemma_tried_one_ply(
                    next,
                    base,
                    moves,
                    i + 1,
                    raised,
                    beta,
                    line,
                    child.counted,
                    looked,
                    (clear - child.cleared - 1) as nat,
                );
            },
        }
    }
}

/// The search of a root one ply deep, on a well-formed position with no
/// en-passant target in which castling finds its rook: it returns without
/// an error and leaves the position as it was but for castling rights it
/// may have cleared, whatever the window and whatever the cancel flag
/// holds. Deeper searches give no such promise: a line in which a rook is
/// taken in its corner while the right to castle stays leads to a castling
/// that puts a rook on the board.
pub proof fn lemma_one_ply_gives_back(
    pos: Position,
    alpha: Score,
    beta: Score,
    counted: u32,
    clear: nat,
)
    requires
        pos.well_formed(),
        pos.en_passant_target.is_none(),
        castles_in_order(pos),
    ensures
        searched(pos, 1, true, alpha, beta, counted, clear).result is Ok,
        same_but_rights(searched(pos, 1, true, alpha, beta, counted, clear).pos, pos),
        rights_within(searched(pos, 1, true, alpha, beta, counted, clear).pos, pos),
{
    let kept = legal_among(pos, candidate_moves(pos));
    if kept.len() == 0 {
        lemma_mate_or_stalemate(pos, 1, alpha, beta, counted, clear);
    } else {
        lemma_legal_outcome(pos, Seq::empty());
        let at = legal_outcome(pos, Seq::empty()).1;
        assert(legal_outcome(pos, Seq::empty()).2 =~= kept);
        lemma_searched(pos, 1, true, alpha, beta, counted, clear);
        lemma_legal_among_candidates(pos, candidate_moves(pos));
        lemma_pseudo_legal_playable(pos, true);
        lemma_pseudo_legal_playable(pos, false);
        let candidates = candidate_moves(pos);
        let captures = pseudo_legal_moves(pos, true);
        assert forall|j: int| 0 <= j < kept.len() implies movable(pos, #[trigger] kept[j])
            && rook_in_corner(pos, kept[j]) by {
            let k = choose|k: int| 0 <= k < candidates.len() && candidates[k] == kept[j];
            if k < captures.len() {
                assert(fits(pos, captures[k], true));
            } else {
                assert(fits(pos, pseudo_legal_moves(pos, false)[k - captures.len()], false));
            }
            assert(rook_in_corner(pos, candidates[k]));
        }
        lemma_tried_one_ply(at, pos, kept, 0, alpha, beta, None, bumped(counted, 1), 0, clear);
    }
}

/// The search of a root one ply deep under a flag that is set at the first
/// look, on a well-formed position with no en-passant target in which
/// castling finds its rook and which has a legal move: it returns the
/// value that stands for a cancelled search, not an error, after the first
/// move was tried and reverted.
pub proof fn lemma_one_ply_cancelled(pos: Position, alpha: Score, beta: Score, counted: u32)
    requires
        pos.well_formed(),
        pos.en_passant_target.is_none(),
        castles_in_order(pos),
        legal_among(pos, candidate_moves(pos)).len() > 0,
    ensures
        searched(pos, 1, true, alpha, beta, counted, 0).result == Ok::<
            (Score, Option<Seq<Move>>),
            MoveError,
        >((Score::NegInfinity, None)),
        searched(pos, 1, true, alpha, beta, counted, 0).cut,
        searched(pos, 1, true, alpha, beta, counted, 0).cleared == 0,
        same_but_rights(searched(pos, 1, true, alpha, beta, counted, 0).pos, pos),
{
    let kept = legal_among(pos, candidate_moves(pos));
    lemma_legal_outcome(pos, Seq::empty());
    let at = legal_outcome(pos, Seq::empty()).1;
    assert(legal_outcome(pos, Seq::empty()).2 =~= kept);
    lemma_searched(pos, 1, true, alpha, beta, counted, 0);
    lemma_one_ply_gives_back(pos, alpha, beta, counted, 0);
    lemma_legal_among_candidates(pos, candidate_moves(pos));
    lemma_pseudo_legal_playable(pos, true);
    lemma_pseudo_legal_playable(pos, false);
    let candidates = candidate_moves(pos);
    let captures = pseudo_legal_moves(pos, true);
    let mv = kept[0];
    let k = choose|k: int| 0 <= k < candidates.len() && candidates[k] == mv;
    if k < captures.len() {
        assert(fits(pos, captures[k], true));
    } else {
        assert(fits(pos, pseudo_legal_moves(pos, false)[k - captures.len()], false));
    }
    assert(rook_in_corner(pos, candidates[k]));
    lemma_rights_apart(at, pos, mv);
    lemma_undo_restores(at, mv);
    lemma_tried(at, kept, 0, 1, alpha, beta, None, bumped(counted, 1), 0, 0);
    lemma_searched(
        at.after_move(mv),
        0,
        false,
        beta.negated(),
        alpha.negated(),
        bumped(counted, 1),
        0,
    );
}

} // verus!
