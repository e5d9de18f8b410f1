//! How many pseudo-legal moves a position can have.

use vstd::prelude::*;
use crate::square::Square;
use crate::piece::PieceType;
use crate::bitboard::lemma_squares_len;
use crate::position::Position;
use crate::moves::{
    step_moves, step_open, ray_moves, rook_moves, bishop_moves, knight_moves, pawn_moves,
    king_steps, king_moves, piece_moves, group_moves, kind_moves, pseudo_legal_moves,
};

verus! {

/// No piece has more moves than this.
pub open spec fn piece_move_limit() -> int {
    56
}

/// No position has more pseudo-legal moves of one mode than this.
pub open spec fn move_limit() -> int {
    21504
}

proof fn lemma_step_count(pos: Position, src: Square, dest: Square, capture: bool)
    ensures
        step_moves(pos, src, dest, capture).len() <= 1,
{
    reveal(step_moves);
}

proof fn lemma_ray_count(pos: Position, src: Square, dr: int, df: int, capture: bool, k: int)
    requires
        1 <= k <= 8,
    ensures
        ray_moves(pos, src, dr, df, capture, k).len() <= 8 - k,
    decreases 8 - k,
{
    if k < 8 {
        lemma_step_count(pos, src, src.offset(k * dr, k * df), capture);
        if step_open(pos, src.offset(k * dr, k * df)) {
            lemma_ray_count(pos, src, dr, df, capture, k + 1);
        }
    }
}

proof fn lemma_rook_count(pos: Position, src: Square, capture: bool)
    ensures
        rook_moves(pos, src, capture).len() <= 28,
{
    lemma_ray_count(pos, src, 0, 1, capture, 1);
    lemma_ray_count(pos, src, 0, -1, capture, 1);
    lemma_ray_count(pos, src, 1, 0, capture, 1);
    lemma_ray_count(pos, src, -1, 0, capture, 1);
}

proof fn lemma_bishop_count(pos: Position, src: Square, capture: bool)
    ensures
        bishop_moves(pos, src, capture).len() <= 28,
{
    lemma_ray_count(pos, src, 1, 1, capture, 1);
    lemma_ray_count(pos, src, -1, -1, capture, 1);
    lemma_ray_count(pos, src, -1, 1, capture, 1);
    lemma_ray_count(pos, src, 1, -1, capture, 1);
}

proof fn lemma_knight_count(pos: Position, src: Square, capture: bool)
    ensures
        knight_moves(pos, src, capture).len() <= 8,
{
    lemma_step_count(pos, src, src.offset(2, 1), capture);
    lemma_step_count(pos, src, src.offset(2, -1), capture);
    lemma_step_count(pos, src, src.offset(-2, 1), capture);
    lemma_step_count(pos, src, src.offset(-2, -1), capture);
    lemma_step_count(pos, src, src.offset(1, 2), capture);
    lemma_step_count(pos, src, src.offset(-1, 2), capture);
    lemma_step_count(pos, src, src.offset(1, -2), capture);
    lemma_step_count(pos, src, src.offset(-1, -2), capture);
}

proof fn lemma_king_count(pos: Position, src: Square, capture: bool)
    ensures
        king_moves(pos, src, capture).len() <= 10,
{
    lemma_step_count(pos, src, src.offset(0, 1), capture);
    lemma_step_count(pos, src, src.offset(0, -1), capture);
    lemma_step_count(pos, src, src.offset(1, 0), capture);
    lemma_step_count(pos, src, src.offset(-1, 0), capture);
    lemma_step_count(pos, src, src.offset(1, 1), capture);
    lemma_step_count(pos, src, src.offset(-1, -1), capture);
    lemma_step_count(pos, src, src.offset(1, -1), capture);
    lemma_step_count(pos, src, src.offset(-1, 1), capture);
    assert(king_steps(pos, src, capture).len() <= 8);
}

proof fn lemma_pawn_count(pos: Position, src: Square, capture: bool)
    ensures
        pawn_moves(pos, src, capture).len() <= 4,
{
    let direction = crate::moves::pawn_direction(pos, src);
    let ahead = src.offset(direction, 0);
    lemma_step_count(pos, src, src.offset(direction, 1), true);
    lemma_step_count(pos, src, src.offset(direction, -1), true);
    lemma_step_count(pos, src, ahead, false);
    lemma_step_count(pos, src, ahead.offset(direction, 0), false);
}

/// No piece has more than 56 moves.
pub proof fn lemma_piece_count(pos: Position, kind: PieceType, src: Square, capture: bool)
    ensures
        piece_moves(pos, kind, src, capture).len() <= piece_move_limit(),
{
    lemma_rook_count(pos, src, capture);
    lemma_bishop_count(pos, src, capture);
    lemma_knight_count(pos, src, capture);
    lemma_king_count(pos, src, capture);
    lemma_pawn_count(pos, src, capture);
}

proof fn lemma_group_count(pos: Position, kind: PieceType, squares: Seq<Square>, capture: bool)
    ensures
        group_moves(pos, kind, squares, capture).len() <= piece_move_limit() * squares.len(),
    decreases squares.len(),
{
    if squares.len() > 0 {
        lemma_piece_count(pos, kind, squares[0], capture);
        lemma_group_count(pos, kind, squares.drop_first(), capture);
    }
}

proof fn lemma_kind_count(pos: Position, kind: PieceType, capture: bool)
    ensures
        kind_moves(pos, kind, capture).len() <= 3584,
{
    reveal(kind_moves);
    let own = pos.type_board(kind).spec_intersect(pos.color_board(pos.white_to_play));
    lemma_squares_len(own);
    lemma_group_count(pos, kind, own.squares(), capture);
}

/// A position has at most 21504 pseudo-legal moves of either mode: at most
/// 56 for each of at most 64 squares, for each of the six kinds.
pub proof fn lemma_pseudo_legal_count(pos: Position, capture: bool)
    ensures
        pseudo_legal_moves(pos, capture).len() <= move_limit(),
{
    lemma_kind_count(pos, PieceType::Queen, capture);
    lemma_kind_count(pos, PieceType::Knight, capture);
    lemma_kind_count(pos, PieceType::Rook, capture);
    lemma_kind_count(pos, PieceType::Bishop, capture);
    lemma_kind_count(pos, PieceType::Pawn, capture);
    lemma_kind_count(pos, PieceType::King, capture);
}

} // verus!
