//! What holds of every pseudo-legal move of a well-formed position.

use vstd::prelude::*;
use crate::square::Square;
use crate::piece::{Piece, PieceType};
use crate::bitboard::{lemma_squares_members, lemma_intersect_contains, lemma_union_contains};
use crate::position::{Position, two_apart, lemma_piece_at_valid};
use crate::moves::{
    Move, plain_move, step_moves, step_open, ray_moves, rook_moves, bishop_moves, queen_moves,
    knight_moves, pawn_moves, pawn_direction, en_passant_moves, promotions, castle_moves,
    king_steps, king_moves, piece_moves, group_moves, kind_moves, pseudo_legal_moves,
};

verus! {

impl Position {
    /// The direction in which the side to move advances its pawns.
    pub open spec fn forward(self) -> int {
        if self.white_to_play {
            1
        } else {
            -1
        }
    }

    /// The en-passant target, where one is set, is the square of a pawn of
    /// the side that has just moved, which stands two ranks from its home
    /// rank with the square it passed over still empty.
    pub open spec fn target_in_order(self) -> bool {
        match self.en_passant_target {
            Some(target) => {
                &&& target.valid()
                &&& target.rank == (if self.white_to_play {
                    4int
                } else {
                    3int
                })
                &&& self.piece_at(target) == Some(
                    Piece { is_white: !self.white_to_play, p_type: PieceType::Pawn },
                )
                &&& self.piece_at(target.offset(self.forward(), 0)).is_none()
            },
            None => true,
        }
    }

    /// The invariant of the positions of a game: the boards agree with each
    /// other and the en-passant target is in order.
    pub open spec fn well_formed(self) -> bool {
        self.consistent() && self.target_in_order()
    }

    /// A piece of the given kind, owned by the side to move, stands on `src`.
    pub open spec fn owns(self, src: Square, kind: PieceType) -> bool {
        src.valid() && self.piece_at(src) == Some(
            Piece { is_white: self.white_to_play, p_type: kind },
        )
    }

    /// The castling rights of the side to move.
    pub open spec fn own_rights(self) -> crate::position::CastleState {
        if self.white_to_play {
            self.white_castle_state
        } else {
            self.black_castle_state
        }
    }
}

/// A pawn of the side to move may make this move: one step ahead to an empty
/// square, promoting exactly on a back rank; two steps ahead from its home
/// rank over empty squares; or one step diagonally ahead, onto an occupied
/// square or past the en-passant target.
pub open spec fn pawn_playable(pos: Position, mv: Move) -> bool {
    let forward = pos.forward();
    let home: int = if pos.white_to_play {
        1
    } else {
        6
    };
    let vacant = pos.piece_at(mv.dest).is_none();
    ||| {
        &&& mv.dest.file == mv.src.file
        &&& mv.dest.rank == mv.src.rank + forward
        &&& vacant
        &&& mv.promotion.is_some() <==> (mv.dest.rank == 0 || mv.dest.rank == 7)
    }
    ||| {
        &&& mv.dest.file == mv.src.file
        &&& mv.dest.rank == mv.src.rank + 2 * forward
        &&& mv.src.rank == home
        &&& vacant
        &&& pos.piece_at(mv.src.offset(forward, 0)).is_none()
        &&& mv.promotion.is_none()
    }
    ||| {
        &&& mv.dest.file == mv.src.file + 1 || mv.dest.file == mv.src.file - 1
        &&& mv.dest.rank == mv.src.rank + forward
        &&& mv.promotion.is_none()
        &&& !vacant || match pos.en_passant_target {
            Some(target) => target.rank == mv.src.rank && target.file == mv.dest.file,
            None => false,
        }
    }
}

/// The room that castling needs: the king starts from rank 0, file 4 and
/// moves along the rank, and every square between king and corner is empty.
pub open spec fn castle_room(pos: Position, mv: Move) -> bool {
    let rank = mv.src.rank;
    &&& mv.src == Square { rank: 0, file: 4 }
    &&& mv.dest.rank == rank
    &&& mv.promotion.is_none()
    &&& if mv.dest.file > mv.src.file {
        &&& pos.piece_at(Square { rank, file: 5 }).is_none()
        &&& pos.piece_at(Square { rank, file: 6 }).is_none()
    } else {
        &&& pos.piece_at(Square { rank, file: 1 }).is_none()
        &&& pos.piece_at(Square { rank, file: 2 }).is_none()
        &&& pos.piece_at(Square { rank, file: 3 }).is_none()
    }
}

/// The side to move still holds the castling right towards the side that
/// the move goes to.
pub open spec fn castle_right_held(pos: Position, mv: Move) -> bool {
    if mv.dest.file > mv.src.file {
        pos.own_rights().can_short_castle
    } else {
        pos.own_rights().can_long_castle
    }
}

/// What the board asks of a move, whatever the castling rights: it starts on
/// a piece of the side to move and ends on the board, not on a piece of
/// that side; only pawns promote, and only to queen, rook, bishop or knight;
/// pawns move as pawns do, and a king crosses two files only with room to
/// castle.
pub open spec fn movable(pos: Position, mv: Move) -> bool {
    let piece = pos.piece_at(mv.src).unwrap();
    &&& mv.src.valid()
    &&& mv.dest.valid()
    &&& pos.piece_at(mv.src).is_some()
    &&& piece.is_white == pos.white_to_play
    &&& pos.piece_at(mv.dest).is_some() ==> pos.piece_at(mv.dest).unwrap().is_white
        != pos.white_to_play
    &&& match mv.promotion {
        Some(kind) => piece.p_type == PieceType::Pawn && kind != PieceType::Pawn && kind
            != PieceType::King,
        None => true,
    }
    &&& piece.p_type == PieceType::Pawn ==> pawn_playable(pos, mv)
    &&& piece.p_type == PieceType::King && two_apart(mv.src.file, mv.dest.file) ==> castle_room(
        pos,
        mv,
    )
}

/// What every pseudo-legal move of a well-formed position satisfies: the
/// board admits it, and where it castles the right to do so is still held.
pub open spec fn playable(pos: Position, mv: Move) -> bool {
    &&& movable(pos, mv)
    &&& pos.piece_at(mv.src).unwrap().p_type == PieceType::King && two_apart(
        mv.src.file,
        mv.dest.file,
    ) ==> castle_right_held(pos, mv)
}

/// The move takes something: it lands on a piece, or a pawn makes it.
pub open spec fn takes(pos: Position, mv: Move) -> bool {
    pos.piece_at(mv.dest).is_some() || pos.piece_at(mv.src) == Some(
        Piece { is_white: pos.white_to_play, p_type: PieceType::Pawn },
    )
}

/// The move is playable and, in capture mode, takes something.
pub open spec fn fits(pos: Position, mv: Move, capture: bool) -> bool {
    playable(pos, mv) && (capture ==> takes(pos, mv))
}

/// Every move of the sequence fits the mode.
pub open spec fn all_playable(pos: Position, moves: Seq<Move>, capture: bool) -> bool {
    forall|i: int| 0 <= i < moves.len() ==> fits(pos, #[trigger] moves[i], capture)
}

/// Every move of the sequence goes from `src` to a square of the board
/// without promoting: in capture mode onto a piece of the other side,
/// otherwise onto an empty square.
pub open spec fn all_steps(pos: Position, src: Square, moves: Seq<Move>, capture: bool) -> bool {
    forall|i: int|
        0 <= i < moves.len() ==> {
            let mv = #[trigger] moves[i];
            &&& mv.src == src
            &&& mv.promotion.is_none()
            &&& mv.dest.valid()
            &&& if capture {
                pos.piece_at(mv.dest).is_some() && pos.piece_at(mv.dest).unwrap().is_white
                    != pos.white_to_play
            } else {
                pos.piece_at(mv.dest).is_none()
            }
        }
}

proof fn lemma_occupied(pos: Position, s: Square)
    requires
        pos.consistent(),
    ensures
        pos.occupancy().contains(s) == pos.piece_at(s).is_some(),
        pos.piece_at(s).is_some() ==> (pos.white_pieces.contains(s) == pos.piece_at(
            s,
        ).unwrap().is_white),
        pos.piece_at(s).is_some() ==> (pos.black_pieces.contains(s) == !pos.piece_at(
            s,
        ).unwrap().is_white),
        pos.piece_at(s).is_none() ==> !pos.white_pieces.contains(s) && !pos.black_pieces.contains(s),
        pos.piece_at(s).is_some() ==> s.valid(),
{
    lemma_union_contains(pos.white_pieces, pos.black_pieces);
    lemma_piece_at_valid(pos, s);
    assert(pos.square_consistent(s));
}

proof fn lemma_step(pos: Position, src: Square, dest: Square, capture: bool, kind: PieceType)
    requires
        pos.consistent(),
        pos.owns(src, kind),
    ensures
        all_steps(pos, src, step_moves(pos, src, dest, capture), capture),
        forall|i: int|
            0 <= i < step_moves(pos, src, dest, capture).len() ==> (#[trigger] step_moves(
                pos,
                src,
                dest,
                capture,
            )[i]).dest == dest,
        step_moves(pos, src, dest, capture).len() <= 1,
{
    reveal(step_moves);
    lemma_occupied(pos, src);
    lemma_occupied(pos, dest);
}

proof fn lemma_ray(
    pos: Position,
    src: Square,
    dr: int,
    df: int,
    capture: bool,
    k: int,
    kind: PieceType,
)
    requires
        pos.consistent(),
        pos.owns(src, kind),
    ensures
        all_steps(pos, src, ray_moves(pos, src, dr, df, capture, k), capture),
    decreases 8 - k,
{
    if k < 8 {
        let dest = src.offset(k * dr, k * df);
        lemma_step(pos, src, dest, capture, kind);
        if step_open(pos, dest) {
            lemma_ray(pos, src, dr, df, capture, k + 1, kind);
        }
    }
}

proof fn lemma_steps_join(pos: Position, src: Square, a: Seq<Move>, b: Seq<Move>, capture: bool)
    requires
        all_steps(pos, src, a, capture),
        all_steps(pos, src, b, capture),
    ensures
        all_steps(pos, src, a + b, capture),
{
}

proof fn lemma_playable_join(pos: Position, a: Seq<Move>, b: Seq<Move>, capture: bool)
    requires
        all_playable(pos, a, capture),
        all_playable(pos, b, capture),
    ensures
        all_playable(pos, a + b, capture),
{
}

proof fn lemma_rook(pos: Position, src: Square, capture: bool, kind: PieceType)
    requires
        pos.consistent(),
        pos.owns(src, kind),
    ensures
        all_steps(pos, src, rook_moves(pos, src, capture), capture),
{
    lemma_ray(pos, src, 0, 1, capture, 1, kind);
    lemma_ray(pos, src, 0, -1, capture, 1, kind);
    lemma_ray(pos, src, 1, 0, capture, 1, kind);
    lemma_ray(pos, src, -1, 0, capture, 1, kind);
    let a = ray_moves(pos, src, 0, 1, capture, 1);
    let b = ray_moves(pos, src, 0, -1, capture, 1);
    let c = ray_moves(pos, src, 1, 0, capture, 1);
    let d = ray_moves(pos, src, -1, 0, capture, 1);
    lemma_steps_join(pos, src, a, b, capture);
    lemma_steps_join(pos, src, a + b, c, capture);
    lemma_steps_join(pos, src, a + b + c, d, capture);
}

proof fn lemma_bishop(pos: Position, src: Square, capture: bool, kind: PieceType)
    requires
        pos.consistent(),
        pos.owns(src, kind),
    ensures
        all_steps(pos, src, bishop_moves(pos, src, capture), capture),
{
    lemma_ray(pos, src, 1, 1, capture, 1, kind);
    lemma_ray(pos, src, -1, -1, capture, 1, kind);
    lemma_ray(pos, src, -1, 1, capture, 1, kind);
    lemma_ray(pos, src, 1, -1, capture, 1, kind);
    let a = ray_moves(pos, src, 1, 1, capture, 1);
    let b = ray_moves(pos, src, -1, -1, capture, 1);
    let c = ray_moves(pos, src, -1, 1, capture, 1);
    let d = ray_moves(pos, src, 1, -1, capture, 1);
    lemma_steps_join(pos, src, a, b, capture);
    lemma_steps_join(pos, src, a + b, c, capture);
    lemma_steps_join(pos, src, a + b + c, d, capture);
}

proof fn lemma_knight(pos: Position, src: Square, capture: bool)
    requires
        pos.consistent(),
        pos.owns(src, PieceType::Knight),
    ensures
        all_steps(pos, src, knight_moves(pos, src, capture), capture),
{
    let kind = PieceType::Knight;
    let one = step_moves(pos, src, src.offset(2, 1), capture);
    let two = step_moves(pos, src, src.offset(2, -1), capture);
    let three = step_moves(pos, src, src.offset(-2, 1), capture);
    let four = step_moves(pos, src, src.offset(-2, -1), capture);
    let five = step_moves(pos, src, src.offset(1, 2), capture);
    let six = step_moves(pos, src, src.offset(-1, 2), capture);
    let seven = step_moves(pos, src, src.offset(1, -2), capture);
    let eight = step_moves(pos, src, src.offset(-1, -2), capture);
    lemma_step(pos, src, src.offset(2, 1), capture, kind);
    lemma_step(pos, src, src.offset(2, -1), capture, kind);
    lemma_step(pos, src, src.offset(-2, 1), capture, kind);
    lemma_step(pos, src, src.offset(-2, -1), capture, kind);
    lemma_step(pos, src, src.offset(1, 2), capture, kind);
    lemma_step(pos, src, src.offset(-1, 2), capture, kind);
    lemma_step(pos, src, src.offset(1, -2), capture, kind);
    lemma_step(pos, src, src.offset(-1, -2), capture, kind);
    lemma_steps_join(pos, src, one, two, capture);
    lemma_steps_join(pos, src, one + two, three, capture);
    lemma_steps_join(pos, src, one + two + three, four, capture);
    lemma_steps_join(pos, src, one + two + three + four, five, capture);
    lemma_steps_join(pos, src, one + two + three + four + five, six, capture);
    lemma_steps_join(pos, src, one + two + three + four + five + six, seven, capture);
    lemma_steps_join(pos, src, one + two + three + four + five + six + seven, eight, capture);
}

/// Every move of the sequence ends within one file of where it starts.
spec fn all_near(moves: Seq<Move>) -> bool {
    forall|i: int|
        0 <= i < moves.len() ==> !two_apart((#[trigger] moves[i]).src.file, moves[i].dest.file)
}

proof fn lemma_king_step(pos: Position, src: Square, dr: int, df: int, capture: bool)
    requires
        pos.consistent(),
        pos.owns(src, PieceType::King),
        -1 <= dr <= 1,
        -1 <= df <= 1,
    ensures
        all_steps(pos, src, step_moves(pos, src, src.offset(dr, df), capture), capture),
        all_near(step_moves(pos, src, src.offset(dr, df), capture)),
{
    lemma_step(pos, src, src.offset(dr, df), capture, PieceType::King);
}

proof fn lemma_near_join(a: Seq<Move>, b: Seq<Move>)
    requires
        all_near(a),
        all_near(b),
    ensures
        all_near(a + b),
{
}

proof fn lemma_king_steps(pos: Position, src: Square, capture: bool)
    requires
        pos.consistent(),
        pos.owns(src, PieceType::King),
    ensures
        all_steps(pos, src, king_steps(pos, src, capture), capture),
        all_near(king_steps(pos, src, capture)),
{
    let one = step_moves(pos, src, src.offset(0, 1), capture);
    let two = step_moves(pos, src, src.offset(0, -1), capture);
    let three = step_moves(pos, src, src.offset(1, 0), capture);
    let four = step_moves(pos, src, src.offset(-1, 0), capture);
    let five = step_moves(pos, src, src.offset(1, 1), capture);
    let six = step_moves(pos, src, src.offset(-1, -1), capture);
    let seven = step_moves(pos, src, src.offset(1, -1), capture);
    let eight = step_moves(pos, src, src.offset(-1, 1), capture);
    lemma_king_step(pos, src, 0, 1, capture);
    lemma_king_step(pos, src, 0, -1, capture);
    lemma_king_step(pos, src, 1, 0, capture);
    lemma_king_step(pos, src, -1, 0, capture);
    lemma_king_step(pos, src, 1, 1, capture);
    lemma_king_step(pos, src, -1, -1, capture);
    lemma_king_step(pos, src, 1, -1, capture);
    lemma_king_step(pos, src, -1, 1, capture);
    lemma_steps_join(pos, src, one, two, capture);
    lemma_steps_join(pos, src, one + two, three, capture);
    lemma_steps_join(pos, src, one + two + three, four, capture);
    lemma_steps_join(pos, src, one + two + three + four, five, capture);
    lemma_steps_join(pos, src, one + two + three + four + five, six, capture);
    lemma_steps_join(pos, src, one + two + three + four + five + six, seven, capture);
    lemma_steps_join(pos, src, one + two + three + four + five + six + seven, eight, capture);
    lemma_near_join(one, two);
    lemma_near_join(one + two, three);
    lemma_near_join(one + two + three, four);
    lemma_near_join(one + two + three + four, five);
    lemma_near_join(one + two + three + four + five, six);
    lemma_near_join(one + two + three + four + five + six, seven);
    lemma_near_join(one + two + three + four + five + six + seven, eight);
}

/// Steps of a piece that is no pawn, and of a king within one file, are
/// playable.
proof fn lemma_steps_playable(
    pos: Position,
    src: Square,
    moves: Seq<Move>,
    capture: bool,
    kind: PieceType,
)
    requires
        pos.consistent(),
        pos.owns(src, kind),
        kind != PieceType::Pawn,
        kind == PieceType::King ==> all_near(moves),
        all_steps(pos, src, moves, capture),
    ensures
        all_playable(pos, moves, capture),
{
    assert forall|i: int| 0 <= i < moves.len() implies fits(pos, #[trigger] moves[i], capture) by {
        let mv = moves[i];
        assert(!two_apart(mv.src.file, mv.dest.file) || kind != PieceType::King);
    }
}

proof fn lemma_castle(pos: Position, src: Square, dest: Square)
    requires
        pos.consistent(),
        pos.owns(src, PieceType::King),
        src == (Square { rank: 0, file: 4 }),
        dest == src.offset(0, 2) || dest == src.offset(0, -2),
    ensures
        all_playable(pos, castle_moves(pos, src, dest), false),
{
    let moves = castle_moves(pos, src, dest);
    lemma_occupied(pos, src);
    lemma_occupied(pos, src.offset(0, 1));
    lemma_occupied(pos, src.offset(0, 2));
    lemma_occupied(pos, src.offset(0, -1));
    lemma_occupied(pos, src.offset(0, -2));
    lemma_occupied(pos, src.offset(0, -3));
    assert forall|i: int| 0 <= i < moves.len() implies fits(pos, #[trigger] moves[i], false) by {
        let mv = moves[i];
        assert(mv == plain_move(src, dest));
        assert(castle_room(pos, mv));
        assert(castle_right_held(pos, mv));
    }
}

proof fn lemma_king(pos: Position, src: Square, capture: bool)
    requires
        pos.consistent(),
        pos.owns(src, PieceType::King),
    ensures
        all_playable(pos, king_moves(pos, src, capture), capture),
{
    lemma_king_steps(pos, src, capture);
    lemma_steps_playable(pos, src, king_steps(pos, src, capture), capture, PieceType::King);
    if !capture && src.rank == 0 && src.file == 4 {
        lemma_castle(pos, src, src.offset(0, 2));
        lemma_castle(pos, src, src.offset(0, -2));
        lemma_playable_join(
            pos,
            king_steps(pos, src, capture),
            castle_moves(pos, src, src.offset(0, 2)), capture);
        lemma_playable_join(
            pos,
            king_steps(pos, src, capture) + castle_moves(pos, src, src.offset(0, 2)),
            castle_moves(pos, src, src.offset(0, -2)), capture);
    }
}

proof fn lemma_pawn(pos: Position, src: Square, capture: bool)
    requires
        pos.well_formed(),
        pos.owns(src, PieceType::Pawn),
    ensures
        all_playable(pos, pawn_moves(pos, src, capture), capture),
{
    let kind = PieceType::Pawn;
    let direction = pawn_direction(pos, src);
    lemma_occupied(pos, src);
    assert(direction == pos.forward());
    let ahead = src.offset(direction, 0);
    let moves = pawn_moves(pos, src, capture);
    lemma_occupied(pos, ahead);
    if capture {
        let right = src.offset(direction, 1);
        let left = src.offset(direction, -1);
        lemma_step(pos, src, right, true, kind);
        lemma_step(pos, src, left, true, kind);
        let a = step_moves(pos, src, right, true);
        let b = step_moves(pos, src, left, true);
        let c = en_passant_moves(pos, src);
        assert(all_playable(pos, a, capture)) by {
            assert forall|i: int| 0 <= i < a.len() implies fits(pos, #[trigger] a[i], capture) by {
                assert(pawn_playable(pos, a[i]));
            }
        }
        assert(all_playable(pos, b, capture)) by {
            assert forall|i: int| 0 <= i < b.len() implies fits(pos, #[trigger] b[i], capture) by {
                assert(pawn_playable(pos, b[i]));
            }
        }
        assert(all_playable(pos, c, capture)) by {
            assert forall|i: int| 0 <= i < c.len() implies fits(pos, #[trigger] c[i], capture) by {
                let target = pos.en_passant_target.unwrap();
                let mv = c[i];
                assert(mv == plain_move(src, target.offset(direction, 0)));
                assert(pawn_playable(pos, mv));
            }
        }
        lemma_playable_join(pos, a, b, capture);
        lemma_playable_join(pos, a + b, c, capture);
    } else if ahead.rank == 7 || ahead.rank == 0 {
        assert forall|i: int| 0 <= i < moves.len() implies fits(pos, #[trigger] moves[i], capture) by {
            let mv = moves[i];
            assert(moves == promotions(src, ahead));
            assert(mv.src == src && mv.dest == ahead && mv.promotion.is_some());
            assert(pawn_playable(pos, mv));
        }
    } else {
        let further = ahead.offset(direction, 0);
        lemma_step(pos, src, ahead, false, kind);
        lemma_step(pos, src, further, false, kind);
        let a = step_moves(pos, src, ahead, false);
        let b = step_moves(pos, src, further, false);
        assert(all_playable(pos, a, capture)) by {
            assert forall|i: int| 0 <= i < a.len() implies fits(pos, #[trigger] a[i], capture) by {
                assert(pawn_playable(pos, a[i]));
            }
        }
        if step_open(pos, ahead) && (src.rank == 1 || src.rank == 6) {
            assert(all_playable(pos, b, capture)) by {
                assert forall|i: int| 0 <= i < b.len() implies fits(pos, #[trigger] b[i], capture) by {
                    assert(b[i].dest == further);
                    assert(pawn_playable(pos, b[i]));
                }
            }
            lemma_playable_join(pos, a, b, capture);
        }
    }
}

proof fn lemma_piece(pos: Position, kind: PieceType, src: Square, capture: bool)
    requires
        pos.well_formed(),
        pos.owns(src, kind),
    ensures
        all_playable(pos, piece_moves(pos, kind, src, capture), capture),
{
    match kind {
        PieceType::Queen => {
            lemma_rook(pos, src, capture, kind);
            lemma_bishop(pos, src, capture, kind);
            lemma_steps_join(
                pos,
                src,
                rook_moves(pos, src, capture),
                bishop_moves(pos, src, capture),
                capture,
            );
            lemma_steps_playable(pos, src, queen_moves(pos, src, capture), capture, kind);
        },
        PieceType::Knight => {
            lemma_knight(pos, src, capture);
            lemma_steps_playable(pos, src, knight_moves(pos, src, capture), capture, kind);
        },
        PieceType::Rook => {
            lemma_rook(pos, src, capture, kind);
            lemma_steps_playable(pos, src, rook_moves(pos, src, capture), capture, kind);
        },
        PieceType::Bishop => {
            lemma_bishop(pos, src, capture, kind);
            lemma_steps_playable(pos, src, bishop_moves(pos, src, capture), capture, kind);
        },
        PieceType::Pawn => {
            lemma_pawn(pos, src, capture);
        },
        PieceType::King => {
            lemma_king(pos, src, capture);
        },
    }
}

proof fn lemma_group(pos: Position, kind: PieceType, squares: Seq<Square>, capture: bool)
    requires
        pos.well_formed(),
        forall|i: int| 0 <= i < squares.len() ==> pos.owns(#[trigger] squares[i], kind),
    ensures
        all_playable(pos, group_moves(pos, kind, squares, capture), capture),
    decreases squares.len(),
{
    if squares.len() > 0 {
        lemma_piece(pos, kind, squares[0], capture);
        let rest = squares.drop_first();
        assert forall|i: int| 0 <= i < rest.len() implies pos.owns(#[trigger] rest[i], kind) by {
            assert(rest[i] == squares[i + 1]);
        }
        lemma_group(pos, kind, rest, capture);
        lemma_playable_join(
            pos,
            piece_moves(pos, kind, squares[0], capture),
            group_moves(pos, kind, rest, capture), capture);
    }
}

proof fn lemma_kind(pos: Position, kind: PieceType, capture: bool)
    requires
        pos.well_formed(),
    ensures
        all_playable(pos, kind_moves(pos, kind, capture), capture),
{
    reveal(kind_moves);
    let own = pos.type_board(kind).spec_intersect(pos.color_board(pos.white_to_play));
    let squares = own.squares();
    lemma_squares_members(own);
    lemma_intersect_contains(pos.type_board(kind), pos.color_board(pos.white_to_play));
    lemma_union_contains(pos.white_pieces, pos.black_pieces);
    assert forall|i: int| 0 <= i < squares.len() implies pos.owns(#[trigger] squares[i], kind) by {
        let s = squares[i];
        assert(own.contains(s));
        assert(pos.square_consistent(s));
    }
    lemma_group(pos, kind, squares, capture);
}

/// Every pseudo-legal move of a well-formed position is playable.
pub proof fn lemma_pseudo_legal_playable(pos: Position, capture: bool)
    requires
        pos.well_formed(),
    ensures
        all_playable(pos, pseudo_legal_moves(pos, capture), capture),
{
    if pos.kings.cardinality() >= 2 {
        let q = kind_moves(pos, PieceType::Queen, capture);
        let n = kind_moves(pos, PieceType::Knight, capture);
        let r = kind_moves(pos, PieceType::Rook, capture);
        let b = kind_moves(pos, PieceType::Bishop, capture);
        let p = kind_moves(pos, PieceType::Pawn, capture);
        let k = kind_moves(pos, PieceType::King, capture);
        lemma_kind(pos, PieceType::Queen, capture);
        lemma_kind(pos, PieceType::Knight, capture);
        lemma_kind(pos, PieceType::Rook, capture);
        lemma_kind(pos, PieceType::Bishop, capture);
        lemma_kind(pos, PieceType::Pawn, capture);
        lemma_kind(pos, PieceType::King, capture);
        lemma_playable_join(pos, q, n, capture);
        lemma_playable_join(pos, q + n, r, capture);
        lemma_playable_join(pos, q + n + r, b, capture);
        lemma_playable_join(pos, q + n + r + b, p, capture);
        lemma_playable_join(pos, q + n + r + b + p, k, capture);
    }
}

proof fn lemma_join_contains(a: Seq<Move>, b: Seq<Move>, mv: Move)
    requires
        a.contains(mv) || b.contains(mv),
    ensures
        (a + b).contains(mv),
{
    if a.contains(mv) {
        let i = choose|i: int| 0 <= i < a.len() && a[i] == mv;
        assert((a + b)[i] == mv);
    } else {
        let i = choose|i: int| 0 <= i < b.len() && b[i] == mv;
        assert((a + b)[a.len() + i] == mv);
    }
}

proof fn lemma_group_contains(
    pos: Position,
    kind: PieceType,
    squares: Seq<Square>,
    capture: bool,
    src: Square,
    mv: Move,
)
    requires
        squares.contains(src),
        piece_moves(pos, kind, src, capture).contains(mv),
    ensures
        group_moves(pos, kind, squares, capture).contains(mv),
    decreases squares.len(),
{
    let rest = squares.drop_first();
    if squares[0] != src {
        let i = choose|i: int| 0 <= i < squares.len() && squares[i] == src;
        assert(rest[i - 1] == src);
        lemma_group_contains(pos, kind, rest, capture, src, mv);
    }
    lemma_join_contains(
        piece_moves(pos, kind, squares[0], capture),
        group_moves(pos, kind, rest, capture),
        mv,
    );
}

/// Castling is among the pseudo-legal moves of a well-formed position only
/// while the side to move holds the right for that side and the squares
/// between king and corner are empty: towards the higher files those on
/// files 5 and 6, towards the lower files those on files 1, 2 and 3.
pub proof fn lemma_castle_needs_right_and_room(pos: Position, mv: Move, capture: bool)
    requires
        pos.well_formed(),
        pseudo_legal_moves(pos, capture).contains(mv),
        pos.is_castle(mv),
    ensures
        castle_right_held(pos, mv),
        castle_room(pos, mv),
{
    lemma_pseudo_legal_playable(pos, capture);
    assert(playable(pos, mv));
    assert(mv.promotion.is_none());
}

/// Castling is offered whenever two kings stand on the board, the king of
/// the side to move stands on rank 0, file 4, the right is held and the
/// squares between king and corner are empty. Nothing else is asked: not
/// that a rook stands in the corner, and not that the squares the king
/// crosses are safe from attack.
pub proof fn lemma_castle_offered(pos: Position, mv: Move)
    requires
        pos.consistent(),
        pos.kings.cardinality() >= 2,
        pos.owns(mv.src, PieceType::King),
        mv.dest.file == 6 || mv.dest.file == 2,
        castle_room(pos, mv),
        castle_right_held(pos, mv),
    ensures
        pseudo_legal_moves(pos, false).contains(mv),
{
    let src = mv.src;
    lemma_occupied(pos, src);
    lemma_occupied(pos, src.offset(0, 1));
    lemma_occupied(pos, src.offset(0, 2));
    lemma_occupied(pos, src.offset(0, -1));
    lemma_occupied(pos, src.offset(0, -2));
    lemma_occupied(pos, src.offset(0, -3));
    let short = castle_moves(pos, src, src.offset(0, 2));
    let long = castle_moves(pos, src, src.offset(0, -2));
    let steps = king_steps(pos, src, false);
    if mv.dest.file == 6 {
        assert(mv == plain_move(src, src.offset(0, 2)));
        assert(short[0] == mv);
        lemma_join_contains(steps, short, mv);
        lemma_join_contains(steps + short, long, mv);
    } else {
        assert(mv == plain_move(src, src.offset(0, -2)));
        assert(long[0] == mv);
        lemma_join_contains(steps + short, long, mv);
    }
    assert(king_moves(pos, src, false).contains(mv));
    reveal(kind_moves);
    let own = pos.type_board(PieceType::King).spec_intersect(pos.color_board(pos.white_to_play));
    lemma_squares_members(own);
    lemma_intersect_contains(pos.type_board(PieceType::King), pos.color_board(pos.white_to_play));
    assert(pos.square_consistent(src));
    assert(own.contains(src));
    lemma_group_contains(pos, PieceType::King, own.squares(), false, src, mv);
    let q = kind_moves(pos, PieceType::Queen, false);
    let n = kind_moves(pos, PieceType::Knight, false);
    let r = kind_moves(pos, PieceType::Rook, false);
    let b = kind_moves(pos, PieceType::Bishop, false);
    let p = kind_moves(pos, PieceType::Pawn, false);
    let k = kind_moves(pos, PieceType::King, false);
    lemma_join_contains(q + n + r + b + p, k, mv);
}

} // verus!
