//! Moves, undo records, and move generation.

use vstd::prelude::*;
use crate::square::Square;
use crate::piece::{Piece, PieceType};
use crate::bitboard::{lemma_union_contains, lemma_squares_members};
use crate::position::Position;

verus! {

/// An intent to move whatever stands on `src` to `dest`, changing its kind
/// to `promotion` where one is given. A move by itself promises no legality.
#[derive(Clone, Copy, PartialEq, Eq, Structural, Debug)]
pub struct Move {
    pub src: Square,
    pub dest: Square,
    pub promotion: Option<PieceType>,
}

/// What it takes to revert a move: the move, the piece it removed from the
/// board, and the en-passant target that stood before it.
#[derive(Clone, Copy, PartialEq, Eq, Structural, Debug)]
pub struct PastMove {
    pub mv: Move,
    pub captured_peice: Option<Piece>,
    pub en_passant_target: Option<Square>,
}

/// Why a move could not be applied or reverted.
#[derive(Clone, Copy, PartialEq, Eq, Structural, Debug)]
pub enum MoveError {
    /// Nothing stands on the square a move starts from.
    SourceEmpty(Square),
    /// Nothing stands on the square a reverted move had arrived at.
    DestinationEmpty(Square),
}

/// The move from `src` to `dest` without promotion.
pub open spec fn plain_move(src: Square, dest: Square) -> Move {
    Move { src, dest, promotion: None }
}

/// What one step from `src` to `dest` contributes: nothing off the board; in
/// capture mode the move where `dest` holds a piece of the colour opposite to
/// the one on `src`; otherwise the move where `dest` is empty.
#[verifier::opaque]
pub open spec fn step_moves(pos: Position, src: Square, dest: Square, capture: bool) -> Seq<Move> {
    if !dest.valid() {
        Seq::empty()
    } else if capture {
        if pos.color_board(!pos.white_pieces.contains(src)).contains(dest) {
            seq![plain_move(src, dest)]
        } else {
            Seq::empty()
        }
    } else if pos.occupancy().contains(dest) {
        Seq::empty()
    } else {
        seq![plain_move(src, dest)]
    }
}

/// A slide may pass over `dest`: it is an empty square of the board.
pub open spec fn step_open(pos: Position, dest: Square) -> bool {
    dest.valid() && !pos.occupancy().contains(dest)
}

/// The moves of a slide from `src` by steps of `(dr, df)`, from the `k`-th
/// step on: the slide passes over empty squares and ends with the first
/// square that is occupied or off the board.
pub open spec fn ray_moves(
    pos: Position,
    src: Square,
    dr: int,
    df: int,
    capture: bool,
    k: int,
) -> Seq<Move>
    decreases 8 - k,
{
    let dest = src.offset(k * dr, k * df);
    if k >= 8 {
        Seq::empty()
    } else if step_open(pos, dest) {
        step_moves(pos, src, dest, capture) + ray_moves(pos, src, dr, df, capture, k + 1)
    } else {
        step_moves(pos, src, dest, capture)
    }
}

/// A rook's moves: its slides along the rank and the file.
pub open spec fn rook_moves(pos: Position, src: Square, capture: bool) -> Seq<Move> {
    ray_moves(pos, src, 0, 1, capture, 1) + ray_moves(pos, src, 0, -1, capture, 1) + ray_moves(
        pos,
        src,
        1,
        0,
        capture,
        1,
    ) + ray_moves(pos, src, -1, 0, capture, 1)
}

/// A bishop's moves: its slides along the diagonals.
pub open spec fn bishop_moves(pos: Position, src: Square, capture: bool) -> Seq<Move> {
    ray_moves(pos, src, 1, 1, capture, 1) + ray_moves(pos, src, -1, -1, capture, 1) + ray_moves(
        pos,
        src,
        -1,
        1,
        capture,
        1,
    ) + ray_moves(pos, src, 1, -1, capture, 1)
}

/// A queen's moves: those of a rook, then those of a bishop.
pub open spec fn queen_moves(pos: Position, src: Square, capture: bool) -> Seq<Move> {
    rook_moves(pos, src, capture) + bishop_moves(pos, src, capture)
}

/// A knight's moves: its eight jumps.
pub open spec fn knight_moves(pos: Position, src: Square, capture: bool) -> Seq<Move> {
    step_moves(pos, src, src.offset(2, 1), capture) + step_moves(
        pos,
        src,
        src.offset(2, -1),
        capture,
    ) + step_moves(pos, src, src.offset(-2, 1), capture) + step_moves(
        pos,
        src,
        src.offset(-2, -1),
        capture,
    ) + step_moves(pos, src, src.offset(1, 2), capture) + step_moves(
        pos,
        src,
        src.offset(-1, 2),
        capture,
    ) + step_moves(pos, src, src.offset(1, -2), capture) + step_moves(
        pos,
        src,
        src.offset(-1, -2),
        capture,
    )
}

/// The direction in which the pawn on `src` advances: up the ranks where the
/// square is white's, down otherwise.
pub open spec fn pawn_direction(pos: Position, src: Square) -> int {
    if pos.white_pieces.contains(src) {
        1
    } else {
        -1
    }
}

/// The en-passant capture open to the pawn on `src`: present where a target
/// is set on the pawn's rank and on a neighbouring file; it leads to the
/// square one step past the target.
pub open spec fn en_passant_moves(pos: Position, src: Square) -> Seq<Move> {
    match pos.en_passant_target {
        Some(target) => if target.rank == src.rank && (target.file - src.file == 1 || src.file
            - target.file == 1) {
            seq![plain_move(src, target.offset(pawn_direction(pos, src), 0))]
        } else {
            Seq::empty()
        },
        None => Seq::empty(),
    }
}

/// The four promotions of a pawn move, in the order queen, rook, bishop,
/// knight.
pub open spec fn promotions(src: Square, dest: Square) -> Seq<Move> {
    seq![
        Move { src, dest, promotion: Some(PieceType::Queen) },
        Move { src, dest, promotion: Some(PieceType::Rook) },
        Move { src, dest, promotion: Some(PieceType::Bishop) },
        Move { src, dest, promotion: Some(PieceType::Knight) },
    ]
}

/// A pawn's moves. In capture mode its two diagonal steps ahead and the
/// en-passant capture; otherwise one step ahead, as four promotions where
/// that reaches a back rank, and a second step from rank 1 or rank 6.
pub open spec fn pawn_moves(pos: Position, src: Square, capture: bool) -> Seq<Move> {
    let direction = pawn_direction(pos, src);
    let ahead = src.offset(direction, 0);
    if capture {
        step_moves(pos, src, src.offset(direction, 1), true) + step_moves(
            pos,
            src,
            src.offset(direction, -1),
            true,
        ) + en_passant_moves(pos, src)
    } else if ahead.rank == 7 || ahead.rank == 0 {
        if pos.occupancy().contains(ahead) {
            Seq::empty()
        } else {
            promotions(src, ahead)
        }
    } else if step_open(pos, ahead) && (src.rank == 1 || src.rank == 6) {
        step_moves(pos, src, ahead, false) + step_moves(
            pos,
            src,
            ahead.offset(direction, 0),
            false,
        )
    } else {
        step_moves(pos, src, ahead, false)
    }
}

/// The castling move from `src` to `dest`: present where the colour on `src`
/// still holds the right for that side and the squares between king and rook
/// are empty. Whether any of them is attacked plays no part.
pub open spec fn castle_moves(pos: Position, src: Square, dest: Square) -> Seq<Move> {
    let rights = if pos.white_pieces.contains(src) {
        pos.white_castle_state
    } else {
        pos.black_castle_state
    };
    let taken = pos.occupancy();
    let free = if dest.file > src.file {
        rights.can_short_castle && !taken.contains(src.offset(0, 1)) && !taken.contains(
            src.offset(0, 2),
        )
    } else {
        rights.can_long_castle && !taken.contains(src.offset(0, -1)) && !taken.contains(
            src.offset(0, -2),
        ) && !taken.contains(src.offset(0, -3))
    };
    if free {
        seq![plain_move(src, dest)]
    } else {
        Seq::empty()
    }
}

/// A king's eight steps.
pub open spec fn king_steps(pos: Position, src: Square, capture: bool) -> Seq<Move> {
    step_moves(pos, src, src.offset(0, 1), capture) + step_moves(
        pos,
        src,
        src.offset(0, -1),
        capture,
    ) + step_moves(pos, src, src.offset(1, 0), capture) + step_moves(
        pos,
        src,
        src.offset(-1, 0),
        capture,
    ) + step_moves(pos, src, src.offset(1, 1), capture) + step_moves(
        pos,
        src,
        src.offset(-1, -1),
        capture,
    ) + step_moves(pos, src, src.offset(1, -1), capture) + step_moves(
        pos,
        src,
        src.offset(-1, 1),
        capture,
    )
}

/// A king's moves: its eight steps and, outside capture mode and from rank
/// 0, file 4 only, castling to either side.
pub open spec fn king_moves(pos: Position, src: Square, capture: bool) -> Seq<Move> {
    if !capture && src.rank == 0 && src.file == 4 {
        king_steps(pos, src, capture) + castle_moves(pos, src, src.offset(0, 2)) + castle_moves(
            pos,
            src,
            src.offset(0, -2),
        )
    } else {
        king_steps(pos, src, capture)
    }
}

/// The moves of a piece of the given kind standing on `src`.
pub open spec fn piece_moves(pos: Position, kind: PieceType, src: Square, capture: bool) -> Seq<
    Move,
> {
    match kind {
        PieceType::Queen => queen_moves(pos, src, capture),
        PieceType::Knight => knight_moves(pos, src, capture),
        PieceType::Rook => rook_moves(pos, src, capture),
        PieceType::Bishop => bishop_moves(pos, src, capture),
        PieceType::Pawn => pawn_moves(pos, src, capture),
        PieceType::King => king_moves(pos, src, capture),
    }
}

/// The moves of pieces of one kind standing on the given squares, square by
/// square.
pub open spec fn group_moves(
    pos: Position,
    kind: PieceType,
    squares: Seq<Square>,
    capture: bool,
) -> Seq<Move>
    decreases squares.len(),
{
    if squares.len() == 0 {
        Seq::empty()
    } else {
        piece_moves(pos, kind, squares[0], capture) + group_moves(
            pos,
            kind,
            squares.drop_first(),
            capture,
        )
    }
}

/// The moves of all pieces of one kind that belong to the side to move, in
/// increasing bit-index order of their squares.
#[verifier::opaque]
pub open spec fn kind_moves(pos: Position, kind: PieceType, capture: bool) -> Seq<Move> {
    group_moves(
        pos,
        kind,
        pos.type_board(kind).spec_intersect(pos.color_board(pos.white_to_play)).squares(),
        capture,
    )
}

/// The pseudo-legal moves of the side to move: captures in capture mode,
/// moves to empty squares otherwise. None at all where fewer than two kings
/// stand on the board. The kinds come in the order queen, knight, rook,
/// bishop, pawn, king.
pub open spec fn pseudo_legal_moves(pos: Position, capture: bool) -> Seq<Move> {
    if pos.kings.cardinality() < 2 {
        Seq::empty()
    } else {
        kind_moves(pos, PieceType::Queen, capture) + kind_moves(pos, PieceType::Knight, capture)
            + kind_moves(pos, PieceType::Rook, capture) + kind_moves(
            pos,
            PieceType::Bishop,
            capture,
        ) + kind_moves(pos, PieceType::Pawn, capture) + kind_moves(pos, PieceType::King, capture)
    }
}

/// Tries one step. Appends what [`step_moves`] gives and says whether a
/// slide may go on past `dest`.
pub fn generate_move(
    moves: &mut Vec<Move>,
    pos: &Position,
    src: Square,
    dest: Square,
    capture: bool,
) -> (open: bool)
    ensures
        final(moves)@ == old(moves)@ + step_moves(*pos, src, dest, capture),
        open == step_open(*pos, dest),
{
    proof {
        reveal(step_moves);
        lemma_union_contains(pos.white_pieces, pos.black_pieces);
    }
    if !dest.is_valid() {
        assert(moves@ =~= old(moves)@ + step_moves(*pos, src, dest, capture));
        return false;
    }
    if capture {
        let is_white = pos.white_pieces.get(src);
        if pos.by_color(!is_white).get(dest) {
            moves.push(Move { src, dest, promotion: None });
            assert(moves@ =~= old(moves)@ + step_moves(*pos, src, dest, capture));
            return false;
        } else if pos.by_color(is_white).get(dest) {
            assert(moves@ =~= old(moves)@ + step_moves(*pos, src, dest, capture));
            return false;
        }
    } else {
        if pos.all_pieces().get(dest) {
            assert(moves@ =~= old(moves)@ + step_moves(*pos, src, dest, capture));
            return false;
        } else {
            moves.push(Move { src, dest, promotion: None });
        }
    }
    assert(moves@ =~= old(moves)@ + step_moves(*pos, src, dest, capture));
    return true;
}

/// Slides from `src` by steps of `(dr, df)` until a square is occupied or
/// off the board.
pub fn generate_direction_moves(
    moves: &mut Vec<Move>,
    pos: &Position,
    src: Square,
    dr: i8,
    df: i8,
    capture: bool,
)
    requires
        src.valid(),
        -1 <= dr <= 1,
        -1 <= df <= 1,
        dr != 0 || df != 0,
    ensures
        final(moves)@ == old(moves)@ + ray_moves(*pos, src, dr as int, df as int, capture, 1),
{
    let mut dest = src;
    let mut k: i8 = 1;
    loop
        invariant
            src.valid(),
            -1 <= dr <= 1,
            -1 <= df <= 1,
            dr != 0 || df != 0,
            1 <= k <= 8,
            dest.rank == src.rank + (k - 1) * dr,
            dest.file == src.file + (k - 1) * df,
            moves@ + ray_moves(*pos, src, dr as int, df as int, capture, k as int) == old(moves)@
                + ray_moves(*pos, src, dr as int, df as int, capture, 1),
        decreases 9 - k,
    {
        let ghost before = moves@;
        assert(-8 <= (k - 1) * dr <= 8 && -8 <= (k - 1) * df <= 8 && -8 <= k * dr <= 8 && -8 <= k
            * df <= 8) by (nonlinear_arith)
            requires
                1 <= k <= 8,
                -1 <= dr <= 1,
                -1 <= df <= 1,
        ;
        assert(k * dr == (k - 1) * dr + dr && k * df == (k - 1) * df + df) by (nonlinear_arith);
        dest.rank = dest.rank + dr;
        dest.file = dest.file + df;
        assert(dest == src.offset(k * dr, k * df));
        let open = generate_move(moves, pos, src, dest, capture);
        proof {
            if k == 8 {
                assert(!dest.valid()) by (nonlinear_arith)
                    requires
                        src.valid(),
                        dest.rank == src.rank + 8 * dr,
                        dest.file == src.file + 8 * df,
                        -1 <= dr <= 1,
                        -1 <= df <= 1,
                        dr != 0 || df != 0,
                ;
                reveal(step_moves);
                assert(moves@ =~= before);
            }
            assert(before + ray_moves(*pos, src, dr as int, df as int, capture, k as int) =~= moves@
                + (if open {
                ray_moves(*pos, src, dr as int, df as int, capture, k + 1)
            } else {
                Seq::empty()
            }));
        }
        if !open {
            assert(moves@ =~= moves@ + Seq::<Move>::empty());
            return ;
        }
        k = k + 1;
    }
}

/// Appends a rook's moves from `src`.
pub fn generate_rook_moves(moves: &mut Vec<Move>, pos: &Position, src: Square, capture: bool)
    requires
        src.valid(),
    ensures
        final(moves)@ == old(moves)@ + rook_moves(*pos, src, capture),
{
    generate_direction_moves(moves, pos, src, 0, 1, capture);
    generate_direction_moves(moves, pos, src, 0, -1, capture);
    generate_direction_moves(moves, pos, src, 1, 0, capture);
    generate_direction_moves(moves, pos, src, -1, 0, capture);
    assert(moves@ =~= old(moves)@ + rook_moves(*pos, src, capture));
}

/// Appends a bishop's moves from `src`.
pub fn generate_bishop_moves(moves: &mut Vec<Move>, pos: &Position, src: Square, capture: bool)
    requires
        src.valid(),
    ensures
        final(moves)@ == old(moves)@ + bishop_moves(*pos, src, capture),
{
    generate_direction_moves(moves, pos, src, 1, 1, capture);
    generate_direction_moves(moves, pos, src, -1, -1, capture);
    generate_direction_moves(moves, pos, src, -1, 1, capture);
    generate_direction_moves(moves, pos, src, 1, -1, capture);
    assert(moves@ =~= old(moves)@ + bishop_moves(*pos, src, capture));
}

/// Appends a queen's moves from `src`.
pub fn generate_queen_moves(moves: &mut Vec<Move>, pos: &Position, src: Square, capture: bool)
    requires
        src.valid(),
    ensures
        final(moves)@ == old(moves)@ + queen_moves(*pos, src, capture),
{
    generate_rook_moves(moves, pos, src, capture);
    generate_bishop_moves(moves, pos, src, capture);
    assert(moves@ =~= old(moves)@ + queen_moves(*pos, src, capture));
}

/// Appends a knight's moves from `src`.
pub fn generate_knight_moves(moves: &mut Vec<Move>, pos: &Position, src: Square, capture: bool)
    requires
        src.valid(),
    ensures
        final(moves)@ == old(moves)@ + knight_moves(*pos, src, capture),
{
    generate_move(moves, pos, src, src.add(2, 1), capture);
    generate_move(moves, pos, src, src.add(2, -1), capture);
    generate_move(moves, pos, src, src.add(-2, 1), capture);
    generate_move(moves, pos, src, src.add(-2, -1), capture);
    generate_move(moves, pos, src, src.add(1, 2), capture);
    generate_move(moves, pos, src, src.add(-1, 2), capture);
    generate_move(moves, pos, src, src.add(1, -2), capture);
    generate_move(moves, pos, src, src.add(-1, -2), capture);
    assert(moves@ =~= old(moves)@ + knight_moves(*pos, src, capture));
}

/// Appends a pawn's moves from `src`.
pub fn generate_pawn_moves(moves: &mut Vec<Move>, pos: &Position, src: Square, capture: bool)
    requires
        src.valid(),
    ensures
        final(moves)@ == old(moves)@ + pawn_moves(*pos, src, capture),
{
    let direction: i8 = if pos.white_pieces.get(src) {
        1
    } else {
        -1
    };
    if capture {
        generate_move(moves, pos, src, src.add(direction, 1), true);
        generate_move(moves, pos, src, src.add(direction, -1), true);
        if let Some(target) = pos.en_passant_target {
            let apart: i16 = target.file as i16 - src.file as i16;
            if target.rank == src.rank && (apart == 1 || apart == -1) {
                moves.push(Move { src, dest: target.add(direction, 0), promotion: None });
            }
        }
        assert(moves@ =~= old(moves)@ + pawn_moves(*pos, src, capture));
    } else {
        let dest = src.add(direction, 0);
        if dest.rank == 7 || dest.rank == 0 {
            if !pos.all_pieces().get(dest) {
                moves.push(Move { src, dest, promotion: Some(PieceType::Queen) });
                moves.push(Move { src, dest, promotion: Some(PieceType::Rook) });
                moves.push(Move { src, dest, promotion: Some(PieceType::Bishop) });
                moves.push(Move { src, dest, promotion: Some(PieceType::Knight) });
            }
        } else {
            if generate_move(moves, pos, src, dest, false) {
                if src.rank == 1 || src.rank == 6 {
                    generate_move(moves, pos, src, dest.add(direction, 0), false);
                }
            }
        }
        assert(moves@ =~= old(moves)@ + pawn_moves(*pos, src, capture));
    }
}

/// Appends the castling move from `src` to `dest` where the right is held
/// and the squares between are empty.
pub fn generate_castle(moves: &mut Vec<Move>, pos: &Position, src: Square, dest: Square)
    requires
        src.valid(),
    ensures
        final(moves)@ == old(moves)@ + castle_moves(*pos, src, dest),
{
    let castle_state = if pos.white_pieces.get(src) {
        &pos.white_castle_state
    } else {
        &pos.black_castle_state
    };
    let pieces = pos.all_pieces();
    proof {
        assert(moves@ =~= old(moves)@ + Seq::<Move>::empty());
    }
    if dest.file > src.file {
        if !castle_state.can_short_castle {
            return ;
        }
        if pieces.get(src.add(0, 1)) {
            return ;
        }
        if pieces.get(src.add(0, 2)) {
            return ;
        }
    } else {
        if !castle_state.can_long_castle {
            return ;
        }
        if pieces.get(src.add(0, -1)) {
            return ;
        }
        if pieces.get(src.add(0, -2)) {
            return ;
        }
        if pieces.get(src.add(0, -3)) {
            return ;
        }
    }
    moves.push(Move { src, dest, promotion: None });
    assert(moves@ =~= old(moves)@ + castle_moves(*pos, src, dest));
}

/// Appends a king's moves from `src`.
pub fn generate_king_moves(moves: &mut Vec<Move>, pos: &Position, src: Square, capture: bool)
    requires
        src.valid(),
    ensures
        final(moves)@ == old(moves)@ + king_moves(*pos, src, capture),
{
    generate_move(moves, pos, src, src.add(0, 1), capture);
    generate_move(moves, pos, src, src.add(0, -1), capture);
    generate_move(moves, pos, src, src.add(1, 0), capture);
    generate_move(moves, pos, src, src.add(-1, 0), capture);
    generate_move(moves, pos, src, src.add(1, 1), capture);
    generate_move(moves, pos, src, src.add(-1, -1), capture);
    generate_move(moves, pos, src, src.add(1, -1), capture);
    generate_move(moves, pos, src, src.add(-1, 1), capture);
    assert(moves@ =~= old(moves)@ + king_steps(*pos, src, capture));
    if !capture && src.rank == 0 && src.file == 4 {
        generate_castle(moves, pos, src, src.add(0, 2));
        generate_castle(moves, pos, src, src.add(0, -2));
    }
    assert(moves@ =~= old(moves)@ + king_moves(*pos, src, capture));
}

/// Appends the moves of every piece of one kind that the side to move owns.
fn generate_kind_moves(moves: &mut Vec<Move>, pos: &Position, kind: PieceType, capture: bool)
    ensures
        final(moves)@ == old(moves)@ + kind_moves(*pos, kind, capture),
{
    let board = match kind {
        PieceType::Pawn => pos.pawns,
        PieceType::Knight => pos.knights,
        PieceType::Bishop => pos.bishops,
        PieceType::Rook => pos.rooks,
        PieceType::Queen => pos.queens,
        PieceType::King => pos.kings,
    };
    let own = board.intersect(pos.by_color(pos.white_to_play));
    let mut walk = own.into_iter();
    proof {
        reveal(kind_moves);
        lemma_squares_members(own);
    }
    loop
        invariant
            forall|i: int| 0 <= i < walk@.len() ==> (#[trigger] walk@[i]).valid(),
            moves@ + group_moves(*pos, kind, walk@, capture) == old(moves)@ + kind_moves(
                *pos,
                kind,
                capture,
            ),
        decreases walk@.len(),
    {
        let ghost before = moves@;
        let ghost ahead = walk@;
        match walk.next() {
            None => {
                assert(moves@ =~= moves@ + Seq::<Move>::empty());
                return ;
            },
            Some(src) => {
                assert(src.valid());
                match kind {
                    PieceType::Queen => generate_queen_moves(moves, pos, src, capture),
                    PieceType::Knight => generate_knight_moves(moves, pos, src, capture),
                    PieceType::Rook => generate_rook_moves(moves, pos, src, capture),
                    PieceType::Bishop => generate_bishop_moves(moves, pos, src, capture),
                    PieceType::Pawn => generate_pawn_moves(moves, pos, src, capture),
                    PieceType::King => generate_king_moves(moves, pos, src, capture),
                }
                assert(before + group_moves(*pos, kind, ahead, capture) =~= moves@ + group_moves(
                    *pos,
                    kind,
                    walk@,
                    capture,
                ));
            },
        }
    }
}

/// Appends the pseudo-legal moves of the side to move to `moves`: its
/// captures where `capture` is set, its moves to empty squares otherwise.
pub fn generate_moves(moves: &mut Vec<Move>, pos: &Position, capture: bool)
    ensures
        final(moves)@ == old(moves)@ + pseudo_legal_moves(*pos, capture),
{
    if pos.kings.count() < 2 {
        assert(moves@ =~= old(moves)@ + pseudo_legal_moves(*pos, capture));
        return ;
    }
    generate_kind_moves(moves, pos, PieceType::Queen, capture);
    generate_kind_moves(moves, pos, PieceType::Knight, capture);
    generate_kind_moves(moves, pos, PieceType::Rook, capture);
    generate_kind_moves(moves, pos, PieceType::Bishop, capture);
    generate_kind_moves(moves, pos, PieceType::Pawn, capture);
    generate_kind_moves(moves, pos, PieceType::King, capture);
    assert(moves@ =~= old(moves)@ + pseudo_legal_moves(*pos, capture));
}

/// Sifting candidate moves for legality, one after another: each is
/// applied, the turn passed back to the mover, the check test run, and all
/// of it reverted; the move is kept where the test finds no check. The
/// result is whether an error cut the sifting short, the position left
/// behind, and the moves kept so far after `kept`.
pub open spec fn sifted(pos: Position, candidates: Seq<Move>, kept: Seq<Move>) -> (
    Result<(), MoveError>,
    Position,
    Seq<Move>,
)
    decreases candidates.len(),
{
    if candidates.len() == 0 {
        (Ok(()), pos, kept)
    } else {
        let mv = candidates[0];
        let turned = pos.after_move(mv).passed();
        let (found, tested) = turned.check_outcome();
        if pos.piece_at(mv.src).is_none() {
            (Err(MoveError::SourceEmpty(mv.src)), pos, kept)
        } else {
            match found {
                Err(error) => (Err(error), tested, kept),
                Ok(in_check) => {
                    let held = if in_check {
                        kept
                    } else {
                        kept.push(mv)
                    };
                    if tested.passed().piece_at(mv.dest).is_none() {
                        (Err(MoveError::DestinationEmpty(mv.dest)), tested.passed(), held)
                    } else {
                        sifted(
                            tested.passed().before_move(pos.record_of(mv)),
                            candidates.drop_first(),
                            held,
                        )
                    }
                },
            }
        }
    }
}

/// The candidates for legality: the pseudo-legal captures, then the
/// pseudo-legal moves to empty squares.
pub open spec fn candidate_moves(pos: Position) -> Seq<Move> {
    pseudo_legal_moves(pos, true) + pseudo_legal_moves(pos, false)
}

/// The outcome of generating the legal moves of a position, appended to
/// `kept`.
pub open spec fn legal_outcome(pos: Position, kept: Seq<Move>) -> (
    Result<(), MoveError>,
    Position,
    Seq<Move>,
) {
    sifted(pos, candidate_moves(pos), kept)
}

/// Appends to `moves` the pseudo-legal moves of the side to move that do not
/// leave its own king open to capture. Each candidate is tried on the
/// position itself and reverted; a castling right that a tried move clears
/// stays cleared. An error leaves the position where the sifting stopped.
pub fn generate_legal_moves(moves: &mut Vec<Move>, pos: &mut Position) -> (done: Result<
    (),
    MoveError,
>)
    ensures
        (done, *final(pos), final(moves)@) == legal_outcome(*old(pos), old(moves)@),
{
    let mut pseudo_legal: Vec<Move> = Vec::new();
    generate_moves(&mut pseudo_legal, pos, true);
    generate_moves(&mut pseudo_legal, pos, false);
    assert(pseudo_legal@ =~= candidate_moves(*pos));
    assert(pseudo_legal@.skip(0) =~= pseudo_legal@);
    let mut i: usize = 0;
    while i < pseudo_legal.len()
        invariant
            i <= pseudo_legal.len(),
            sifted(*pos, pseudo_legal@.skip(i as int), moves@) == legal_outcome(
                *old(pos),
                old(moves)@,
            ),
        decreases pseudo_legal.len() - i,
    {
        let mv = pseudo_legal[i];
        proof {
            assert(pseudo_legal@.skip(i as int)[0] == mv);
            assert(pseudo_legal@.skip(i as int).drop_first() =~= pseudo_legal@.skip(i + 1));
        }
        let past_move = match pos.do_move(mv) {
            Ok(past_move) => past_move,
            Err(error) => {
                return Err(error);
            },
        };
        pos.do_null_move();
        match pos.is_check() {
            Ok(in_check) => {
                if !in_check {
                    moves.push(mv);
                }
            },
            Err(error) => {
                return Err(error);
            },
        }
        pos.undo_null_move();
        match pos.undo_move(past_move) {
            Ok(_) => {},
            Err(error) => {
                return Err(error);
            },
        }
        i = i + 1;
    }
    assert(pseudo_legal@.skip(i as int).len() == 0);
    Ok(())
}

} // verus!
