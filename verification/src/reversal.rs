//! Reverting a move gives back the position it was made in.

use vstd::prelude::*;
use crate::square::Square;
use crate::piece::{Piece, PieceType};
use crate::position::{Position, two_apart, lemma_placed, lemma_same_pieces, lemma_piece_at_valid};
use crate::moves::{Move, pseudo_legal_moves};
use crate::rules::{movable, playable, pawn_playable, castle_room, lemma_pseudo_legal_playable};

verus! {

/// The corner from which a castling move takes its rook.
pub open spec fn castle_corner(mv: Move) -> Square {
    Square {
        rank: mv.src.rank,
        file: if mv.dest.file > mv.src.file {
            7
        } else {
            0
        },
    }
}

/// The square on which a castling move puts its rook.
pub open spec fn castle_rook_square(mv: Move) -> Square {
    Square {
        rank: mv.src.rank,
        file: if mv.dest.file > mv.src.file {
            5
        } else {
            3
        },
    }
}

/// Where the move castles, a rook of the side to move stands in the corner
/// that the move takes its rook from.
pub open spec fn rook_in_corner(pos: Position, mv: Move) -> bool {
    pos.is_castle(mv) ==> pos.piece_at(castle_corner(mv)) == Some(
        Piece { is_white: pos.white_to_play, p_type: PieceType::Rook },
    )
}

/// The position with the castling rights of another.
pub open spec fn with_rights_of(pos: Position, other: Position) -> Position {
    Position {
        white_castle_state: other.white_castle_state,
        black_castle_state: other.black_castle_state,
        ..pos
    }
}

/// Positions with the same eight boards hold the same pieces and are
/// consistent together.
pub proof fn lemma_same_boards(a: Position, b: Position)
    requires
        a.white_pieces == b.white_pieces,
        a.black_pieces == b.black_pieces,
        a.pawns == b.pawns,
        a.knights == b.knights,
        a.bishops == b.bishops,
        a.rooks == b.rooks,
        a.queens == b.queens,
        a.kings == b.kings,
    ensures
        a.consistent() == b.consistent(),
        forall|s: Square| a.piece_at(s) == b.piece_at(s),
{
    if a.consistent() {
        assert forall|s: Square| #[trigger] b.square_consistent(s) by {
            assert(a.square_consistent(s));
        }
    }
    if b.consistent() {
        assert forall|s: Square| #[trigger] a.square_consistent(s) by {
            assert(b.square_consistent(s));
        }
    }
}

/// What a playable move that neither castles nor takes en passant leaves on
/// the board: its source empty, the arriving piece on its destination, every
/// other square as it was.
pub proof fn lemma_plain_move(pos: Position, mv: Move)
    requires
        pos.consistent(),
        pos.piece_at(mv.src).is_some(),
        mv.dest.valid(),
        !pos.takes_en_passant(mv),
        !pos.is_castle(mv),
    ensures
        pos.after_move(mv).consistent(),
        forall|s: Square|
            #[trigger] pos.after_move(mv).piece_at(s) == (if s == mv.dest {
                Some(pos.arriving(mv))
            } else if s == mv.src {
                None
            } else {
                pos.piece_at(s)
            }),
{
    let lifted = pos.cleared(mv.src);
    let landed = lifted.placed(mv.dest, Some(pos.arriving(mv)));
    assert(lifted == pos.placed(mv.src, None));
    lemma_placed(pos, mv.src, None);
    lemma_placed(lifted, mv.dest, Some(pos.arriving(mv)));
    lemma_same_boards(landed, pos.after_move(mv));
    lemma_piece_at_valid(pos, mv.src);
}

/// What an en-passant capture leaves on the board: source and target empty,
/// the pawn on its destination; and the piece it records as captured is the
/// one that stood on the target.
pub proof fn lemma_en_passant_move(pos: Position, mv: Move)
    requires
        pos.consistent(),
        pos.piece_at(mv.src).is_some(),
        mv.dest.valid(),
        pos.takes_en_passant(mv),
        pos.en_passant_target.unwrap() != mv.src,
        pos.en_passant_target.unwrap() != mv.dest,
    ensures
        pos.after_move(mv).consistent(),
        forall|s: Square|
            #[trigger] pos.after_move(mv).piece_at(s) == (if s == mv.dest {
                Some(pos.arriving(mv))
            } else if s == mv.src || s == pos.en_passant_target.unwrap() {
                None
            } else {
                pos.piece_at(s)
            }),
        pos.record_of(mv).captured_peice == pos.piece_at(pos.en_passant_target.unwrap()),
{
    let target = pos.en_passant_target.unwrap();
    let lifted = pos.cleared(mv.src);
    let landed = lifted.placed(mv.dest, Some(pos.arriving(mv)));
    let struck = landed.cleared(target);
    assert(lifted == pos.placed(mv.src, None));
    assert(struck == landed.placed(target, None));
    lemma_placed(pos, mv.src, None);
    lemma_placed(lifted, mv.dest, Some(pos.arriving(mv)));
    lemma_placed(landed, target, None);
    lemma_same_boards(struck, pos.after_move(mv));
    lemma_piece_at_valid(pos, mv.src);
    lemma_piece_at_valid(pos, target);
    assert(!pos.is_castle(mv));
}

/// What castling leaves on the board: source and corner empty, the king on
/// its destination, a rook beside it.
pub proof fn lemma_castle_move(pos: Position, mv: Move)
    requires
        pos.consistent(),
        pos.piece_at(mv.src).is_some(),
        mv.dest.valid(),
        pos.is_castle(mv),
        mv.src.file == 4,
        mv.dest.rank == mv.src.rank,
    ensures
        pos.after_move(mv).consistent(),
        forall|s: Square|
            #[trigger] pos.after_move(mv).piece_at(s) == (if s == castle_rook_square(mv) {
                Some(Piece { is_white: pos.arriving(mv).is_white, p_type: PieceType::Rook })
            } else if s == mv.dest {
                Some(pos.arriving(mv))
            } else if s == mv.src || s == castle_corner(mv) {
                None
            } else {
                pos.piece_at(s)
            }),
{
    let rook = Some(Piece { is_white: pos.arriving(mv).is_white, p_type: PieceType::Rook });
    let lifted = pos.cleared(mv.src);
    let landed = lifted.placed(mv.dest, Some(pos.arriving(mv)));
    let struck = landed.cleared(castle_corner(mv));
    let castled = struck.placed(castle_rook_square(mv), rook);
    assert(lifted == pos.placed(mv.src, None));
    assert(struck == landed.placed(castle_corner(mv), None));
    assert(!pos.takes_en_passant(mv));
    lemma_placed(pos, mv.src, None);
    lemma_placed(lifted, mv.dest, Some(pos.arriving(mv)));
    lemma_placed(landed, castle_corner(mv), None);
    lemma_placed(struck, castle_rook_square(mv), rook);
    assert(castled == landed.rook_castled(mv, pos.arriving(mv).is_white));
    lemma_same_boards(castled, pos.after_move(mv));
    lemma_piece_at_valid(pos, mv.src);
}

/// Reverting a playable move right after it was made puts every piece back
/// where it stood and restores the side to move and the en-passant target.
/// The castling rights stay as the move left them. Castling is reverted
/// only where a rook did stand in the corner.
pub proof fn lemma_undo_restores(pos: Position, mv: Move)
    requires
        pos.well_formed(),
        movable(pos, mv),
        rook_in_corner(pos, mv),
    ensures
        pos.after_move(mv).piece_at(mv.dest).is_some(),
        pos.after_move(mv).consistent(),
        pos.after_move(mv).before_move(pos.record_of(mv)) == with_rights_of(
            pos,
            pos.after_move(mv),
        ),
{
    let after = pos.after_move(mv);
    let record = pos.record_of(mv);
    let piece = pos.piece_at(mv.src).unwrap();
    let arriving = pos.arriving(mv);
    lemma_piece_at_valid(pos, mv.src);
    if pos.takes_en_passant(mv) {
        let target = pos.en_passant_target.unwrap();
        assert(pawn_playable(pos, mv));
        assert(target != mv.src);
        assert(pos.piece_at(mv.dest).is_none());
        assert(target != mv.dest);
        lemma_en_passant_move(pos, mv);
    } else if pos.is_castle(mv) {
        assert(castle_room(pos, mv));
        lemma_castle_move(pos, mv);
    } else {
        lemma_plain_move(pos, mv);
    }
    assert(after.piece_at(mv.dest) == Some(arriving));
    let returning = after.returning(record);
    assert(returning == piece) by {
        if mv.promotion.is_some() {
            assert(piece.p_type == PieceType::Pawn);
        }
    }
    assert(after.took_en_passant(record) == pos.takes_en_passant(mv)) by {
        if mv.promotion.is_some() && pos.en_passant_target.is_some() {
            assert(pawn_playable(pos, mv));
            assert(mv.src.rank == 1 || mv.src.rank == 6);
        }
    }
    let home = after.placed(mv.src, Some(returning));
    lemma_placed(after, mv.src, Some(returning));
    let done = after.before_move(record);
    let expected = with_rights_of(pos, after);
    lemma_same_boards(pos, expected);
    if pos.takes_en_passant(mv) {
        let target = pos.en_passant_target.unwrap();
        let emptied = home.cleared(mv.dest);
        assert(emptied == home.placed(mv.dest, None));
        lemma_placed(home, mv.dest, None);
        let filled = emptied.placed(target, record.captured_peice);
        lemma_placed(emptied, target, record.captured_peice);
        lemma_same_boards(filled, done);
        lemma_same_pieces(done, expected);
    } else if pos.is_castle(mv) {
        let rook = Some(Piece { is_white: piece.is_white, p_type: PieceType::Rook });
        let emptied = home.cleared(castle_rook_square(mv));
        assert(emptied == home.placed(castle_rook_square(mv), None));
        lemma_placed(home, castle_rook_square(mv), None);
        let rooked = emptied.placed(castle_corner(mv), rook);
        lemma_placed(emptied, castle_corner(mv), rook);
        assert(rooked == home.rook_uncastled(mv, piece.is_white));
        let filled = rooked.placed(mv.dest, record.captured_peice);
        lemma_placed(rooked, mv.dest, record.captured_peice);
        lemma_same_boards(filled, done);
        lemma_same_pieces(done, expected);
    } else {
        let filled = home.placed(mv.dest, record.captured_peice);
        lemma_placed(home, mv.dest, record.captured_peice);
        lemma_same_boards(filled, done);
        lemma_same_pieces(done, expected);
    }
}

/// Applying a pseudo-legal move of a well-formed position and reverting it
/// from its record reproduces the position bit for bit: every board, the
/// side to move, the en-passant target and the castling rights. This is
/// stated for the moves that clear no castling right, and for castling only
/// where the rook stands in its corner.
pub proof fn lemma_round_trip(pos: Position, mv: Move, capture: bool)
    requires
        pos.well_formed(),
        pseudo_legal_moves(pos, capture).contains(mv),
        rook_in_corner(pos, mv),
        pos.after_move(mv).white_castle_state == pos.white_castle_state,
        pos.after_move(mv).black_castle_state == pos.black_castle_state,
    ensures
        pos.after_move(mv).piece_at(mv.dest).is_some(),
        pos.after_move(mv).before_move(pos.record_of(mv)) == pos,
{
    lemma_pseudo_legal_playable(pos, capture);
    assert(playable(pos, mv));
    lemma_undo_restores(pos, mv);
}

/// A move that advances a pawn two ranks sets the en-passant target to its
/// destination square; any other move clears the target.
pub proof fn lemma_target_after_move(pos: Position, mv: Move)
    requires
        pos.piece_at(mv.src).is_some(),
    ensures
        pos.after_move(mv).en_passant_target == (if pos.arriving(mv).p_type == PieceType::Pawn
            && two_apart(mv.src.rank, mv.dest.rank) {
            Some(mv.dest)
        } else {
            None
        }),
{
}

/// A pawn that moves from the rank of the en-passant target onto the
/// target's file takes the piece on the target square: that square is
/// emptied and its piece recorded as captured, while the pawn stands on its
/// destination.
pub proof fn lemma_en_passant_takes_target(pos: Position, mv: Move)
    requires
        pos.well_formed(),
        movable(pos, mv),
        pos.takes_en_passant(mv),
    ensures
        pos.after_move(mv).piece_at(pos.en_passant_target.unwrap()).is_none(),
        pos.after_move(mv).piece_at(mv.dest) == pos.piece_at(mv.src),
        pos.record_of(mv).captured_peice == Some(
            Piece { is_white: !pos.white_to_play, p_type: PieceType::Pawn },
        ),
        pos.piece_at(mv.dest).is_none(),
        pos.en_passant_target.unwrap() != mv.dest,
{
    let target = pos.en_passant_target.unwrap();
    lemma_piece_at_valid(pos, mv.src);
    assert(pawn_playable(pos, mv));
    assert(target != mv.src);
    assert(pos.piece_at(mv.dest).is_none());
    assert(target != mv.dest);
    lemma_en_passant_move(pos, mv);
}

/// A playable move leads from a well-formed position to a well-formed
/// position: every position of a game that starts well-formed is.
pub proof fn lemma_move_keeps_well_formed(pos: Position, mv: Move)
    requires
        pos.well_formed(),
        movable(pos, mv),
    ensures
        pos.after_move(mv).well_formed(),
{
    let after = pos.after_move(mv);
    lemma_piece_at_valid(pos, mv.src);
    if pos.takes_en_passant(mv) {
        let target = pos.en_passant_target.unwrap();
        assert(pawn_playable(pos, mv));
        assert(target != mv.src);
        assert(pos.piece_at(mv.dest).is_none());
        assert(target != mv.dest);
        lemma_en_passant_move(pos, mv);
    } else if pos.is_castle(mv) {
        assert(castle_room(pos, mv));
        lemma_castle_move(pos, mv);
    } else {
        lemma_plain_move(pos, mv);
    }
    if after.en_passant_target.is_some() {
        assert(pawn_playable(pos, mv));
        assert(!pos.takes_en_passant(mv));
        assert(!pos.is_castle(mv));
        let skipped = mv.dest.offset(after.forward(), 0);
        assert(skipped == mv.src.offset(pos.forward(), 0));
        assert(after.piece_at(skipped).is_none());
    }
}

} // verus!
