//! Pieces: a kind and a colour, nothing else.

use vstd::prelude::*;

verus! {

/// The six kinds of piece.
#[derive(Clone, Copy, PartialEq, Eq, Structural, Debug)]
pub enum PieceType {
    Pawn,
    Knight,
    Bishop,
    Rook,
    Queen,
    King,
}

/// A piece: a colour and a kind. Pieces of one colour and kind are alike.
#[derive(Clone, Copy, PartialEq, Eq, Structural, Debug)]
pub struct Piece {
    pub is_white: bool,
    pub p_type: PieceType,
}

impl Piece {
    /// The white piece of a kind.
    pub fn white(p_type: PieceType) -> (piece: Piece)
        ensures
            piece == (Piece { is_white: true, p_type }),
    {
        Piece { is_white: true, p_type }
    }

    /// The black piece of a kind.
    pub fn black(p_type: PieceType) -> (piece: Piece)
        ensures
            piece == (Piece { is_white: false, p_type }),
    {
        Piece { is_white: false, p_type }
    }
}

} // verus!
