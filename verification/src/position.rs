//! The full board state and its reversible transitions.

use vstd::prelude::*;
use crate::bitboard::{
    Bitboard, lemma_with_contains, lemma_with_offboard, lemma_union_contains, lemma_same_squares, lemma_empty_contains,
};
use crate::square::Square;
use crate::piece::{Piece, PieceType};
use crate::moves::{Move, PastMove, MoveError, generate_moves, pseudo_legal_moves};

verus! {

/// The castling rights of one colour. A right is only ever cleared.
#[derive(Clone, Copy, PartialEq, Eq, Structural, Debug)]
pub struct CastleState {
    pub can_short_castle: bool,
    pub can_long_castle: bool,
}

impl CastleState {
    /// The rights left after a piece of this colour and kind has moved away
    /// from a square on `src_file`: a king loses both, a rook from file 0
    /// the long one, a rook from file 7 the short one.
    pub open spec fn after(self, p_type: PieceType, src_file: i8) -> CastleState {
        if p_type == PieceType::King {
            CastleState { can_short_castle: false, can_long_castle: false }
        } else if p_type == PieceType::Rook && src_file == 0 {
            CastleState { can_long_castle: false, ..self }
        } else if p_type == PieceType::Rook && src_file == 7 {
            CastleState { can_short_castle: false, ..self }
        } else {
            self
        }
    }

    /// Holds no right that `other` lacks.
    pub open spec fn no_more_than(self, other: CastleState) -> bool {
        (self.can_short_castle ==> other.can_short_castle) && (self.can_long_castle
            ==> other.can_long_castle)
    }

    fn clear_for(&mut self, p_type: PieceType, src_file: i8)
        ensures
            *final(self) == old(self).after(p_type, src_file),
    {
        if p_type == PieceType::King {
            self.can_short_castle = false;
            self.can_long_castle = false;
        } else if p_type == PieceType::Rook {
            if src_file == 0 {
                self.can_long_castle = false;
            } else if src_file == 7 {
                self.can_short_castle = false;
            }
        }
    }
}

/// The two coordinates lie exactly two apart.
pub open spec fn two_apart(a: i8, b: i8) -> bool {
    a - b == 2 || b - a == 2
}

fn is_two_apart(a: i8, b: i8) -> (yes: bool)
    ensures
        yes == two_apart(a, b),
{
    let d: i16 = a as i16 - b as i16;
    d == 2 || d == -2
}

/// One occupancy board per colour, one board per piece kind, the side to
/// move, the en-passant target and the castling rights.
#[derive(Clone, Copy, PartialEq, Eq, Structural, Debug)]
pub struct Position {
    pub white_to_play: bool,
    pub en_passant_target: Option<Square>,
    pub white_castle_state: CastleState,
    pub black_castle_state: CastleState,
    pub white_pieces: Bitboard,
    pub black_pieces: Bitboard,
    pub pawns: Bitboard,
    pub knights: Bitboard,
    pub bishops: Bitboard,
    pub rooks: Bitboard,
    pub queens: Bitboard,
    pub kings: Bitboard,
}

impl Position {
    /// The board of one piece kind.
    pub open spec fn type_board(self, p_type: PieceType) -> Bitboard {
        match p_type {
            PieceType::Pawn => self.pawns,
            PieceType::Knight => self.knights,
            PieceType::Bishop => self.bishops,
            PieceType::Rook => self.rooks,
            PieceType::Queen => self.queens,
            PieceType::King => self.kings,
        }
    }

    /// The position with the board of one piece kind replaced.
    pub open spec fn with_type_board(self, p_type: PieceType, board: Bitboard) -> Position {
        match p_type {
            PieceType::Pawn => Position { pawns: board, ..self },
            PieceType::Knight => Position { knights: board, ..self },
            PieceType::Bishop => Position { bishops: board, ..self },
            PieceType::Rook => Position { rooks: board, ..self },
            PieceType::Queen => Position { queens: board, ..self },
            PieceType::King => Position { kings: board, ..self },
        }
    }

    /// The occupancy board of one colour.
    pub open spec fn color_board(&self, white: bool) -> Bitboard {
        if white {
            self.white_pieces
        } else {
            self.black_pieces
        }
    }

    /// The position with the occupancy board of one colour replaced.
    pub open spec fn with_color_board(self, white: bool, board: Bitboard) -> Position {
        if white {
            Position { white_pieces: board, ..self }
        } else {
            Position { black_pieces: board, ..self }
        }
    }

    /// Every occupied square.
    pub open spec fn occupancy(&self) -> Bitboard {
        self.white_pieces.spec_union(self.black_pieces)
    }

    /// The kind of the piece on a square: the first kind, in the order pawn,
    /// knight, bishop, rook, queen, king, whose board holds an occupied
    /// square.
    pub open spec fn type_at(&self, square: Square) -> Option<PieceType> {
        if !self.occupancy().contains(square) {
            None
        } else if self.pawns.contains(square) {
            Some(PieceType::Pawn)
        } else if self.knights.contains(square) {
            Some(PieceType::Knight)
        } else if self.bishops.contains(square) {
            Some(PieceType::Bishop)
        } else if self.rooks.contains(square) {
            Some(PieceType::Rook)
        } else if self.queens.contains(square) {
            Some(PieceType::Queen)
        } else if self.kings.contains(square) {
            Some(PieceType::King)
        } else {
            None
        }
    }

    /// The piece on a square, if any.
    pub open spec fn piece_at(&self, square: Square) -> Option<Piece> {
        match self.type_at(square) {
            Some(p_type) => Some(Piece { is_white: self.white_pieces.contains(square), p_type }),
            None => None,
        }
    }

    /// The position with a square taken out of every board.
    pub open spec fn cleared(self, square: Square) -> Position {
        Position {
            white_pieces: self.white_pieces.with(square, false),
            black_pieces: self.black_pieces.with(square, false),
            pawns: self.pawns.with(square, false),
            knights: self.knights.with(square, false),
            bishops: self.bishops.with(square, false),
            rooks: self.rooks.with(square, false),
            queens: self.queens.with(square, false),
            kings: self.kings.with(square, false),
            ..self
        }
    }

    /// The position with a square emptied and then, where a piece is given,
    /// that piece put on it.
    pub open spec fn placed(self, square: Square, piece: Option<Piece>) -> Position {
        let bare = self.cleared(square);
        match piece {
            Some(p) => {
                let typed = bare.with_type_board(
                    p.p_type,
                    bare.type_board(p.p_type).with(square, true),
                );
                typed.with_color_board(
                    p.is_white,
                    typed.color_board(p.is_white).with(square, true),
                )
            },
            None => bare,
        }
    }

    /// The position with the other side to move and nothing else changed.
    pub open spec fn passed(self) -> Position {
        Position { white_to_play: !self.white_to_play, ..self }
    }

    /// The boards agree with each other: no square belongs to both colours,
    /// and a square belongs to a colour exactly when it belongs to one piece
    /// kind, and then to no other.
    pub open spec fn consistent(self) -> bool {
        forall|s: Square| #[trigger] self.square_consistent(s)
    }

    /// The boards agree with each other on one square.
    pub open spec fn square_consistent(self, s: Square) -> bool {
        let w = self.white_pieces.contains(s);
        let b = self.black_pieces.contains(s);
        let p = self.pawns.contains(s);
        let n = self.knights.contains(s);
        let i = self.bishops.contains(s);
        let r = self.rooks.contains(s);
        let q = self.queens.contains(s);
        let k = self.kings.contains(s);
        &&& !(w && b)
        &&& (w || b) == (p || n || i || r || q || k)
        &&& !(p && (n || i || r || q || k))
        &&& !(n && (i || r || q || k))
        &&& !(i && (r || q || k))
        &&& !(r && (q || k))
        &&& !(q && k)
    }

    /// The position with no piece on the board.
    pub open spec fn spec_empty() -> Position {
        Position {
            white_to_play: true,
            en_passant_target: None,
            white_castle_state: CastleState { can_short_castle: true, can_long_castle: true },
            black_castle_state: CastleState { can_short_castle: true, can_long_castle: true },
            white_pieces: Bitboard::spec_empty(),
            black_pieces: Bitboard::spec_empty(),
            pawns: Bitboard::spec_empty(),
            knights: Bitboard::spec_empty(),
            bishops: Bitboard::spec_empty(),
            rooks: Bitboard::spec_empty(),
            queens: Bitboard::spec_empty(),
            kings: Bitboard::spec_empty(),
        }
    }

    /// The board with no piece on it: white to move, every castling right
    /// still held, no en-passant target.
    #[verifier::when_used_as_spec(spec_empty)]
    pub fn empty() -> (pos: Position)
        ensures
            pos == Position::spec_empty(),
            pos.consistent(),
            forall|s: Square| pos.piece_at(s).is_none(),
    {
        proof {
            lemma_empty_contains();
            lemma_union_contains(Bitboard::spec_empty(), Bitboard::spec_empty());
            assert forall|s: Square| #[trigger] Position::spec_empty().square_consistent(s) by {}
        }
        Position {
            white_to_play: true,
            en_passant_target: None,
            white_castle_state: CastleState { can_short_castle: true, can_long_castle: true },
            black_castle_state: CastleState { can_short_castle: true, can_long_castle: true },
            white_pieces: Bitboard::empty(),
            black_pieces: Bitboard::empty(),
            pawns: Bitboard::empty(),
            knights: Bitboard::empty(),
            bishops: Bitboard::empty(),
            rooks: Bitboard::empty(),
            queens: Bitboard::empty(),
            kings: Bitboard::empty(),
        }
    }

    /// The kind of piece that starts a game on the given file of a back
    /// rank.
    pub open spec fn back_rank_kind(file: int) -> PieceType {
        if file == 0 || file == 7 {
            PieceType::Rook
        } else if file == 1 || file == 6 {
            PieceType::Knight
        } else if file == 2 || file == 5 {
            PieceType::Bishop
        } else if file == 3 {
            PieceType::Queen
        } else {
            PieceType::King
        }
    }

    /// The piece that starts a game on a square.
    pub open spec fn start_piece(s: Square) -> Option<Piece> {
        if !s.valid() {
            None
        } else if s.rank == 0 {
            Some(Piece { is_white: true, p_type: Position::back_rank_kind(s.file as int) })
        } else if s.rank == 1 {
            Some(Piece { is_white: true, p_type: PieceType::Pawn })
        } else if s.rank == 6 {
            Some(Piece { is_white: false, p_type: PieceType::Pawn })
        } else if s.rank == 7 {
            Some(Piece { is_white: false, p_type: Position::back_rank_kind(s.file as int) })
        } else {
            None
        }
    }

    fn back_rank(file: i8) -> (kind: PieceType)
        ensures
            kind == Position::back_rank_kind(file as int),
    {
        if file == 0 || file == 7 {
            PieceType::Rook
        } else if file == 1 || file == 6 {
            PieceType::Knight
        } else if file == 2 || file == 5 {
            PieceType::Bishop
        } else if file == 3 {
            PieceType::Queen
        } else {
            PieceType::King
        }
    }

    /// The position at the start of a game.
    pub fn start() -> (pos: Position)
        ensures
            pos.consistent(),
            pos.well_formed(),
            forall|s: Square| pos.piece_at(s) == Position::start_piece(s),
            pos.white_to_play,
            pos.en_passant_target.is_none(),
            pos.white_castle_state == (CastleState { can_short_castle: true, can_long_castle: true }),
            pos.black_castle_state == (CastleState { can_short_castle: true, can_long_castle: true }),
    {
        let mut pos = Position::empty();
        let mut file: i8 = 0;
        while file < 8
            invariant
                0 <= file <= 8,
                pos.consistent(),
                forall|s: Square|
                    pos.piece_at(s) == (if s.file < file {
                        Position::start_piece(s)
                    } else {
                        None
                    }),
                pos.white_to_play,
                pos.en_passant_target.is_none(),
                pos.white_castle_state == (CastleState {
                    can_short_castle: true,
                    can_long_castle: true,
                }),
                pos.black_castle_state == (CastleState {
                    can_short_castle: true,
                    can_long_castle: true,
                }),
            decreases 8 - file,
        {
            let kind = Position::back_rank(file);
            let ghost bare = pos;
            pos.set_piece(Square { rank: 0, file }, Piece::white(kind));
            let ghost first = pos;
            pos.set_piece(Square { rank: 1, file }, Piece::white(PieceType::Pawn));
            let ghost second = pos;
            pos.set_piece(Square { rank: 6, file }, Piece::black(PieceType::Pawn));
            let ghost third = pos;
            pos.set_piece(Square { rank: 7, file }, Piece::black(kind));
            proof {
                lemma_placed(
                    bare,
                    Square { rank: 0, file },
                    Some(Piece { is_white: true, p_type: kind }),
                );
                lemma_placed(
                    first,
                    Square { rank: 1, file },
                    Some(Piece { is_white: true, p_type: PieceType::Pawn }),
                );
                lemma_placed(
                    second,
                    Square { rank: 6, file },
                    Some(Piece { is_white: false, p_type: PieceType::Pawn }),
                );
                lemma_placed(
                    third,
                    Square { rank: 7, file },
                    Some(Piece { is_white: false, p_type: kind }),
                );
                assert forall|s: Square|
                    pos.piece_at(s) == (if s.file < file + 1 {
                        Position::start_piece(s)
                    } else {
                        None
                    }) by {
                    assert(bare.piece_at(s) == (if s.file < file {
                        Position::start_piece(s)
                    } else {
                        None
                    }));
                    lemma_piece_at_valid(bare, s);
                }
            }
            file = file + 1;
        }
        proof {
            assert forall|s: Square| pos.piece_at(s) == Position::start_piece(s) by {
                lemma_piece_at_valid(pos, s);
            }
        }
        pos
    }

    /// Empties a square.
    pub fn remove_piece(&mut self, square: Square)
        ensures
            *final(self) == old(self).cleared(square),
    {
        self.white_pieces.set(square, false);
        self.black_pieces.set(square, false);
        self.pawns.set(square, false);
        self.knights.set(square, false);
        self.bishops.set(square, false);
        self.rooks.set(square, false);
        self.queens.set(square, false);
        self.kings.set(square, false);
    }

    /// The board of one piece kind, to be changed in place.
    pub fn by_type_mut(&mut self, p_type: PieceType) -> (board: &mut Bitboard)
        ensures
            *board == old(self).type_board(p_type),
            *final(self) == old(self).with_type_board(p_type, *final(board)),
    {
        match p_type {
            PieceType::Pawn => &mut self.pawns,
            PieceType::Knight => &mut self.knights,
            PieceType::Bishop => &mut self.bishops,
            PieceType::Rook => &mut self.rooks,
            PieceType::Queen => &mut self.queens,
            PieceType::King => &mut self.kings,
        }
    }

    /// The occupancy board of one colour.
    #[verifier::when_used_as_spec(color_board)]
    pub fn by_color(&self, white: bool) -> (board: Bitboard)
        ensures
            board == self.color_board(white),
    {
        if white {
            self.white_pieces
        } else {
            self.black_pieces
        }
    }

    /// The occupancy board of one colour, to be changed in place.
    pub fn by_color_mut(&mut self, white: bool) -> (board: &mut Bitboard)
        ensures
            *board == old(self).color_board(white),
            *final(self) == old(self).with_color_board(white, *final(board)),
    {
        if white {
            &mut self.white_pieces
        } else {
            &mut self.black_pieces
        }
    }

    /// Every occupied square.
    #[verifier::when_used_as_spec(occupancy)]
    pub fn all_pieces(&self) -> (board: Bitboard)
        ensures
            board == self.occupancy(),
            board@ == self.white_pieces@.union(self.black_pieces@),
    {
        self.white_pieces.union(self.black_pieces)
    }

    /// The kind of the piece on a square, if any.
    #[verifier::when_used_as_spec(type_at)]
    pub fn get_piece_type(&self, square: Square) -> (found: Option<PieceType>)
        ensures
            found == self.type_at(square),
    {
        if !self.all_pieces().get(square) {
            return None;
        }
        if self.pawns.get(square) {
            return Some(PieceType::Pawn);
        }
        if self.knights.get(square) {
            return Some(PieceType::Knight);
        }
        if self.bishops.get(square) {
            return Some(PieceType::Bishop);
        }
        if self.rooks.get(square) {
            return Some(PieceType::Rook);
        }
        if self.queens.get(square) {
            return Some(PieceType::Queen);
        }
        if self.kings.get(square) {
            return Some(PieceType::King);
        }
        return None;
    }

    /// The piece on a square, if any.
    #[verifier::when_used_as_spec(piece_at)]
    pub fn get_peice(&self, square: Square) -> (found: Option<Piece>)
        ensures
            found == self.piece_at(square),
    {
        if let Some(p_type) = self.get_piece_type(square) {
            Some(Piece { is_white: self.white_pieces.get(square), p_type })
        } else {
            None
        }
    }

    /// Empties a square and then, where a piece is given, puts it there.
    pub fn set_or_remove_piece(&mut self, square: Square, piece: Option<Piece>)
        ensures
            *final(self) == old(self).placed(square, piece),
    {
        self.remove_piece(square);
        if let Some(p) = piece {
            self.by_type_mut(p.p_type).set(square, true);
            self.by_color_mut(p.is_white).set(square, true);
        }
    }

    /// Puts a piece on a square, in place of whatever stood there.
    pub fn set_piece(&mut self, square: Square, piece: Piece)
        ensures
            *final(self) == old(self).placed(square, Some(piece)),
    {
        self.set_or_remove_piece(square, Some(piece));
    }

    /// Passes the turn.
    pub fn do_null_move(&mut self)
        ensures
            *final(self) == old(self).passed(),
    {
        self.white_to_play = !self.white_to_play;
    }

    /// Takes a passed turn back.
    pub fn undo_null_move(&mut self)
        ensures
            *final(self) == old(self).passed(),
    {
        self.white_to_play = !self.white_to_play;
    }

    /// The piece that a move puts on its destination: the one on its source,
    /// with its kind changed where the move promotes.
    pub open spec fn arriving(self, mv: Move) -> Piece
        recommends
            self.piece_at(mv.src).is_some(),
    {
        let piece = self.piece_at(mv.src).unwrap();
        Piece {
            is_white: piece.is_white,
            p_type: match mv.promotion {
                Some(promoted) => promoted,
                None => piece.p_type,
            },
        }
    }

    /// The move is treated as an en-passant capture: a pawn arrives, a target
    /// is set, the source shares the target's rank and the destination its
    /// file.
    pub open spec fn takes_en_passant(self, mv: Move) -> bool {
        self.arriving(mv).p_type == PieceType::Pawn && match self.en_passant_target {
            Some(target) => mv.src.rank == target.rank && mv.dest.file == target.file,
            None => false,
        }
    }

    /// The move is treated as castling: a king arrives two files from where
    /// it left.
    pub open spec fn is_castle(self, mv: Move) -> bool {
        self.arriving(mv).p_type == PieceType::King && two_apart(mv.src.file, mv.dest.file)
    }

    /// The rook's share of castling: towards the higher files the corner on
    /// file 7 is emptied and a rook put on file 5, towards the lower files
    /// the corner on file 0 is emptied and a rook put on file 3.
    pub open spec fn rook_castled(self, mv: Move, is_white: bool) -> Position {
        let rook = Some(Piece { is_white, p_type: PieceType::Rook });
        if mv.dest.file > mv.src.file {
            self.cleared(Square { rank: mv.src.rank, file: 7 }).placed(
                Square { rank: mv.src.rank, file: 5 },
                rook,
            )
        } else {
            self.cleared(Square { rank: mv.src.rank, file: 0 }).placed(
                Square { rank: mv.src.rank, file: 3 },
                rook,
            )
        }
    }

    /// The reverse of [`Position::rook_castled`].
    pub open spec fn rook_uncastled(self, mv: Move, is_white: bool) -> Position {
        let rook = Some(Piece { is_white, p_type: PieceType::Rook });
        if mv.dest.file > mv.src.file {
            self.cleared(Square { rank: mv.src.rank, file: 5 }).placed(
                Square { rank: mv.src.rank, file: 7 },
                rook,
            )
        } else {
            self.cleared(Square { rank: mv.src.rank, file: 3 }).placed(
                Square { rank: mv.src.rank, file: 0 },
                rook,
            )
        }
    }

    /// The undo record of a move: the move, the piece it takes off the board
    /// (for an en-passant capture the one on the target square, else the one
    /// on the destination), and the en-passant target that stands before it.
    pub open spec fn record_of(self, mv: Move) -> PastMove
        recommends
            self.piece_at(mv.src).is_some(),
    {
        let shifted = self.cleared(mv.src).placed(mv.dest, Some(self.arriving(mv)));
        PastMove {
            mv,
            captured_peice: if self.takes_en_passant(mv) {
                shifted.piece_at(self.en_passant_target.unwrap())
            } else {
                self.piece_at(mv.dest)
            },
            en_passant_target: self.en_passant_target,
        }
    }

    /// The position that a move leads to.
    pub open spec fn after_move(self, mv: Move) -> Position
        recommends
            self.piece_at(mv.src).is_some(),
    {
        let piece = self.arriving(mv);
        let shifted = self.cleared(mv.src).placed(mv.dest, Some(piece));
        let taken = if self.takes_en_passant(mv) {
            shifted.cleared(self.en_passant_target.unwrap())
        } else {
            shifted
        };
        let rooked = if self.is_castle(mv) {
            taken.rook_castled(mv, piece.is_white)
        } else {
            taken
        };
        Position {
            white_to_play: !self.white_to_play,
            en_passant_target: if piece.p_type == PieceType::Pawn && two_apart(
                mv.src.rank,
                mv.dest.rank,
            ) {
                Some(mv.dest)
            } else {
                None
            },
            white_castle_state: if piece.is_white {
                self.white_castle_state.after(piece.p_type, mv.src.file)
            } else {
                self.white_castle_state
            },
            black_castle_state: if piece.is_white {
                self.black_castle_state
            } else {
                self.black_castle_state.after(piece.p_type, mv.src.file)
            },
            ..rooked
        }
    }

    /// The piece that reverting a move puts back on its source: the one on
    /// its destination, as a pawn where the move had promoted.
    pub open spec fn returning(self, past_move: PastMove) -> Piece
        recommends
            self.piece_at(past_move.mv.dest).is_some(),
    {
        let piece = self.piece_at(past_move.mv.dest).unwrap();
        Piece {
            is_white: piece.is_white,
            p_type: if past_move.mv.promotion.is_some() {
                PieceType::Pawn
            } else {
                piece.p_type
            },
        }
    }

    /// Reverting the move treats it as an en-passant capture.
    pub open spec fn took_en_passant(self, past_move: PastMove) -> bool {
        self.returning(past_move).p_type == PieceType::Pawn && match past_move.en_passant_target {
            Some(target) => past_move.mv.src.rank == target.rank && past_move.mv.dest.file
                == target.file,
            None => false,
        }
    }

    /// The position that reverting a move leads to. Castling rights stay as
    /// they are: a right once cleared is not granted again.
    pub open spec fn before_move(self, past_move: PastMove) -> Position
        recommends
            self.piece_at(past_move.mv.dest).is_some(),
    {
        let mv = past_move.mv;
        let piece = self.returning(past_move);
        let back = self.placed(mv.src, Some(piece));
        let en_passant = self.took_en_passant(past_move);
        let lifted = if en_passant {
            back.cleared(mv.dest)
        } else {
            back
        };
        let captured_square = if en_passant {
            past_move.en_passant_target.unwrap()
        } else {
            mv.dest
        };
        let rooked = if piece.p_type == PieceType::King && two_apart(mv.src.file, mv.dest.file) {
            lifted.rook_uncastled(mv, piece.is_white)
        } else {
            lifted
        };
        let restored = rooked.placed(captured_square, past_move.captured_peice);
        Position {
            white_to_play: !self.white_to_play,
            en_passant_target: past_move.en_passant_target,
            ..restored
        }
    }

    /// Applies a move and hands back what reverts it. Fails, changing
    /// nothing, exactly when no piece stands on the source square.
    pub fn do_move(&mut self, mv: Move) -> (done: Result<PastMove, MoveError>)
        ensures
            match done {
                Ok(past_move) => {
                    &&& old(self).piece_at(mv.src).is_some()
                    &&& past_move == old(self).record_of(mv)
                    &&& *final(self) == old(self).after_move(mv)
                },
                Err(error) => {
                    &&& old(self).piece_at(mv.src).is_none()
                    &&& error == MoveError::SourceEmpty(mv.src)
                    &&& *final(self) == *old(self)
                },
            },
    {
        if let Some(mut peice) = self.get_peice(mv.src) {
            let mut captured = self.get_peice(mv.dest);
            self.remove_piece(mv.src);

            if let Some(promoted_type) = mv.promotion {
                peice.p_type = promoted_type;
            }
            self.set_piece(mv.dest, peice);

            if peice.p_type == PieceType::Pawn {
                if let Some(target) = self.en_passant_target {
                    if mv.src.rank == target.rank && mv.dest.file == target.file {
                        captured = self.get_peice(target);
                        self.remove_piece(target);
                    }
                }
            }
            let result = PastMove {
                mv,
                captured_peice: captured,
                en_passant_target: self.en_passant_target,
            };

            if peice.p_type == PieceType::Pawn && is_two_apart(mv.src.rank, mv.dest.rank) {
                self.en_passant_target = Some(mv.dest);
            } else {
                self.en_passant_target = None;
            }

            if peice.is_white {
                self.white_castle_state.clear_for(peice.p_type, mv.src.file);
            } else {
                self.black_castle_state.clear_for(peice.p_type, mv.src.file);
            }
            if peice.p_type == PieceType::King && is_two_apart(mv.src.file, mv.dest.file) {
                let rook = Piece { is_white: peice.is_white, p_type: PieceType::Rook };
                if mv.dest.file > mv.src.file {
                    self.remove_piece(Square { rank: mv.src.rank, file: 7 });
                    self.set_piece(Square { rank: mv.src.rank, file: 5 }, rook);
                } else {
                    self.remove_piece(Square { rank: mv.src.rank, file: 0 });
                    self.set_piece(Square { rank: mv.src.rank, file: 3 }, rook);
                }
            }
            self.white_to_play = !self.white_to_play;
            Ok(result)
        } else {
            Err(MoveError::SourceEmpty(mv.src))
        }
    }

    /// Reverts a move from its record. Fails, changing nothing, exactly when
    /// no piece stands on the move's destination square.
    pub fn undo_move(&mut self, past_move: PastMove) -> (undone: Result<(), MoveError>)
        ensures
            match undone {
                Ok(_) => {
                    &&& old(self).piece_at(past_move.mv.dest).is_some()
                    &&& *final(self) == old(self).before_move(past_move)
                },
                Err(error) => {
                    &&& old(self).piece_at(past_move.mv.dest).is_none()
                    &&& error == MoveError::DestinationEmpty(past_move.mv.dest)
                    &&& *final(self) == *old(self)
                },
            },
    {
        let mv = past_move.mv;
        if let Some(mut peice) = self.get_peice(mv.dest) {
            if mv.promotion.is_some() {
                peice.p_type = PieceType::Pawn;
            }
            self.set_piece(mv.src, peice);

            let mut captured_square = mv.dest;
            if peice.p_type == PieceType::Pawn {
                if let Some(target) = past_move.en_passant_target {
                    if mv.src.rank == target.rank && mv.dest.file == target.file {
                        self.remove_piece(mv.dest);
                        captured_square = target;
                    }
                }
            }
            if peice.p_type == PieceType::King && is_two_apart(mv.src.file, mv.dest.file) {
                let rook = Piece { is_white: peice.is_white, p_type: PieceType::Rook };
                if mv.dest.file > mv.src.file {
                    self.remove_piece(Square { rank: mv.src.rank, file: 5 });
                    self.set_piece(Square { rank: mv.src.rank, file: 7 }, rook);
                } else {
                    self.remove_piece(Square { rank: mv.src.rank, file: 3 });
                    self.set_piece(Square { rank: mv.src.rank, file: 0 }, rook);
                }
            }
            self.set_or_remove_piece(captured_square, past_move.captured_peice);
            self.en_passant_target = past_move.en_passant_target;
            self.white_to_play = !self.white_to_play;
            Ok(())
        } else {
            Err(MoveError::DestinationEmpty(mv.dest))
        }
    }

    /// Trying the given moves one after another, each applied and reverted
    /// again, until one leaves fewer than two kings on the board: whether
    /// one did, and the position left behind. A move that cannot be applied
    /// or reverted ends the trial with its error.
    pub open spec fn probed(self, moves: Seq<Move>) -> (Result<bool, MoveError>, Position)
        decreases moves.len(),
    {
        if moves.len() == 0 {
            (Ok(false), self)
        } else {
            let mv = moves[0];
            let moved = self.after_move(mv);
            if self.piece_at(mv.src).is_none() {
                (Err(MoveError::SourceEmpty(mv.src)), self)
            } else if moved.piece_at(mv.dest).is_none() {
                (Err(MoveError::DestinationEmpty(mv.dest)), moved)
            } else if moved.kings.cardinality() < 2 {
                (Ok(true), moved.before_move(self.record_of(mv)))
            } else {
                moved.before_move(self.record_of(mv)).probed(moves.drop_first())
            }
        }
    }

    /// The outcome of the check test: the turn is passed, the opponent's
    /// pseudo-legal captures are tried, and the turn is passed back unless
    /// an error cut the trial short.
    pub open spec fn check_outcome(self) -> (Result<bool, MoveError>, Position) {
        let turned = self.passed();
        let (found, left) = turned.probed(pseudo_legal_moves(turned, true));
        match found {
            Ok(_) => (found, left.passed()),
            Err(_) => (found, left),
        }
    }

    /// Whether the opponent, given the move, could take a king off the
    /// board with one pseudo-legal capture. The captures are tried on the
    /// position itself and reverted; a castling right that a tried capture
    /// clears stays cleared. An error leaves the position where the trial
    /// stopped.
    pub fn is_check(&mut self) -> (found: Result<bool, MoveError>)
        ensures
            (found, *final(self)) == old(self).check_outcome(),
    {
        let mut moves: Vec<Move> = Vec::new();
        self.do_null_move();
        generate_moves(&mut moves, self, true);
        assert(moves@ =~= pseudo_legal_moves(*self, true));
        assert(moves@.skip(0) =~= moves@);
        let mut i: usize = 0;
        while i < moves.len()
            invariant
                i <= moves.len(),
                self.probed(moves@.skip(i as int)) == old(self).passed().probed(moves@),
                moves@ == pseudo_legal_moves(old(self).passed(), true),
            decreases moves.len() - i,
        {
            let mv = moves[i];
            proof {
                assert(moves@.skip(i as int)[0] == mv);
                assert(moves@.skip(i as int).drop_first() =~= moves@.skip(i + 1));
            }
            let past_move = match self.do_move(mv) {
                Ok(past_move) => past_move,
                Err(error) => {
                    return Err(error);
                },
            };
            let kings = self.kings.count();
            match self.undo_move(past_move) {
                Ok(_) => {},
                Err(error) => {
                    return Err(error);
                },
            }
            if kings < 2 {
                self.undo_null_move();
                return Ok(true);
            }
            i = i + 1;
        }
        assert(moves@.skip(i as int).len() == 0);
        self.undo_null_move();
        return Ok(false);
    }
}

/// What `placed` does to the piece on each square: the given square holds
/// what was put there, every other square what it held.
pub proof fn lemma_placed(pos: Position, square: Square, piece: Option<Piece>)
    ensures
        forall|s: Square|
            #[trigger] pos.placed(square, piece).piece_at(s) == (if square.valid() && s == square {
                piece
            } else {
                pos.piece_at(s)
            }),
        pos.consistent() ==> pos.placed(square, piece).consistent(),
        !square.valid() ==> pos.placed(square, piece) == pos,
        pos.placed(square, piece).white_to_play == pos.white_to_play,
        pos.placed(square, piece).en_passant_target == pos.en_passant_target,
        pos.placed(square, piece).white_castle_state == pos.white_castle_state,
        pos.placed(square, piece).black_castle_state == pos.black_castle_state,
{
    let after = pos.placed(square, piece);
    lemma_boards_of_placed(pos, square, piece);
    lemma_union_contains(pos.white_pieces, pos.black_pieces);
    lemma_union_contains(after.white_pieces, after.black_pieces);
    assert forall|s: Square|
        #[trigger] after.piece_at(s) == (if square.valid() && s == square {
            piece
        } else {
            pos.piece_at(s)
        }) by {
        lemma_placed_square(pos, square, piece, s);
        crate::bitboard::lemma_contains_valid(pos.white_pieces, s);
        crate::bitboard::lemma_contains_valid(pos.black_pieces, s);
    }
    if pos.consistent() {
        assert forall|s: Square| #[trigger] after.square_consistent(s) by {
            lemma_placed_square(pos, square, piece, s);
            assert(pos.square_consistent(s));
        }
    }
    if !square.valid() {
        lemma_with_offboard(square);
    }
}

/// Only squares of the board hold a piece.
pub proof fn lemma_piece_at_valid(pos: Position, s: Square)
    ensures
        pos.piece_at(s).is_some() ==> s.valid(),
{
    lemma_union_contains(pos.white_pieces, pos.black_pieces);
    crate::bitboard::lemma_contains_valid(pos.white_pieces, s);
    crate::bitboard::lemma_contains_valid(pos.black_pieces, s);
}

/// Membership of one square in each of the eight boards after `placed`.
proof fn lemma_placed_square(pos: Position, square: Square, piece: Option<Piece>, s: Square)
    ensures
        ({
            let after = pos.placed(square, piece);
            let hit = square.valid() && s == square;
            let put = |white: bool| piece.is_some() && piece.unwrap().is_white == white;
            let kind = |t: PieceType| piece.is_some() && piece.unwrap().p_type == t;
            &&& after.white_pieces.contains(s) == (if hit { put(true) } else { pos.white_pieces.contains(s) })
            &&& after.black_pieces.contains(s) == (if hit { put(false) } else { pos.black_pieces.contains(s) })
            &&& after.pawns.contains(s) == (if hit { kind(PieceType::Pawn) } else { pos.pawns.contains(s) })
            &&& after.knights.contains(s) == (if hit { kind(PieceType::Knight) } else { pos.knights.contains(s) })
            &&& after.bishops.contains(s) == (if hit { kind(PieceType::Bishop) } else { pos.bishops.contains(s) })
            &&& after.rooks.contains(s) == (if hit { kind(PieceType::Rook) } else { pos.rooks.contains(s) })
            &&& after.queens.contains(s) == (if hit { kind(PieceType::Queen) } else { pos.queens.contains(s) })
            &&& after.kings.contains(s) == (if hit { kind(PieceType::King) } else { pos.kings.contains(s) })
        }),
{
    lemma_boards_of_placed(pos, square, piece);
    let after = pos.placed(square, piece);
    assert(after.white_pieces == after.color_board(true));
    assert(after.black_pieces == after.color_board(false));
    assert(after.pawns == after.type_board(PieceType::Pawn));
    assert(after.knights == after.type_board(PieceType::Knight));
    assert(after.bishops == after.type_board(PieceType::Bishop));
    assert(after.rooks == after.type_board(PieceType::Rook));
    assert(after.queens == after.type_board(PieceType::Queen));
    assert(after.kings == after.type_board(PieceType::King));
}

/// Membership in each board after `placed`.
pub proof fn lemma_boards_of_placed(pos: Position, square: Square, piece: Option<Piece>)
    ensures
        forall|s: Square, white: bool|
            #[trigger] pos.placed(square, piece).color_board(white).contains(s) == (if square.valid()
                && s == square {
                piece.is_some() && piece.unwrap().is_white == white
            } else {
                pos.color_board(white).contains(s)
            }),
        forall|s: Square, t: PieceType|
            #[trigger] pos.placed(square, piece).type_board(t).contains(s) == (if square.valid() && s
                == square {
                piece.is_some() && piece.unwrap().p_type == t
            } else {
                pos.type_board(t).contains(s)
            }),
{
    lemma_with_contains(pos.white_pieces, square, false);
    lemma_with_contains(pos.black_pieces, square, false);
    lemma_with_contains(pos.pawns, square, false);
    lemma_with_contains(pos.knights, square, false);
    lemma_with_contains(pos.bishops, square, false);
    lemma_with_contains(pos.rooks, square, false);
    lemma_with_contains(pos.queens, square, false);
    lemma_with_contains(pos.kings, square, false);
    let bare = pos.cleared(square);
    lemma_with_contains(bare.white_pieces, square, true);
    lemma_with_contains(bare.black_pieces, square, true);
    lemma_with_contains(bare.pawns, square, true);
    lemma_with_contains(bare.knights, square, true);
    lemma_with_contains(bare.bishops, square, true);
    lemma_with_contains(bare.rooks, square, true);
    lemma_with_contains(bare.queens, square, true);
    lemma_with_contains(bare.kings, square, true);
}

/// Two consistent positions that hold the same piece on every square and
/// agree on the side to move, the en-passant target and the castling rights
/// are the same position, bit for bit.
pub proof fn lemma_same_pieces(a: Position, b: Position)
    requires
        a.consistent(),
        b.consistent(),
        forall|s: Square| s.valid() ==> a.piece_at(s) == b.piece_at(s),
        a.white_to_play == b.white_to_play,
        a.en_passant_target == b.en_passant_target,
        a.white_castle_state == b.white_castle_state,
        a.black_castle_state == b.black_castle_state,
    ensures
        a == b,
{
    lemma_union_contains(a.white_pieces, a.black_pieces);
    lemma_union_contains(b.white_pieces, b.black_pieces);
    assert forall|s: Square| s.valid() implies {
        &&& a.white_pieces.contains(s) == b.white_pieces.contains(s)
        &&& a.black_pieces.contains(s) == b.black_pieces.contains(s)
        &&& a.pawns.contains(s) == b.pawns.contains(s)
        &&& a.knights.contains(s) == b.knights.contains(s)
        &&& a.bishops.contains(s) == b.bishops.contains(s)
        &&& a.rooks.contains(s) == b.rooks.contains(s)
        &&& a.queens.contains(s) == b.queens.contains(s)
        &&& a.kings.contains(s) == b.kings.contains(s)
    } by {
        assert(a.square_consistent(s));
        assert(b.square_consistent(s));
        assert(a.piece_at(s) == b.piece_at(s));
    }
    lemma_same_squares(a.white_pieces, b.white_pieces);
    lemma_same_squares(a.black_pieces, b.black_pieces);
    lemma_same_squares(a.pawns, b.pawns);
    lemma_same_squares(a.knights, b.knights);
    lemma_same_squares(a.bishops, b.bishops);
    lemma_same_squares(a.rooks, b.rooks);
    lemma_same_squares(a.queens, b.queens);
    lemma_same_squares(a.kings, b.kings);
}

} // verus!
