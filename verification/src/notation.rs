//! Moves as text: a file letter and a rank digit for the source, the same
//! for the destination, and an optional promotion letter.

use vstd::prelude::*;
use crate::square::Square;
use crate::piece::{Piece, PieceType};
use crate::moves::{Move, MoveError};

verus! {

/// Why a text is no move.
#[derive(Clone, Copy, PartialEq, Eq, Structural, Debug)]
pub enum ParseError {
    /// The text has neither four nor five characters; it has this many.
    BadLength(usize),
    /// The character is no file letter from `a` to `h`.
    BadFile(char),
    /// The character is no rank digit from `1` to `8`.
    BadRank(char),
    /// The character is no promotion letter among `q`, `r`, `b`, `n`.
    BadPromotion(char),
}

/// The file that a letter names.
pub open spec fn file_of(c: char) -> Option<i8> {
    if c == 'a' {
        Some(0i8)
    } else if c == 'b' {
        Some(1i8)
    } else if c == 'c' {
        Some(2i8)
    } else if c == 'd' {
        Some(3i8)
    } else if c == 'e' {
        Some(4i8)
    } else if c == 'f' {
        Some(5i8)
    } else if c == 'g' {
        Some(6i8)
    } else if c == 'h' {
        Some(7i8)
    } else {
        None
    }
}

/// The rank that a digit names.
pub open spec fn rank_of(c: char) -> Option<i8> {
    if c == '1' {
        Some(0i8)
    } else if c == '2' {
        Some(1i8)
    } else if c == '3' {
        Some(2i8)
    } else if c == '4' {
        Some(3i8)
    } else if c == '5' {
        Some(4i8)
    } else if c == '6' {
        Some(5i8)
    } else if c == '7' {
        Some(6i8)
    } else if c == '8' {
        Some(7i8)
    } else {
        None
    }
}

/// The kind that a promotion letter names.
pub open spec fn promotion_of(c: char) -> Option<PieceType> {
    if c == 'q' {
        Some(PieceType::Queen)
    } else if c == 'r' {
        Some(PieceType::Rook)
    } else if c == 'b' {
        Some(PieceType::Bishop)
    } else if c == 'n' {
        Some(PieceType::Knight)
    } else {
        None
    }
}

/// The letter of a file of the board.
pub open spec fn file_letter(file: i8) -> char {
    if file == 0 {
        'a'
    } else if file == 1 {
        'b'
    } else if file == 2 {
        'c'
    } else if file == 3 {
        'd'
    } else if file == 4 {
        'e'
    } else if file == 5 {
        'f'
    } else if file == 6 {
        'g'
    } else {
        'h'
    }
}

/// The digit of a rank of the board.
pub open spec fn rank_digit(rank: i8) -> char {
    if rank == 0 {
        '1'
    } else if rank == 1 {
        '2'
    } else if rank == 2 {
        '3'
    } else if rank == 3 {
        '4'
    } else if rank == 4 {
        '5'
    } else if rank == 5 {
        '6'
    } else if rank == 6 {
        '7'
    } else {
        '8'
    }
}

/// The lower-case letter of a kind of piece.
pub open spec fn kind_letter(kind: PieceType) -> char {
    match kind {
        PieceType::Pawn => 'p',
        PieceType::Knight => 'n',
        PieceType::Bishop => 'b',
        PieceType::Rook => 'r',
        PieceType::Queen => 'q',
        PieceType::King => 'k',
    }
}

/// The square that two characters name, or the character that names none.
pub open spec fn parsed_square(file: char, rank: char) -> Result<Square, ParseError> {
    match (file_of(file), rank_of(rank)) {
        (None, _) => Err(ParseError::BadFile(file)),
        (Some(_), None) => Err(ParseError::BadRank(rank)),
        (Some(f), Some(r)) => Ok(Square { rank: r, file: f }),
    }
}

/// The move that a text names, or the first thing wrong with the text.
pub open spec fn parsed_move(text: Seq<char>) -> Result<Move, ParseError> {
    if text.len() != 4 && text.len() != 5 {
        Err(ParseError::BadLength(text.len() as usize))
    } else {
        match (parsed_square(text[0], text[1]), parsed_square(text[2], text[3])) {
            (Err(error), _) => Err(error),
            (Ok(_), Err(error)) => Err(error),
            (Ok(src), Ok(dest)) => if text.len() == 4 {
                Ok(Move { src, dest, promotion: None })
            } else {
                match promotion_of(text[4]) {
                    Some(kind) => Ok(Move { src, dest, promotion: Some(kind) }),
                    None => Err(ParseError::BadPromotion(text[4])),
                }
            },
        }
    }
}

/// The text of a square of the board.
pub open spec fn square_text(square: Square) -> Seq<char> {
    seq![file_letter(square.file), rank_digit(square.rank)]
}

/// The text of a move between squares of the board.
pub open spec fn move_text(mv: Move) -> Seq<char> {
    square_text(mv.src) + square_text(mv.dest) + match mv.promotion {
        Some(kind) => seq![kind_letter(kind)],
        None => Seq::empty(),
    }
}

fn parse_file(c: char) -> (file: Option<i8>)
    ensures
        file == file_of(c),
{
    if c == 'a' {
        Some(0)
    } else if c == 'b' {
        Some(1)
    } else if c == 'c' {
        Some(2)
    } else if c == 'd' {
        Some(3)
    } else if c == 'e' {
        Some(4)
    } else if c == 'f' {
        Some(5)
    } else if c == 'g' {
        Some(6)
    } else if c == 'h' {
        Some(7)
    } else {
        None
    }
}

fn parse_rank(c: char) -> (rank: Option<i8>)
    ensures
        rank == rank_of(c),
{
    if c == '1' {
        Some(0)
    } else if c == '2' {
        Some(1)
    } else if c == '3' {
        Some(2)
    } else if c == '4' {
        Some(3)
    } else if c == '5' {
        Some(4)
    } else if c == '6' {
        Some(5)
    } else if c == '7' {
        Some(6)
    } else if c == '8' {
        Some(7)
    } else {
        None
    }
}

fn file_name(file: i8) -> (name: &'static str)
    requires
        0 <= file < 8,
    ensures
        name@ == seq![file_letter(file)],
{
    proof {
        reveal_strlit("a");
        reveal_strlit("b");
        reveal_strlit("c");
        reveal_strlit("d");
        reveal_strlit("e");
        reveal_strlit("f");
        reveal_strlit("g");
        reveal_strlit("h");
    }
    let name = if file == 0 {
        "a"
    } else if file == 1 {
        "b"
    } else if file == 2 {
        "c"
    } else if file == 3 {
        "d"
    } else if file == 4 {
        "e"
    } else if file == 5 {
        "f"
    } else if file == 6 {
        "g"
    } else {
        "h"
    };
    assert(name@ =~= seq![file_letter(file)]);
    name
}

fn rank_name(rank: i8) -> (name: &'static str)
    requires
        0 <= rank < 8,
    ensures
        name@ == seq![rank_digit(rank)],
{
    proof {
        reveal_strlit("1");
        reveal_strlit("2");
        reveal_strlit("3");
        reveal_strlit("4");
        reveal_strlit("5");
        reveal_strlit("6");
        reveal_strlit("7");
        reveal_strlit("8");
    }
    let name = if rank == 0 {
        "1"
    } else if rank == 1 {
        "2"
    } else if rank == 2 {
        "3"
    } else if rank == 3 {
        "4"
    } else if rank == 4 {
        "5"
    } else if rank == 5 {
        "6"
    } else if rank == 6 {
        "7"
    } else {
        "8"
    };
    assert(name@ =~= seq![rank_digit(rank)]);
    name
}

fn kind_name(kind: PieceType) -> (name: &'static str)
    ensures
        name@ == seq![kind_letter(kind)],
{
    proof {
        reveal_strlit("p");
        reveal_strlit("n");
        reveal_strlit("b");
        reveal_strlit("r");
        reveal_strlit("q");
        reveal_strlit("k");
    }
    let name = match kind {
        PieceType::Pawn => "p",
        PieceType::Knight => "n",
        PieceType::Bishop => "b",
        PieceType::Rook => "r",
        PieceType::Queen => "q",
        PieceType::King => "k",
    };
    assert(name@ =~= seq![kind_letter(kind)]);
    name
}

impl Square {
    /// Reads a square from its file letter and its rank digit.
    pub fn parse(file: char, rank: char) -> (square: Result<Square, ParseError>)
        ensures
            square == parsed_square(file, rank),
            square matches Ok(s) ==> s.valid(),
    {
        match parse_file(file) {
            None => Err(ParseError::BadFile(file)),
            Some(f) => match parse_rank(rank) {
                None => Err(ParseError::BadRank(rank)),
                Some(r) => Ok(Square { rank: r, file: f }),
            },
        }
    }

    /// Writes a square of the board as its file letter and its rank digit.
    pub fn text(&self) -> (text: String)
        requires
            self.valid(),
        ensures
            text@ == square_text(*self),
    {
        let mut text = String::new();
        text.append(file_name(self.file));
        text.append(rank_name(self.rank));
        assert(text@ =~= square_text(*self));
        text
    }
}

impl Move {
    /// Reads a move from text of exactly four or five characters: source
    /// square, destination square, and a promotion letter where there is a
    /// fifth.
    pub fn parse(text: &str) -> (mv: Result<Move, ParseError>)
        ensures
            mv == parsed_move(text@),
            mv matches Ok(m) ==> m.src.valid() && m.dest.valid(),
    {
        let length = text.unicode_len();
        if length != 4 && length != 5 {
            return Err(ParseError::BadLength(length));
        }
        let src = match Square::parse(text.get_char(0), text.get_char(1)) {
            Ok(square) => square,
            Err(error) => {
                return Err(error);
            },
        };
        let dest = match Square::parse(text.get_char(2), text.get_char(3)) {
            Ok(square) => square,
            Err(error) => {
                return Err(error);
            },
        };
        if length == 4 {
            return Ok(Move { src, dest, promotion: None });
        }
        let letter = text.get_char(4);
        let promotion = if letter == 'q' {
            PieceType::Queen
        } else if letter == 'r' {
            PieceType::Rook
        } else if letter == 'b' {
            PieceType::Bishop
        } else if letter == 'n' {
            PieceType::Knight
        } else {
            return Err(ParseError::BadPromotion(letter));
        };
        Ok(Move { src, dest, promotion: Some(promotion) })
    }

    /// Writes a move between squares of the board as text.
    pub fn text(&self) -> (text: String)
        requires
            self.src.valid(),
            self.dest.valid(),
        ensures
            text@ == move_text(*self),
    {
        let mut text = String::new();
        text.append(file_name(self.src.file));
        text.append(rank_name(self.src.rank));
        text.append(file_name(self.dest.file));
        text.append(rank_name(self.dest.rank));
        if let Some(kind) = self.promotion {
            text.append(kind_name(kind));
        }
        assert(text@ =~= move_text(*self));
        text
    }
}

impl Piece {
    /// The letter of a piece: upper case for white, lower case for black.
    pub open spec fn spec_letter(self) -> char {
        if self.is_white {
            match self.p_type {
                PieceType::Pawn => 'P',
                PieceType::Knight => 'N',
                PieceType::Bishop => 'B',
                PieceType::Rook => 'R',
                PieceType::Queen => 'Q',
                PieceType::King => 'K',
            }
        } else {
            kind_letter(self.p_type)
        }
    }

    /// The letter of the piece.
    #[verifier::when_used_as_spec(spec_letter)]
    pub fn letter(self) -> (letter: char)
        ensures
            letter == self.spec_letter(),
    {
        if self.is_white {
            match self.p_type {
                PieceType::Pawn => 'P',
                PieceType::Knight => 'N',
                PieceType::Bishop => 'B',
                PieceType::Rook => 'R',
                PieceType::Queen => 'Q',
                PieceType::King => 'K',
            }
        } else {
            match self.p_type {
                PieceType::Pawn => 'p',
                PieceType::Knight => 'n',
                PieceType::Bishop => 'b',
                PieceType::Rook => 'r',
                PieceType::Queen => 'q',
                PieceType::King => 'k',
            }
        }
    }
}

impl MoveError {
    /// The square that was found empty.
    pub open spec fn spec_square(self) -> Square {
        match self {
            MoveError::SourceEmpty(square) => square,
            MoveError::DestinationEmpty(square) => square,
        }
    }

    /// The square that was found empty.
    #[verifier::when_used_as_spec(spec_square)]
    pub fn square(self) -> (square: Square)
        ensures
            square == self.spec_square(),
    {
        match self {
            MoveError::SourceEmpty(square) => square,
            MoveError::DestinationEmpty(square) => square,
        }
    }
}

/// The name of a square in a message: its text on the board, a question
/// mark off it.
pub open spec fn square_name(square: Square) -> Seq<char> {
    if square.valid() {
        square_text(square)
    } else {
        "?"@
    }
}

/// What the error says.
pub open spec fn error_text(error: MoveError) -> Seq<char> {
    match error {
        MoveError::SourceEmpty(square) => "Source square "@ + square_name(square) + " is empty"@,
        MoveError::DestinationEmpty(square) => "Destination square "@ + square_name(square)
            + " is empty"@,
    }
}

impl MoveError {
    /// Says which square was found empty.
    pub fn message(&self) -> (text: String)
        ensures
            text@ == error_text(*self),
    {
        let (mut text, square) = match self {
            MoveError::SourceEmpty(square) => (String::from_str("Source square "), *square),
            MoveError::DestinationEmpty(square) => (
                String::from_str("Destination square "),
                *square,
            ),
        };
        if square.is_valid() {
            text.append(file_name(square.file));
            text.append(rank_name(square.rank));
        } else {
            text.append("?");
        }
        text.append(" is empty");
        assert(text@ =~= error_text(*self));
        text
    }
}

/// Reading the text of a move gives the move back, for every move between
/// squares of the board that promotes to a queen, rook, bishop or knight or
/// not at all.
pub proof fn lemma_text_round_trip(mv: Move)
    requires
        mv.src.valid(),
        mv.dest.valid(),
        mv.promotion matches Some(kind) ==> kind != PieceType::Pawn && kind != PieceType::King,
    ensures
        parsed_move(move_text(mv)) == Ok::<Move, ParseError>(mv),
{
    let text = move_text(mv);
    assert(text[0] == file_letter(mv.src.file));
    assert(text[1] == rank_digit(mv.src.rank));
    assert(text[2] == file_letter(mv.dest.file));
    assert(text[3] == rank_digit(mv.dest.rank));
    assert(parsed_square(text[0], text[1]) == Ok::<Square, ParseError>(mv.src));
    assert(parsed_square(text[2], text[3]) == Ok::<Square, ParseError>(mv.dest));
    if mv.promotion.is_some() {
        assert(text[4] == kind_letter(mv.promotion.unwrap()));
    }
}

} // verus!
