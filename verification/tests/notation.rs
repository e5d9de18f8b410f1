use crab_gambit::moves::{Move, MoveError};
use crab_gambit::notation::ParseError;
use crab_gambit::piece::{Piece, PieceType};
use crab_gambit::square::Square;

#[test]
fn parses_a_plain_move() {
    let mv = Move::parse("e2e4").unwrap();
    assert_eq!(mv.src, Square { rank: 1, file: 4 });
    assert_eq!(mv.dest, Square { rank: 3, file: 4 });
    assert_eq!(mv.promotion, None);
}

#[test]
fn parses_each_promotion_letter() {
    assert_eq!(Move::parse("a7a8q").unwrap().promotion, Some(PieceType::Queen));
    assert_eq!(Move::parse("a7a8r").unwrap().promotion, Some(PieceType::Rook));
    assert_eq!(Move::parse("a7a8b").unwrap().promotion, Some(PieceType::Bishop));
    assert_eq!(Move::parse("h2h1n").unwrap().promotion, Some(PieceType::Knight));
}

#[test]
fn rejects_a_wrong_length() {
    assert_eq!(Move::parse(""), Err(ParseError::BadLength(0)));
    assert_eq!(Move::parse("e2e"), Err(ParseError::BadLength(3)));
    assert_eq!(Move::parse("e2e4qq"), Err(ParseError::BadLength(6)));
}

#[test]
fn rejects_a_bad_file_letter() {
    assert_eq!(Move::parse("i2e4"), Err(ParseError::BadFile('i')));
    assert_eq!(Move::parse("e2E4"), Err(ParseError::BadFile('E')));
}

#[test]
fn rejects_a_bad_rank_digit() {
    assert_eq!(Move::parse("e9e4"), Err(ParseError::BadRank('9')));
    assert_eq!(Move::parse("e2e0"), Err(ParseError::BadRank('0')));
}

#[test]
fn rejects_a_bad_promotion_letter() {
    assert_eq!(Move::parse("a7a8k"), Err(ParseError::BadPromotion('k')));
    assert_eq!(Move::parse("a7a8Q"), Err(ParseError::BadPromotion('Q')));
}

#[test]
fn source_errors_come_before_destination_errors() {
    assert_eq!(Move::parse("z9y0"), Err(ParseError::BadFile('z')));
    assert_eq!(Move::parse("a9y0"), Err(ParseError::BadRank('9')));
    assert_eq!(Move::parse("a1y0"), Err(ParseError::BadFile('y')));
}

#[test]
fn square_parse_and_text() {
    let square = Square::parse('c', '6').unwrap();
    assert_eq!(square, Square { rank: 5, file: 2 });
    assert_eq!(square.text(), "c6");
    assert_eq!(Square::parse('c', 'x'), Err(ParseError::BadRank('x')));
    assert_eq!(Square::parse('x', '1'), Err(ParseError::BadFile('x')));
}

#[test]
fn move_text_round_trips_through_parse() {
    for text in ["a1h8", "e2e4", "g7g8q", "b2b1n", "h7h8r", "c7c8b"] {
        let mv = Move::parse(text).unwrap();
        assert_eq!(mv.text(), text);
    }
    for rank in 0..8i8 {
        for file in 0..8i8 {
            let mv = Move {
                src: Square { rank, file },
                dest: Square { rank: 7 - rank, file: 7 - file },
                promotion: None,
            };
            assert_eq!(Move::parse(&mv.text()), Ok(mv));
        }
    }
}

#[test]
fn piece_letters_follow_colour() {
    assert_eq!(Piece::white(PieceType::King).letter(), 'K');
    assert_eq!(Piece::black(PieceType::King).letter(), 'k');
    assert_eq!(Piece::white(PieceType::Knight).letter(), 'N');
    assert_eq!(Piece::black(PieceType::Pawn).letter(), 'p');
    assert_eq!(Piece::white(PieceType::Queen).letter(), 'Q');
    assert_eq!(Piece::black(PieceType::Rook).letter(), 'r');
    assert_eq!(Piece::white(PieceType::Bishop).letter(), 'B');
}

#[test]
fn move_error_messages_name_the_square() {
    let e2 = Square { rank: 1, file: 4 };
    assert_eq!(MoveError::SourceEmpty(e2).message(), "Source square e2 is empty");
    assert_eq!(MoveError::DestinationEmpty(e2).message(), "Destination square e2 is empty");
    assert_eq!(MoveError::SourceEmpty(e2).square(), e2);
    let off = Square { rank: 9, file: 0 };
    assert_eq!(MoveError::SourceEmpty(off).message(), "Source square ? is empty");
}
