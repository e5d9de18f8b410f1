use crab_gambit::moves::{generate_moves, Move, MoveError};
use crab_gambit::piece::{Piece, PieceType};
use crab_gambit::position::{CastleState, Position};
use crab_gambit::square::Square;

fn sq(rank: i8, file: i8) -> Square {
    Square { rank, file }
}

fn mv(text: &str) -> Move {
    Move::parse(text).unwrap()
}

fn all_moves(pos: &Position) -> Vec<Move> {
    let mut moves = Vec::new();
    generate_moves(&mut moves, pos, true);
    generate_moves(&mut moves, pos, false);
    moves
}

fn play(pos: &mut Position, texts: &[&str]) {
    for text in texts {
        pos.do_move(mv(text)).unwrap();
    }
}

#[test]
fn empty_position_has_no_piece() {
    let pos = Position::empty();
    assert!(pos.white_to_play);
    assert_eq!(pos.en_passant_target, None);
    assert!(pos.white_castle_state.can_short_castle && pos.white_castle_state.can_long_castle);
    assert!(pos.black_castle_state.can_short_castle && pos.black_castle_state.can_long_castle);
    assert_eq!(pos.all_pieces().count(), 0);
    for rank in 0..8 {
        for file in 0..8 {
            assert_eq!(pos.get_peice(sq(rank, file)), None);
        }
    }
}

#[test]
fn start_position_holds_the_thirty_two_pieces() {
    let pos = Position::start();
    let back = [
        PieceType::Rook,
        PieceType::Knight,
        PieceType::Bishop,
        PieceType::Queen,
        PieceType::King,
        PieceType::Bishop,
        PieceType::Knight,
        PieceType::Rook,
    ];
    for file in 0..8i8 {
        let kind = back[file as usize];
        assert_eq!(pos.get_peice(sq(0, file)), Some(Piece::white(kind)));
        assert_eq!(pos.get_peice(sq(1, file)), Some(Piece::white(PieceType::Pawn)));
        assert_eq!(pos.get_peice(sq(6, file)), Some(Piece::black(PieceType::Pawn)));
        assert_eq!(pos.get_peice(sq(7, file)), Some(Piece::black(kind)));
        for rank in 2..6 {
            assert_eq!(pos.get_peice(sq(rank, file)), None);
        }
    }
    assert_eq!(pos.all_pieces().count(), 32);
    assert_eq!(pos.by_color(true).count(), 16);
    assert_eq!(pos.by_color(false).count(), 16);
    assert_eq!(pos.kings.count(), 2);
    assert!(pos.white_to_play);
}

#[test]
fn set_and_remove_keep_the_boards_in_step() {
    let mut pos = Position::empty();
    pos.set_piece(sq(3, 3), Piece::white(PieceType::Queen));
    assert_eq!(pos.get_piece_type(sq(3, 3)), Some(PieceType::Queen));
    assert!(pos.white_pieces.get(sq(3, 3)));
    assert!(pos.queens.get(sq(3, 3)));
    pos.set_piece(sq(3, 3), Piece::black(PieceType::Knight));
    assert_eq!(pos.get_peice(sq(3, 3)), Some(Piece::black(PieceType::Knight)));
    assert!(!pos.white_pieces.get(sq(3, 3)));
    assert!(!pos.queens.get(sq(3, 3)));
    pos.set_or_remove_piece(sq(3, 3), None);
    assert_eq!(pos, Position::empty());
    pos.set_piece(sq(1, 1), Piece::white(PieceType::Pawn));
    pos.remove_piece(sq(1, 1));
    assert_eq!(pos, Position::empty());
    pos.set_piece(sq(8, 1), Piece::white(PieceType::Pawn));
    assert_eq!(pos, Position::empty());
}

#[test]
fn mutable_board_accessors_reach_the_right_board() {
    let mut pos = Position::start();
    pos.by_type_mut(PieceType::Rook).set(sq(4, 4), true);
    assert!(pos.rooks.get(sq(4, 4)));
    pos.by_color_mut(false).set(sq(4, 4), true);
    assert!(pos.black_pieces.get(sq(4, 4)));
    assert_eq!(pos.get_peice(sq(4, 4)), Some(Piece::black(PieceType::Rook)));
}

#[test]
fn null_move_flips_only_the_side_to_move() {
    let mut pos = Position::start();
    let before = pos;
    pos.do_null_move();
    assert!(!pos.white_to_play);
    assert_eq!(Position { white_to_play: true, ..pos }, before);
    pos.undo_null_move();
    assert_eq!(pos, before);
}

#[test]
fn do_move_fails_on_an_empty_source() {
    let mut pos = Position::start();
    let before = pos;
    assert_eq!(pos.do_move(mv("e4e5")), Err(MoveError::SourceEmpty(sq(3, 4))));
    assert_eq!(pos, before);
}

#[test]
fn undo_move_fails_on_an_empty_destination() {
    let mut pos = Position::start();
    let past = pos.do_move(mv("e2e4")).unwrap();
    pos.undo_move(past).unwrap();
    let before = pos;
    assert_eq!(pos.undo_move(past), Err(MoveError::DestinationEmpty(sq(3, 4))));
    assert_eq!(pos, before);
}

#[test]
fn double_push_sets_the_en_passant_target() {
    let mut pos = Position::start();
    let past = pos.do_move(mv("e2e4")).unwrap();
    assert_eq!(past.en_passant_target, None);
    assert_eq!(past.captured_peice, None);
    assert_eq!(pos.en_passant_target, Some(sq(3, 4)));
    assert!(!pos.white_to_play);
    let past = pos.do_move(mv("g8f6")).unwrap();
    assert_eq!(past.en_passant_target, Some(sq(3, 4)));
    assert_eq!(pos.en_passant_target, None);
    pos.do_move(mv("e4e5")).unwrap();
    assert_eq!(pos.en_passant_target, None);
}

#[test]
fn en_passant_takes_the_pawn_on_the_target_square() {
    let mut pos = Position::start();
    play(&mut pos, &["e2e4", "a7a6", "e4e5", "d7d5"]);
    assert_eq!(pos.en_passant_target, Some(sq(4, 3)));
    let before = pos;
    let capture = mv("e5d6");
    let mut captures = Vec::new();
    generate_moves(&mut captures, &pos, true);
    assert!(captures.contains(&capture));
    let past = pos.do_move(capture).unwrap();
    assert_eq!(past.captured_peice, Some(Piece::black(PieceType::Pawn)));
    assert_eq!(pos.get_peice(sq(4, 3)), None);
    assert_eq!(pos.get_peice(sq(5, 3)), Some(Piece::white(PieceType::Pawn)));
    assert_eq!(pos.get_peice(sq(4, 4)), None);
    assert_eq!(pos.all_pieces().count(), 31);
    pos.undo_move(past).unwrap();
    assert_eq!(pos, before);
}

#[test]
fn en_passant_is_offered_for_one_move_only() {
    let mut pos = Position::start();
    play(&mut pos, &["e2e4", "a7a6", "e4e5", "d7d5", "h2h3", "h7h6"]);
    assert_eq!(pos.en_passant_target, None);
    let mut captures = Vec::new();
    generate_moves(&mut captures, &pos, true);
    assert!(!captures.contains(&mv("e5d6")));
}

#[test]
fn capture_is_recorded_and_restored() {
    let mut pos = Position::start();
    play(&mut pos, &["e2e4", "d7d5"]);
    let before = pos;
    let past = pos.do_move(mv("e4d5")).unwrap();
    assert_eq!(past.captured_peice, Some(Piece::black(PieceType::Pawn)));
    assert_eq!(pos.get_peice(sq(4, 3)), Some(Piece::white(PieceType::Pawn)));
    assert_eq!(pos.all_pieces().count(), 31);
    pos.undo_move(past).unwrap();
    assert_eq!(pos, before);
}

#[test]
fn promotion_changes_the_kind_and_undo_gives_the_pawn_back() {
    let mut pos = Position::empty();
    pos.set_piece(sq(6, 0), Piece::white(PieceType::Pawn));
    pos.set_piece(sq(0, 4), Piece::white(PieceType::King));
    pos.set_piece(sq(7, 4), Piece::black(PieceType::King));
    let before = pos;
    let past = pos.do_move(mv("a7a8q")).unwrap();
    assert_eq!(pos.get_peice(sq(7, 0)), Some(Piece::white(PieceType::Queen)));
    assert_eq!(pos.get_peice(sq(6, 0)), None);
    assert_eq!(pos.pawns.count(), 0);
    pos.undo_move(past).unwrap();
    assert_eq!(pos, before);
}

#[test]
fn king_and_rook_moves_clear_castling_rights() {
    let mut pos = Position::start();
    play(&mut pos, &["a2a4", "h7h5", "a1a3"]);
    assert_eq!(
        pos.white_castle_state,
        CastleState { can_short_castle: true, can_long_castle: false }
    );
    play(&mut pos, &["h8h6"]);
    assert_eq!(
        pos.black_castle_state,
        CastleState { can_short_castle: false, can_long_castle: true }
    );
    play(&mut pos, &["e2e4", "e7e5", "e1e2"]);
    assert_eq!(
        pos.white_castle_state,
        CastleState { can_short_castle: false, can_long_castle: false }
    );
    play(&mut pos, &["a3b3"]);
    assert_eq!(
        pos.black_castle_state,
        CastleState { can_short_castle: false, can_long_castle: true }
    );
}

#[test]
fn a_rook_move_from_a_middle_file_clears_no_right() {
    let mut pos = Position::empty();
    pos.set_piece(sq(0, 4), Piece::white(PieceType::King));
    pos.set_piece(sq(7, 4), Piece::black(PieceType::King));
    pos.set_piece(sq(3, 3), Piece::white(PieceType::Rook));
    pos.do_move(mv("d4d5")).unwrap();
    assert_eq!(
        pos.white_castle_state,
        CastleState { can_short_castle: true, can_long_castle: true }
    );
}

#[test]
fn castling_moves_the_rook_and_undo_puts_it_back() {
    let mut pos = Position::empty();
    pos.set_piece(sq(0, 4), Piece::white(PieceType::King));
    pos.set_piece(sq(0, 7), Piece::white(PieceType::Rook));
    pos.set_piece(sq(0, 0), Piece::white(PieceType::Rook));
    pos.set_piece(sq(7, 4), Piece::black(PieceType::King));
    let before = pos;

    let past = pos.do_move(mv("e1g1")).unwrap();
    assert_eq!(pos.get_peice(sq(0, 6)), Some(Piece::white(PieceType::King)));
    assert_eq!(pos.get_peice(sq(0, 5)), Some(Piece::white(PieceType::Rook)));
    assert_eq!(pos.get_peice(sq(0, 7)), None);
    assert_eq!(pos.get_peice(sq(0, 4)), None);
    pos.undo_move(past).unwrap();
    let cleared = CastleState { can_short_castle: false, can_long_castle: false };
    assert_eq!(pos, Position { white_castle_state: cleared, ..before });

    let mut pos = before;
    let past = pos.do_move(mv("e1c1")).unwrap();
    assert_eq!(pos.get_peice(sq(0, 2)), Some(Piece::white(PieceType::King)));
    assert_eq!(pos.get_peice(sq(0, 3)), Some(Piece::white(PieceType::Rook)));
    assert_eq!(pos.get_peice(sq(0, 0)), None);
    pos.undo_move(past).unwrap();
    assert_eq!(pos, Position { white_castle_state: cleared, ..before });
}

#[test]
fn undo_restores_every_pseudo_legal_move_but_for_castling_rights() {
    let mut pos = Position::start();
    let lines: [&[&str]; 4] = [
        &[],
        &["e2e4", "e7e5", "g1f3", "b8c6", "f1c4", "g8f6"],
        &["e2e4", "a7a6", "e4e5", "d7d5"],
        &["d2d4", "d7d5", "c1f4", "c8f5", "b1c3", "b8c6", "d1d2", "d8d7"],
    ];
    for line in lines {
        pos = Position::start();
        play(&mut pos, line);
        let before = pos;
        let moves = all_moves(&pos);
        assert!(!moves.is_empty());
        for m in moves {
            let past = pos.do_move(m).unwrap();
            let left = (pos.white_castle_state, pos.black_castle_state);
            pos.undo_move(past).unwrap();
            let expected = Position {
                white_castle_state: left.0,
                black_castle_state: left.1,
                ..before
            };
            assert_eq!(pos, expected);
            if left == (before.white_castle_state, before.black_castle_state) {
                assert_eq!(pos, before);
            }
            pos = before;
        }
    }
}

#[test]
fn check_is_seen_through_a_capture_of_the_king() {
    let mut pos = Position::start();
    assert_eq!(pos.is_check(), Ok(false));
    play(&mut pos, &["f2f3", "e7e5", "g2g4", "d8h4"]);
    let before = pos;
    assert_eq!(pos.is_check(), Ok(true));
    assert_eq!(pos, before);
}
