use crab_gambit::moves::{
    generate_bishop_moves, generate_castle, generate_direction_moves, generate_king_moves,
    generate_knight_moves, generate_legal_moves, generate_move, generate_moves,
    generate_pawn_moves, generate_queen_moves, generate_rook_moves, Move,
};
use crab_gambit::piece::{Piece, PieceType};
use crab_gambit::position::Position;
use crab_gambit::square::Square;

fn sq(rank: i8, file: i8) -> Square {
    Square { rank, file }
}

fn mv(text: &str) -> Move {
    Move::parse(text).unwrap()
}

fn texts(moves: &[Move]) -> Vec<String> {
    moves.iter().map(|m| m.text()).collect()
}

fn pseudo_legal(pos: &Position) -> Vec<Move> {
    let mut moves = Vec::new();
    generate_moves(&mut moves, pos, true);
    generate_moves(&mut moves, pos, false);
    moves
}

fn legal(pos: &mut Position) -> Vec<Move> {
    let mut moves = Vec::new();
    generate_legal_moves(&mut moves, pos).unwrap();
    moves
}

fn perft(pos: &mut Position, depth: u32) -> u64 {
    if depth == 0 {
        return 1;
    }
    let mut nodes = 0;
    for m in legal(pos) {
        let past = pos.do_move(m).unwrap();
        nodes += perft(pos, depth - 1);
        pos.undo_move(past).unwrap();
    }
    nodes
}

fn kings_only() -> Position {
    let mut pos = Position::empty();
    pos.set_piece(sq(0, 4), Piece::white(PieceType::King));
    pos.set_piece(sq(7, 4), Piece::black(PieceType::King));
    pos
}

#[test]
fn start_position_has_twenty_pseudo_legal_moves() {
    let pos = Position::start();
    let moves = pseudo_legal(&pos);
    assert_eq!(moves.len(), 20);
    let pawn_moves = moves.iter().filter(|m| m.src.rank == 1).count();
    let knight_moves = moves.iter().filter(|m| m.src.rank == 0).count();
    assert_eq!(pawn_moves, 16);
    assert_eq!(knight_moves, 4);
    let mut black = pos;
    black.do_null_move();
    assert_eq!(pseudo_legal(&black).len(), 20);
}

#[test]
fn start_position_moves_come_in_generation_order() {
    let pos = Position::start();
    let mut moves = Vec::new();
    generate_moves(&mut moves, &pos, false);
    assert_eq!(
        texts(&moves),
        vec![
            "b1c3", "b1a3", "g1h3", "g1f3", "a2a3", "a2a4", "b2b3", "b2b4", "c2c3", "c2c4",
            "d2d3", "d2d4", "e2e3", "e2e4", "f2f3", "f2f4", "g2g3", "g2g4", "h2h3", "h2h4",
        ]
    );
    let mut captures = Vec::new();
    generate_moves(&mut captures, &pos, true);
    assert!(captures.is_empty());
}

#[test]
fn start_position_has_twenty_legal_moves() {
    let mut pos = Position::start();
    assert_eq!(legal(&mut pos).len(), 20);
}

#[test]
fn perft_depth_one_and_two() {
    let mut pos = Position::start();
    assert_eq!(perft(&mut pos, 1), 20);
    assert_eq!(perft(&mut pos, 2), 400);
}

#[test]
fn generation_appends_to_what_the_buffer_holds() {
    let pos = Position::start();
    let mut moves = vec![mv("a1a1")];
    generate_moves(&mut moves, &pos, false);
    assert_eq!(moves.len(), 21);
    assert_eq!(moves[0], mv("a1a1"));
}

#[test]
fn no_move_is_generated_with_fewer_than_two_kings() {
    let mut pos = Position::start();
    pos.remove_piece(sq(7, 4));
    assert!(pseudo_legal(&pos).is_empty());
    pos.do_null_move();
    assert!(pseudo_legal(&pos).is_empty());
}

#[test]
fn one_step_obeys_the_mode() {
    let mut pos = kings_only();
    pos.set_piece(sq(3, 3), Piece::white(PieceType::Rook));
    pos.set_piece(sq(3, 5), Piece::black(PieceType::Pawn));
    pos.set_piece(sq(3, 1), Piece::white(PieceType::Pawn));
    let src = sq(3, 3);
    let mut moves = Vec::new();
    assert!(generate_move(&mut moves, &pos, src, sq(3, 4), false));
    assert_eq!(texts(&moves), vec!["d4e4"]);
    assert!(generate_move(&mut moves, &pos, src, sq(3, 4), true));
    assert_eq!(moves.len(), 1);
    assert!(!generate_move(&mut moves, &pos, src, sq(3, 5), true));
    assert_eq!(texts(&moves), vec!["d4e4", "d4f4"]);
    assert!(!generate_move(&mut moves, &pos, src, sq(3, 5), false));
    assert!(!generate_move(&mut moves, &pos, src, sq(3, 1), true));
    assert!(!generate_move(&mut moves, &pos, src, sq(3, 1), false));
    assert!(!generate_move(&mut moves, &pos, src, sq(3, 8), false));
    assert_eq!(moves.len(), 2);
}

#[test]
fn a_slide_stops_at_the_first_occupied_square() {
    let mut pos = kings_only();
    pos.set_piece(sq(3, 0), Piece::white(PieceType::Rook));
    pos.set_piece(sq(3, 4), Piece::black(PieceType::Pawn));
    pos.set_piece(sq(5, 0), Piece::white(PieceType::Pawn));
    let src = sq(3, 0);
    let mut quiet = Vec::new();
    generate_direction_moves(&mut quiet, &pos, src, 0, 1, false);
    assert_eq!(texts(&quiet), vec!["a4b4", "a4c4", "a4d4"]);
    let mut captures = Vec::new();
    generate_direction_moves(&mut captures, &pos, src, 0, 1, true);
    assert_eq!(texts(&captures), vec!["a4e4"]);
    let mut up = Vec::new();
    generate_direction_moves(&mut up, &pos, src, 1, 0, false);
    assert_eq!(texts(&up), vec!["a4a5"]);
    let mut blocked = Vec::new();
    generate_direction_moves(&mut blocked, &pos, src, 1, 0, true);
    assert!(blocked.is_empty());
    let mut edge = Vec::new();
    generate_direction_moves(&mut edge, &pos, src, 0, -1, false);
    assert!(edge.is_empty());
}

#[test]
fn sliders_on_an_open_board() {
    let mut pos = kings_only();
    pos.set_piece(sq(3, 3), Piece::white(PieceType::Queen));
    let src = sq(3, 3);
    let mut rook = Vec::new();
    generate_rook_moves(&mut rook, &pos, src, false);
    assert_eq!(rook.len(), 14);
    assert_eq!(rook[0], mv("d4e4"));
    let mut bishop = Vec::new();
    generate_bishop_moves(&mut bishop, &pos, src, false);
    assert_eq!(bishop.len(), 13);
    assert_eq!(bishop[0], mv("d4e5"));
    let mut queen = Vec::new();
    generate_queen_moves(&mut queen, &pos, src, false);
    assert_eq!(queen.len(), 27);
    assert_eq!(&queen[..14], &rook[..]);
    assert_eq!(&queen[14..], &bishop[..]);
}

#[test]
fn knight_moves_in_their_order() {
    let mut pos = kings_only();
    pos.set_piece(sq(3, 3), Piece::white(PieceType::Knight));
    let mut moves = Vec::new();
    generate_knight_moves(&mut moves, &pos, sq(3, 3), false);
    assert_eq!(
        texts(&moves),
        vec!["d4e6", "d4c6", "d4e2", "d4c2", "d4f5", "d4f3", "d4b5", "d4b3"]
    );
    let mut corner = Vec::new();
    pos.set_piece(sq(0, 0), Piece::white(PieceType::Knight));
    generate_knight_moves(&mut corner, &pos, sq(0, 0), false);
    assert_eq!(texts(&corner), vec!["a1b3", "a1c2"]);
}

#[test]
fn pawn_pushes_and_promotions() {
    let mut pos = kings_only();
    pos.set_piece(sq(1, 0), Piece::white(PieceType::Pawn));
    pos.set_piece(sq(2, 1), Piece::white(PieceType::Pawn));
    pos.set_piece(sq(6, 2), Piece::white(PieceType::Pawn));
    pos.set_piece(sq(1, 7), Piece::white(PieceType::Pawn));
    pos.set_piece(sq(2, 7), Piece::black(PieceType::Knight));
    let mut moves = Vec::new();
    generate_pawn_moves(&mut moves, &pos, sq(1, 0), false);
    assert_eq!(texts(&moves), vec!["a2a3", "a2a4"]);
    moves.clear();
    generate_pawn_moves(&mut moves, &pos, sq(2, 1), false);
    assert_eq!(texts(&moves), vec!["b3b4"]);
    moves.clear();
    generate_pawn_moves(&mut moves, &pos, sq(6, 2), false);
    assert_eq!(texts(&moves), vec!["c7c8q", "c7c8r", "c7c8b", "c7c8n"]);
    moves.clear();
    generate_pawn_moves(&mut moves, &pos, sq(1, 7), false);
    assert!(moves.is_empty());
}

#[test]
fn pawn_captures_go_diagonally_forward() {
    let mut pos = kings_only();
    pos.set_piece(sq(3, 3), Piece::white(PieceType::Pawn));
    pos.set_piece(sq(4, 4), Piece::black(PieceType::Pawn));
    pos.set_piece(sq(4, 2), Piece::white(PieceType::Knight));
    pos.set_piece(sq(4, 3), Piece::black(PieceType::Rook));
    let mut moves = Vec::new();
    generate_pawn_moves(&mut moves, &pos, sq(3, 3), true);
    assert_eq!(texts(&moves), vec!["d4e5"]);
    moves.clear();
    generate_pawn_moves(&mut moves, &pos, sq(3, 3), false);
    assert!(moves.is_empty());
    pos.do_null_move();
    moves.clear();
    generate_pawn_moves(&mut moves, &pos, sq(4, 4), true);
    assert_eq!(texts(&moves), vec!["e5d4"]);
}

#[test]
fn castling_needs_the_right_and_empty_squares() {
    let mut pos = kings_only();
    pos.set_piece(sq(0, 7), Piece::white(PieceType::Rook));
    pos.set_piece(sq(0, 0), Piece::white(PieceType::Rook));
    let short = mv("e1g1");
    let long = mv("e1c1");
    let quiet = |pos: &Position| {
        let mut moves = Vec::new();
        generate_moves(&mut moves, pos, false);
        moves
    };
    assert!(quiet(&pos).contains(&short));
    assert!(quiet(&pos).contains(&long));

    let mut blocked = pos;
    blocked.set_piece(sq(0, 5), Piece::white(PieceType::Bishop));
    assert!(!quiet(&blocked).contains(&short));
    assert!(quiet(&blocked).contains(&long));
    let mut blocked = pos;
    blocked.set_piece(sq(0, 6), Piece::black(PieceType::Knight));
    assert!(!quiet(&blocked).contains(&short));
    let mut blocked = pos;
    blocked.set_piece(sq(0, 1), Piece::white(PieceType::Knight));
    assert!(!quiet(&blocked).contains(&long));
    assert!(quiet(&blocked).contains(&short));

    let mut moved = pos;
    moved.white_castle_state.can_short_castle = false;
    assert!(!quiet(&moved).contains(&short));
    assert!(quiet(&moved).contains(&long));
    moved.white_castle_state.can_long_castle = false;
    assert!(!quiet(&moved).contains(&long));

    let mut captures = Vec::new();
    generate_moves(&mut captures, &pos, true);
    assert!(!captures.contains(&short));
}

#[test]
fn castling_rights_go_with_a_king_or_rook_move_from_home() {
    let mut pos = kings_only();
    pos.set_piece(sq(0, 7), Piece::white(PieceType::Rook));
    pos.set_piece(sq(7, 0), Piece::black(PieceType::Rook));
    for text in ["h1h2", "a8a7", "h2h1", "a7a8"] {
        pos.do_move(mv(text)).unwrap();
    }
    let mut moves = Vec::new();
    generate_moves(&mut moves, &pos, false);
    assert!(!moves.contains(&mv("e1g1")));
}

#[test]
fn castling_does_not_look_at_attacked_squares() {
    let mut pos = kings_only();
    pos.set_piece(sq(0, 7), Piece::white(PieceType::Rook));
    pos.set_piece(sq(7, 5), Piece::black(PieceType::Rook));
    let mut moves = Vec::new();
    generate_moves(&mut moves, &pos, false);
    assert!(moves.contains(&mv("e1g1")));
    let mut direct = Vec::new();
    generate_castle(&mut direct, &pos, sq(0, 4), sq(0, 6));
    assert_eq!(direct, vec![mv("e1g1")]);
}

#[test]
fn king_steps_and_castling_from_home_only() {
    let pos = kings_only();
    let mut white = Vec::new();
    generate_king_moves(&mut white, &pos, sq(0, 4), false);
    assert_eq!(texts(&white), vec!["e1f1", "e1d1", "e1e2", "e1f2", "e1d2", "e1g1", "e1c1"]);
    let mut black = Vec::new();
    generate_king_moves(&mut black, &pos, sq(7, 4), false);
    assert_eq!(texts(&black), vec!["e8f8", "e8d8", "e8e7", "e8d7", "e8f7"]);
    let mut captures = Vec::new();
    generate_king_moves(&mut captures, &pos, sq(0, 4), true);
    assert!(captures.is_empty());
}

#[test]
fn legal_moves_leave_no_king_to_capture() {
    let mut pos = kings_only();
    pos.set_piece(sq(1, 4), Piece::white(PieceType::Rook));
    pos.set_piece(sq(5, 4), Piece::black(PieceType::Rook));
    pos.white_castle_state.can_short_castle = false;
    pos.white_castle_state.can_long_castle = false;
    let moves = legal(&mut pos);
    assert!(moves.contains(&mv("e2e3")));
    assert!(moves.contains(&mv("e2e6")));
    assert!(!moves.contains(&mv("e2d2")));
    assert!(!moves.contains(&mv("e2h2")));
    for m in moves {
        let past = pos.do_move(m).unwrap();
        pos.do_null_move();
        assert_eq!(pos.is_check(), Ok(false));
        pos.undo_null_move();
        pos.undo_move(past).unwrap();
    }
}
