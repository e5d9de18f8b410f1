use std::sync::atomic::{AtomicBool, Ordering};

use crab_gambit::coordinator::{search_depth, WorkerStep};
use crab_gambit::moves::{generate_legal_moves, Move};
use crab_gambit::piece::{Piece, PieceType};
use crab_gambit::position::{CastleState, Position};
use crab_gambit::score::{evaluate, evaluate_to_play, Score};
use crab_gambit::search::{minimax, CancelToken, MoveChain, SearchContext};
use crab_gambit::square::Square;

fn sq(rank: i8, file: i8) -> Square {
    Square { rank, file }
}

fn mv(text: &str) -> Move {
    Move::parse(text).unwrap()
}

fn no_rights() -> CastleState {
    CastleState { can_short_castle: false, can_long_castle: false }
}

fn kings_only() -> Position {
    let mut pos = Position::empty();
    pos.set_piece(sq(0, 4), Piece::white(PieceType::King));
    pos.set_piece(sq(7, 4), Piece::black(PieceType::King));
    pos
}

fn static_score(pos: &Position) -> Score {
    let mut scratch = Vec::new();
    let mut copy = *pos;
    let score = evaluate(&mut scratch, &mut copy);
    assert_eq!(copy, *pos);
    score
}

fn line(chain: &MoveChain) -> Vec<Move> {
    let mut moves = vec![chain.current];
    let mut next = &chain.next;
    while let Some(rest) = next {
        moves.push(rest.current);
        next = &rest.next;
    }
    moves
}

fn search(pos: &mut Position, depth: i32) -> (Score, Option<MoveChain>) {
    let flag = AtomicBool::new(false);
    let mut cancel = CancelToken::new(&flag);
    let mut ctx = SearchContext::new();
    minimax(&mut ctx, pos, depth, true, &mut cancel, Score::NegInfinity, Score::Infinity).unwrap()
}

#[test]
fn scores_negate_and_compare() {
    assert_eq!(Score::Finite(25).negate(), Score::Finite(-25));
    assert_eq!(Score::NegInfinity.negate(), Score::Infinity);
    assert_eq!(Score::Infinity.negate(), Score::NegInfinity);
    assert!(Score::Finite(1).is_above(Score::Finite(0)));
    assert!(!Score::Finite(0).is_above(Score::Finite(0)));
    assert!(Score::Finite(-1_000_000_000).is_above(Score::NegInfinity));
    assert!(Score::Infinity.is_above(Score::Finite(1_000_000_000)));
    assert!(!Score::NegInfinity.is_above(Score::NegInfinity));
    assert!(!Score::Infinity.is_above(Score::Infinity));
    assert!(Score::Infinity.is_above(Score::NegInfinity));
}

#[test]
fn start_position_evaluates_to_zero() {
    assert_eq!(static_score(&Position::start()), Score::Finite(0));
}

#[test]
fn evaluation_counts_material_structure_and_mobility() {
    let mut pos = kings_only();
    let mut scratch = Vec::new();
    assert_eq!(evaluate_to_play(&mut scratch, &pos), Score::Finite(20070));
    assert_eq!(scratch.len(), 7);
    assert_eq!(static_score(&pos), Score::Finite(20));

    pos.set_piece(sq(1, 0), Piece::white(PieceType::Pawn));
    pos.set_piece(sq(2, 0), Piece::white(PieceType::Pawn));
    scratch.clear();
    assert_eq!(evaluate_to_play(&mut scratch, &pos), Score::Finite(20130));
    assert_eq!(static_score(&pos), Score::Finite(80));

    pos.set_piece(sq(1, 1), Piece::white(PieceType::Pawn));
    scratch.clear();
    assert_eq!(evaluate_to_play(&mut scratch, &pos), Score::Finite(20000 + 300 - 50 + 100));

    let mut heavy = kings_only();
    heavy.white_castle_state = no_rights();
    heavy.set_piece(sq(3, 3), Piece::white(PieceType::Queen));
    scratch.clear();
    assert_eq!(evaluate_to_play(&mut scratch, &heavy), Score::Finite(20000 + 900 + 320));
}

#[test]
fn evaluation_is_zero_sum_under_a_null_move() {
    let mut lines: Vec<Position> = vec![Position::start(), kings_only()];
    let mut pos = Position::start();
    for text in ["e2e4", "d7d5", "e4d5", "d8d5", "b1c3"] {
        pos.do_move(mv(text)).unwrap();
        lines.push(pos);
    }
    let mut lone = Position::empty();
    lone.set_piece(sq(0, 4), Piece::white(PieceType::King));
    lines.push(lone);
    for pos in lines {
        let mut passed = pos;
        passed.do_null_move();
        assert_eq!(static_score(&passed), static_score(&pos).negate());
    }
}

#[test]
fn a_side_without_a_king_has_lost() {
    let mut pos = Position::empty();
    pos.set_piece(sq(7, 4), Piece::black(PieceType::King));
    let mut scratch = vec![];
    assert_eq!(evaluate_to_play(&mut scratch, &pos), Score::NegInfinity);
    assert!(scratch.is_empty());
    assert_eq!(static_score(&pos), Score::NegInfinity);
    pos.do_null_move();
    assert_eq!(static_score(&pos), Score::Infinity);
    assert_eq!(static_score(&Position::empty()), Score::NegInfinity);
}

#[test]
fn depth_zero_is_the_static_evaluation() {
    let mut pos = Position::start();
    pos.do_move(mv("e2e4")).unwrap();
    let expected = static_score(&pos);
    let before = pos;
    let (score, chain) = search(&mut pos, 0);
    assert_eq!(score, expected);
    assert!(chain.is_none());
    assert_eq!(pos, before);
}

#[test]
fn depth_one_picks_the_best_static_reply() {
    let mut pos = Position::start();
    for text in ["e2e4", "d7d5"] {
        pos.do_move(mv(text)).unwrap();
    }
    let mut moves = Vec::new();
    let mut probe = pos;
    generate_legal_moves(&mut moves, &mut probe).unwrap();
    let mut best: Option<(Score, Move)> = None;
    for m in &moves {
        let mut after = probe;
        after.do_move(*m).unwrap();
        let score = static_score(&after).negate();
        if best.map_or(true, |(s, _)| score.is_above(s)) {
            best = Some((score, *m));
        }
    }
    let (expected_score, expected_move) = best.unwrap();
    let (score, chain) = search(&mut pos, 1);
    assert_eq!(score, expected_score);
    assert_eq!(line(&chain.unwrap()), vec![expected_move]);
}

#[test]
fn search_finds_the_capture_of_a_hanging_queen() {
    let mut pos = kings_only();
    pos.white_castle_state = no_rights();
    pos.set_piece(sq(3, 0), Piece::white(PieceType::Rook));
    pos.set_piece(sq(3, 7), Piece::black(PieceType::Queen));
    let (_, chain) = search(&mut pos, 1);
    assert_eq!(line(&chain.unwrap()), vec![mv("a4h4")]);
    let (_, chain) = search(&mut pos, 2);
    let found = line(&chain.unwrap());
    assert_eq!(found.len(), 2);
    assert_eq!(found[0], mv("a4h4"));
}

#[test]
fn checkmate_scores_the_lost_score() {
    let mut pos = Position::empty();
    pos.white_to_play = false;
    pos.set_piece(sq(7, 0), Piece::black(PieceType::King));
    pos.set_piece(sq(6, 1), Piece::white(PieceType::Queen));
    pos.set_piece(sq(5, 1), Piece::white(PieceType::King));
    let mut moves = Vec::new();
    generate_legal_moves(&mut moves, &mut pos).unwrap();
    assert!(moves.is_empty());
    assert_eq!(pos.is_check(), Ok(true));
    for depth in 1..4 {
        let (score, chain) = search(&mut pos, depth);
        assert_eq!(score, Score::NegInfinity);
        assert!(chain.is_none());
    }
}

#[test]
fn stalemate_scores_zero() {
    let mut pos = Position::empty();
    pos.white_to_play = false;
    pos.set_piece(sq(7, 0), Piece::black(PieceType::King));
    pos.set_piece(sq(6, 2), Piece::white(PieceType::Queen));
    pos.set_piece(sq(0, 7), Piece::white(PieceType::King));
    let mut moves = Vec::new();
    generate_legal_moves(&mut moves, &mut pos).unwrap();
    assert!(moves.is_empty());
    assert_eq!(pos.is_check(), Ok(false));
    for depth in 1..4 {
        let (score, chain) = search(&mut pos, depth);
        assert_eq!(score, Score::Finite(0));
        assert!(chain.is_none());
    }
}

#[test]
fn shallow_search_does_not_pick_a_move_that_leaves_the_king_in_check() {
    let mut pos = kings_only();
    pos.white_castle_state = no_rights();
    pos.set_piece(sq(1, 4), Piece::white(PieceType::Rook));
    pos.set_piece(sq(5, 4), Piece::black(PieceType::Rook));
    pos.set_piece(sq(1, 0), Piece::black(PieceType::Queen));
    for depth in 1..4 {
        let mut copy = pos;
        let (_, chain) = search(&mut copy, depth);
        let first = line(&chain.unwrap())[0];
        assert_ne!(first, mv("e2a2"));
        let mut after = pos;
        after.do_move(first).unwrap();
        after.do_null_move();
        assert_eq!(after.is_check(), Ok(false));
    }
}

#[test]
fn a_set_flag_turns_the_search_into_the_sentinel() {
    let flag = AtomicBool::new(true);
    let mut cancel = CancelToken::new(&flag);
    let mut ctx = SearchContext::new();
    let mut pos = Position::start();
    let found = minimax(
        &mut ctx,
        &mut pos,
        3,
        true,
        &mut cancel,
        Score::NegInfinity,
        Score::Infinity,
    )
    .unwrap();
    assert_eq!(found.0, Score::NegInfinity);
    assert!(found.1.is_none());
    assert!(cancel.poll());
    assert_eq!(ctx.nodes(), 4);
}

#[test]
fn the_token_remembers_a_flag_it_has_seen() {
    let flag = AtomicBool::new(false);
    let mut cancel = CancelToken::new(&flag);
    assert!(!cancel.poll());
    flag.store(true, Ordering::Relaxed);
    assert!(cancel.poll());
    flag.store(false, Ordering::Relaxed);
    assert!(cancel.poll());
}

#[test]
fn nodes_are_counted_and_reset() {
    let flag = AtomicBool::new(false);
    let mut cancel = CancelToken::new(&flag);
    let mut ctx = SearchContext::new();
    assert_eq!(ctx.nodes(), 0);
    let mut pos = Position::start();
    minimax(&mut ctx, &mut pos, 1, true, &mut cancel, Score::NegInfinity, Score::Infinity)
        .unwrap();
    assert_eq!(ctx.nodes(), 21);
    ctx.reset();
    assert_eq!(ctx.nodes(), 0);
    ctx.count_node();
    assert_eq!(ctx.nodes(), 1);
}

#[test]
fn the_pool_hands_out_empty_buffers() {
    let mut ctx = SearchContext::new();
    let mut buffer = ctx.get_move_vec();
    assert!(buffer.is_empty());
    buffer.push(mv("e2e4"));
    ctx.return_move_vec(buffer);
    let again = ctx.get_move_vec();
    assert!(again.is_empty());
    assert!(again.capacity() >= 1);
}

#[test]
fn chains_link_a_move_to_its_line() {
    let tail = MoveChain::new(mv("e7e5"), None);
    let chain = MoveChain::new(mv("e2e4"), Some(tail));
    assert_eq!(line(&chain), vec![mv("e2e4"), mv("e7e5")]);
    assert!(MoveChain::new(mv("e2e4"), None).next.is_none());
}

#[test]
fn a_completed_depth_is_published_and_a_cancelled_one_is_not() {
    let flag = AtomicBool::new(false);
    let mut cancel = CancelToken::new(&flag);
    let mut ctx = SearchContext::new();
    ctx.count_node();
    let mut pos = Position::start();
    let found = search_depth(&mut ctx, &mut pos, 1, &mut cancel).unwrap();
    let (score, chain) = search(&mut Position::start(), 1);
    assert_eq!(found.score, score);
    assert_eq!(found.nodes, 21);
    let first = chain.unwrap().current;
    assert_eq!(found.chain.unwrap().current, first);
    assert_eq!(found.step, WorkerStep::Deepen { publish: Some(first), next_depth: 2 });

    flag.store(true, Ordering::Relaxed);
    let found = search_depth(&mut ctx, &mut pos, 2, &mut cancel).unwrap();
    assert_eq!(found.step, WorkerStep::Cancelled);
    assert_eq!(found.score, Score::NegInfinity);
    assert!(found.chain.is_none());
}

#[test]
fn a_back_rank_mate_scores_the_lost_score() {
    let mut pos = Position::empty();
    pos.set_piece(sq(0, 6), Piece::white(PieceType::King));
    pos.set_piece(sq(1, 5), Piece::white(PieceType::Pawn));
    pos.set_piece(sq(1, 6), Piece::white(PieceType::Pawn));
    pos.set_piece(sq(1, 7), Piece::white(PieceType::Pawn));
    pos.set_piece(sq(0, 0), Piece::black(PieceType::Rook));
    pos.set_piece(sq(7, 7), Piece::black(PieceType::King));
    let before = pos;
    let (score, chain) = search(&mut pos, 1);
    assert_eq!(score, Score::NegInfinity);
    assert!(chain.is_none());
    assert_eq!(pos.all_pieces(), before.all_pieces());
    assert_eq!(pos.white_to_play, before.white_to_play);
}

#[test]
fn a_cornered_king_not_in_check_scores_zero() {
    let mut pos = Position::empty();
    pos.set_piece(sq(0, 0), Piece::white(PieceType::King));
    pos.set_piece(sq(2, 1), Piece::black(PieceType::Queen));
    pos.set_piece(sq(7, 7), Piece::black(PieceType::King));
    let (score, chain) = search(&mut pos, 1);
    assert_eq!(score, Score::Finite(0));
    assert!(chain.is_none());
}

#[test]
fn a_set_flag_gives_the_sentinel_at_depth_one() {
    let flag = AtomicBool::new(true);
    let mut cancel = CancelToken::new(&flag);
    let mut ctx = SearchContext::new();
    let mut pos = Position::start();
    let found = minimax(
        &mut ctx,
        &mut pos,
        1,
        true,
        &mut cancel,
        Score::NegInfinity,
        Score::Infinity,
    );
    let (score, chain) = found.unwrap();
    assert_eq!(score, Score::NegInfinity);
    assert!(chain.is_none());
    assert_eq!(pos, Position::start());
    assert_eq!(ctx.nodes(), 2);
}

#[test]
fn depth_zero_is_the_same_under_a_set_flag() {
    let flag = AtomicBool::new(true);
    let mut cancel = CancelToken::new(&flag);
    let mut ctx = SearchContext::new();
    ctx.count_node();
    ctx.count_node();
    let mut pos = Position::start();
    pos.do_move(mv("e2e4")).unwrap();
    let before = pos;
    let expected = static_score(&pos);
    let found = minimax(
        &mut ctx,
        &mut pos,
        0,
        false,
        &mut cancel,
        Score::Finite(500),
        Score::Finite(-500),
    )
    .unwrap();
    assert_eq!(found.0, expected);
    assert!(found.1.is_none());
    assert_eq!(pos, before);
    assert_eq!(ctx.nodes(), 3);
}

#[test]
fn a_search_gives_the_position_back_but_for_castling_rights() {
    let mut pos = Position::start();
    for text in ["e2e4", "e7e5", "g1f3", "b8c6", "f1c4", "g8f6"] {
        pos.do_move(mv(text)).unwrap();
    }
    pos.en_passant_target = None;
    let before = pos;
    for depth in 1..3 {
        let mut copy = before;
        let (_, chain) = search(&mut copy, depth);
        assert!(chain.is_some());
        let expected = Position {
            white_castle_state: copy.white_castle_state,
            black_castle_state: copy.black_castle_state,
            ..before
        };
        assert_eq!(copy, expected);
        assert!(!copy.white_castle_state.can_short_castle || before.white_castle_state.can_short_castle);
    }
}

#[test]
fn castling_without_a_rook_in_the_corner_puts_one_there() {
    let mut pos = kings_only();
    let before = pos;
    let castle = mv("e1g1");
    let past = pos.do_move(castle).unwrap();
    assert_eq!(pos.get_peice(sq(0, 5)), Some(Piece::white(PieceType::Rook)));
    pos.undo_move(past).unwrap();
    assert_eq!(pos.get_peice(sq(0, 7)), Some(Piece::white(PieceType::Rook)));
    assert_ne!(pos.rooks, before.rooks);

    let mut searched = before;
    let (_, chain) = search(&mut searched, 1);
    assert!(chain.is_some());
    assert_eq!(searched.get_peice(sq(0, 7)), Some(Piece::white(PieceType::Rook)));
    assert_eq!(before.get_peice(sq(0, 7)), None);
}
