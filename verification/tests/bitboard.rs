use crab_gambit::bitboard::Bitboard;
use crab_gambit::square::Square;

fn sq(rank: i8, file: i8) -> Square {
    Square { rank, file }
}

fn squares_of(board: Bitboard) -> Vec<Square> {
    let mut walk = board.into_iter();
    let mut out = Vec::new();
    while let Some(s) = walk.next() {
        out.push(s);
    }
    out
}

#[test]
fn square_validity_covers_exactly_the_board() {
    assert!(sq(0, 0).is_valid());
    assert!(sq(7, 7).is_valid());
    assert!(!sq(-1, 0).is_valid());
    assert!(!sq(0, -1).is_valid());
    assert!(!sq(8, 0).is_valid());
    assert!(!sq(0, 8).is_valid());
}

#[test]
fn square_add_displaces_both_coordinates() {
    assert_eq!(sq(3, 4).add(2, -1), sq(5, 3));
    assert_eq!(sq(0, 0).add(-1, -1), sq(-1, -1));
    assert_eq!(sq(7, 7).add(1, 0), sq(8, 7));
}

#[test]
fn empty_board_holds_nothing() {
    let board = Bitboard::empty();
    assert_eq!(board.count(), 0);
    for rank in 0..8 {
        for file in 0..8 {
            assert!(!board.get(sq(rank, file)));
        }
    }
    assert!(squares_of(board).is_empty());
}

#[test]
fn set_and_get_one_square() {
    let mut board = Bitboard::empty();
    board.set(sq(3, 4), true);
    assert!(board.get(sq(3, 4)));
    assert!(!board.get(sq(4, 3)));
    assert_eq!(board.count(), 1);
    board.set(sq(3, 4), false);
    assert!(!board.get(sq(3, 4)));
    assert_eq!(board, Bitboard::empty());
}

#[test]
fn off_board_squares_are_ignored() {
    let mut board = Bitboard::from(sq(2, 2));
    let before = board;
    board.set(sq(8, 0), true);
    board.set(sq(0, -1), true);
    board.set(sq(-3, 9), false);
    assert_eq!(board, before);
    assert!(!board.get(sq(8, 0)));
    assert!(!board.get(sq(0, -1)));
    assert_eq!(Bitboard::from(sq(9, 9)), Bitboard::empty());
}

#[test]
fn from_square_holds_exactly_that_square() {
    let board = Bitboard::from(sq(6, 1));
    assert_eq!(squares_of(board), vec![sq(6, 1)]);
}

#[test]
fn rank_mask_holds_the_squares_of_the_rank() {
    for r in 0..8i8 {
        let board = Bitboard::rank(r);
        assert_eq!(board.count(), 8);
        for rank in 0..8 {
            for file in 0..8 {
                assert_eq!(board.get(sq(rank, file)), rank == r);
            }
        }
    }
}

#[test]
fn file_mask_holds_the_squares_of_the_file() {
    for f in 0..8i8 {
        let board = Bitboard::file(f);
        assert_eq!(board.count(), 8);
        for rank in 0..8 {
            for file in 0..8 {
                assert_eq!(board.get(sq(rank, file)), file == f);
            }
        }
    }
}

#[test]
fn masks_off_the_board_are_empty() {
    assert_eq!(Bitboard::rank(-1), Bitboard::empty());
    assert_eq!(Bitboard::rank(8), Bitboard::empty());
    assert_eq!(Bitboard::file(-1), Bitboard::empty());
    assert_eq!(Bitboard::file(8), Bitboard::empty());
    assert_eq!(Bitboard::file(127), Bitboard::empty());
}

#[test]
fn union_intersect_invert_are_set_algebra() {
    let rank = Bitboard::rank(2);
    let file = Bitboard::file(5);
    let both = rank.intersect(file);
    assert_eq!(squares_of(both), vec![sq(2, 5)]);
    let either = rank.union(file);
    assert_eq!(either.count(), 15);
    let neither = either.invert();
    assert_eq!(neither.count(), 49);
    assert!(!neither.get(sq(2, 0)));
    assert!(!neither.get(sq(0, 5)));
    assert!(neither.get(sq(0, 0)));
    assert_eq!(neither.invert(), either);
    assert_eq!(Bitboard::empty().invert().count(), 64);
}

#[test]
fn iteration_goes_by_increasing_bit_index() {
    let mut board = Bitboard::empty();
    board.set(sq(7, 7), true);
    board.set(sq(0, 1), true);
    board.set(sq(5, 0), true);
    board.set(sq(1, 0), true);
    assert_eq!(squares_of(board), vec![sq(1, 0), sq(5, 0), sq(0, 1), sq(7, 7)]);
}

#[test]
fn iterations_over_one_board_are_independent() {
    let board = Bitboard::rank(0);
    let mut first = board.into_iter();
    let mut second = board.into_iter();
    assert_eq!(first.next(), Some(sq(0, 0)));
    assert_eq!(first.next(), Some(sq(0, 1)));
    assert_eq!(second.next(), Some(sq(0, 0)));
    assert_eq!(board.count(), 8);
    let mut rest = 0;
    while first.next().is_some() {
        rest += 1;
    }
    assert_eq!(rest, 6);
    assert_eq!(first.next(), None);
}

#[test]
fn count_is_the_number_of_squares() {
    let mut board = Bitboard::empty();
    let mut expected = 0;
    for rank in 0..8 {
        for file in 0..8 {
            if (rank * 3 + file) % 5 == 0 {
                board.set(sq(rank, file), true);
                expected += 1;
            }
        }
    }
    assert_eq!(board.count(), expected);
    assert_eq!(squares_of(board).len() as u32, expected);
}
