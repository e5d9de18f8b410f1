//! Scores and the static evaluation of a position.
//!
//! A score counts hundredths of a pawn from the point of view of the side to
//! move. The weights of the evaluation are exact in that unit.

use vstd::prelude::*;
use crate::square::Square;
use crate::bitboard::{Bitboard, lemma_cardinality, lemma_squares_len, lemma_squares_members};
use crate::position::Position;
use crate::moves::{Move, generate_moves, pseudo_legal_moves};
use crate::bounds::lemma_pseudo_legal_count;

verus! {

/// The largest magnitude a finite score may have.
pub const SCORE_LIMIT: i32 = 1_000_000_000;

/// A score: a number of hundredths of a pawn, or one of the two infinities
/// that stand for a king already lost or won.
#[derive(Clone, Copy, PartialEq, Eq, Structural, Debug)]
pub enum Score {
    NegInfinity,
    Finite(i32),
    Infinity,
}

impl Score {
    /// A finite score stays within the limit, so that it can be negated.
    pub open spec fn wf(self) -> bool {
        match self {
            Score::Finite(v) => -SCORE_LIMIT <= v <= SCORE_LIMIT,
            _ => true,
        }
    }

    /// The score seen from the other side.
    pub open spec fn negated(self) -> Score {
        match self {
            Score::NegInfinity => Score::Infinity,
            Score::Finite(v) => Score::Finite((-v) as i32),
            Score::Infinity => Score::NegInfinity,
        }
    }

    /// Where the score stands in the order of scores: the infinities lie
    /// beyond every finite score.
    pub open spec fn key(self) -> int {
        match self {
            Score::NegInfinity => -SCORE_LIMIT - 1,
            Score::Finite(v) => v as int,
            Score::Infinity => SCORE_LIMIT + 1,
        }
    }

    /// The score is strictly better than the other.
    pub open spec fn above(self, other: Score) -> bool {
        self.key() > other.key()
    }

    /// The score seen from the other side.
    pub fn negate(self) -> (flipped: Score)
        requires
            self.wf(),
        ensures
            flipped == self.negated(),
            flipped.wf(),
            flipped.key() == -self.key(),
    {
        match self {
            Score::NegInfinity => Score::Infinity,
            Score::Finite(v) => Score::Finite(-v),
            Score::Infinity => Score::NegInfinity,
        }
    }

    /// Whether the score is strictly better than the other.
    pub fn is_above(self, other: Score) -> (better: bool)
        requires
            self.wf(),
            other.wf(),
        ensures
            better == self.above(other),
    {
        match (self, other) {
            (Score::NegInfinity, _) => false,
            (Score::Finite(_), Score::NegInfinity) => true,
            (Score::Finite(a), Score::Finite(b)) => a > b,
            (Score::Finite(_), Score::Infinity) => false,
            (Score::Infinity, Score::Infinity) => false,
            (Score::Infinity, _) => true,
        }
    }

    /// The score of the side to move against that of the other side. A side
    /// without a king has lost, the side to move first.
    pub open spec fn against(self, other: Score) -> Score {
        match (self, other) {
            (Score::Finite(a), Score::Finite(b)) => Score::Finite((a - b) as i32),
            (Score::Finite(_), _) => Score::Infinity,
            _ => Score::NegInfinity,
        }
    }
}

/// The weight of a king.
pub const KING_VALUE: i32 = 20000;

/// The weight of a queen.
pub const QUEEN_VALUE: i32 = 900;

/// The weight of a rook.
pub const ROOK_VALUE: i32 = 500;

/// The weight of a bishop or a knight.
pub const MINOR_VALUE: i32 = 300;

/// The weight of a pawn.
pub const PAWN_VALUE: i32 = 100;

/// What a pawn costs that shares its file with another pawn of its side.
pub const DOUBLED_PENALTY: i32 = 25;

/// What a pawn costs that has no pawn of its side on a neighbouring file.
pub const ISOLATED_PENALTY: i32 = 50;

/// What each available move to an empty square is worth.
pub const MOVE_VALUE: i32 = 10;

/// The pieces of one kind that the side to move owns.
pub open spec fn own(pos: Position, board: Bitboard) -> Bitboard {
    pos.color_board(pos.white_to_play).spec_intersect(board)
}

/// The weighted count of the pieces of the side to move.
pub open spec fn material(pos: Position) -> int {
    own(pos, pos.kings).cardinality() * KING_VALUE + own(pos, pos.queens).cardinality()
        * QUEEN_VALUE + own(pos, pos.rooks).cardinality() * ROOK_VALUE + own(
        pos,
        pos.bishops,
    ).cardinality() * MINOR_VALUE + own(pos, pos.knights).cardinality() * MINOR_VALUE + own(
        pos,
        pos.pawns,
    ).cardinality() * PAWN_VALUE
}

/// The pawn on `square` shares its file with another of `pawns`.
pub open spec fn doubled(pawns: Bitboard, square: Square) -> bool {
    pawns.spec_intersect(Bitboard::spec_file(square.file)).cardinality() > 1
}

/// No pawn of `pawns` stands on a file next to that of `square`.
pub open spec fn isolated(pawns: Bitboard, square: Square) -> bool {
    pawns.spec_intersect(Bitboard::spec_file((square.file + 1) as i8)).cardinality() == 0
        && pawns.spec_intersect(Bitboard::spec_file((square.file - 1) as i8)).cardinality() == 0
}

/// What the structure of `pawns` costs, summed over the given pawns.
pub open spec fn structure_cost(pawns: Bitboard, squares: Seq<Square>) -> int
    decreases squares.len(),
{
    if squares.len() == 0 {
        0
    } else {
        (if doubled(pawns, squares[0]) {
            DOUBLED_PENALTY as int
        } else {
            0
        }) + (if isolated(pawns, squares[0]) {
            ISOLATED_PENALTY as int
        } else {
            0
        }) + structure_cost(pawns, squares.drop_first())
    }
}

/// The score of the side to move taken alone: lost without a king, else its
/// material, less the cost of its pawn structure, plus its mobility.
pub open spec fn side_score(pos: Position) -> Score {
    if own(pos, pos.kings).cardinality() == 0 {
        Score::NegInfinity
    } else {
        Score::Finite(
            (material(pos) - structure_cost(own(pos, pos.pawns), own(pos, pos.pawns).squares())
                + MOVE_VALUE * pseudo_legal_moves(pos, false).len()) as i32,
        )
    }
}

/// The static evaluation: the score of the side to move against that of the
/// other side.
pub open spec fn static_score(pos: Position) -> Score {
    side_score(pos).against(side_score(pos.passed()))
}

proof fn lemma_structure_cost_bound(pawns: Bitboard, squares: Seq<Square>)
    ensures
        0 <= structure_cost(pawns, squares) <= 75 * squares.len(),
    decreases squares.len(),
{
    if squares.len() > 0 {
        lemma_structure_cost_bound(pawns, squares.drop_first());
    }
}

/// The finite scores of a side lie within two million hundredths.
pub proof fn lemma_side_score_bound(pos: Position)
    ensures
        match side_score(pos) {
            Score::Finite(v) => -2_000_000 <= v <= 2_000_000 && v == material(pos)
                - structure_cost(own(pos, pos.pawns), own(pos, pos.pawns).squares()) + MOVE_VALUE
                * pseudo_legal_moves(pos, false).len(),
            Score::NegInfinity => true,
            Score::Infinity => false,
        },
        side_score(pos).wf(),
{
    lemma_cardinality(own(pos, pos.kings));
    lemma_cardinality(own(pos, pos.queens));
    lemma_cardinality(own(pos, pos.rooks));
    lemma_cardinality(own(pos, pos.bishops));
    lemma_cardinality(own(pos, pos.knights));
    lemma_cardinality(own(pos, pos.pawns));
    lemma_squares_len(own(pos, pos.pawns));
    lemma_structure_cost_bound(own(pos, pos.pawns), own(pos, pos.pawns).squares());
    lemma_pseudo_legal_count(pos, false);
}

/// The static evaluation is zero-sum: passing the turn negates it exactly.
/// This holds wherever at least one side has a king; with no king on
/// either side both evaluations are the lost score.
pub proof fn lemma_zero_sum(pos: Position)
    requires
        own(pos, pos.kings).cardinality() > 0 || own(pos.passed(), pos.kings).cardinality() > 0,
    ensures
        static_score(pos.passed()) == static_score(pos).negated(),
        static_score(pos).wf(),
{
    lemma_side_score_bound(pos);
    lemma_side_score_bound(pos.passed());
    assert(pos.passed().passed() == pos);
    assert(pos.passed().kings == pos.kings);
}

/// The score of the side to move taken alone. The buffer is scratch space:
/// it is emptied first and holds the side's moves to empty squares after.
pub fn evaluate_to_play(moves: &mut Vec<Move>, pos: &Position) -> (score: Score)
    ensures
        score == side_score(*pos),
        score.wf(),
        final(moves)@ == (if score == Score::NegInfinity {
            Seq::<Move>::empty()
        } else {
            pseudo_legal_moves(*pos, false)
        }),
{
    moves.clear();
    let to_play = pos.by_color(pos.white_to_play);
    proof {
        lemma_side_score_bound(*pos);
    }
    if pos.kings.intersect(to_play).count() == 0 {
        assert(pos.kings.spec_intersect(to_play) == own(*pos, pos.kings)) by {
            crate::bitboard::lemma_intersect_commutes(pos.kings, to_play);
        }
        return Score::NegInfinity;
    }
    proof {
        crate::bitboard::lemma_intersect_commutes(pos.kings, to_play);
    }
    let mut score: i32 = 0;
    score = score + (to_play.intersect(pos.kings).count() as i32) * KING_VALUE;
    score = score + (to_play.intersect(pos.queens).count() as i32) * QUEEN_VALUE;
    score = score + (to_play.intersect(pos.rooks).count() as i32) * ROOK_VALUE;
    score = score + (to_play.intersect(pos.bishops).count() as i32) * MINOR_VALUE;
    score = score + (to_play.intersect(pos.knights).count() as i32) * MINOR_VALUE;
    score = score + (to_play.intersect(pos.pawns).count() as i32) * PAWN_VALUE;
    assert(score == material(*pos));

    let pawns = pos.pawns.intersect(to_play);
    proof {
        crate::bitboard::lemma_intersect_commutes(pos.pawns, to_play);
        lemma_squares_members(pawns);
        lemma_squares_len(pawns);
    }
    let mut walk = pawns.into_iter();
    let mut cost: i32 = 0;
    loop
        invariant
            pawns == own(*pos, pos.pawns),
            walk@.len() <= 64,
            0 <= cost <= 75 * (64 - walk@.len()),
            forall|i: int| 0 <= i < walk@.len() ==> (#[trigger] walk@[i]).valid(),
            cost + structure_cost(pawns, walk@) == structure_cost(pawns, pawns.squares()),
        ensures
            walk@.len() == 0,
        decreases walk@.len(),
    {
        match walk.next() {
            None => {
                break ;
            },
            Some(sq) => {
                assert(sq.valid());
                if pawns.intersect(Bitboard::file(sq.file)).count() > 1 {
                    cost = cost + DOUBLED_PENALTY;
                }
                if pawns.intersect(Bitboard::file(sq.file + 1)).count() == 0 && pawns.intersect(
                    Bitboard::file(sq.file - 1),
                ).count() == 0 {
                    cost = cost + ISOLATED_PENALTY;
                }
            },
        }
    }
    proof {
        lemma_pseudo_legal_count(*pos, false);
    }
    generate_moves(moves, pos, false);
    assert(moves@ =~= pseudo_legal_moves(*pos, false));
    let mobility: i32 = (moves.len() as i32) * MOVE_VALUE;
    Score::Finite(score - cost + mobility)
}

/// The static evaluation of a position, from the point of view of the side
/// to move. The position is left as it was; the buffer is scratch space and
/// holds the other side's moves to empty squares after.
pub fn evaluate(moves: &mut Vec<Move>, pos: &mut Position) -> (score: Score)
    ensures
        score == static_score(*old(pos)),
        score.wf(),
        *final(pos) == *old(pos),
        final(moves)@ == (if side_score(old(pos).passed()) == Score::NegInfinity {
            Seq::<Move>::empty()
        } else {
            pseudo_legal_moves(old(pos).passed(), false)
        }),
{
    proof {
        lemma_side_score_bound(*pos);
        lemma_side_score_bound(pos.passed());
    }
    let ours = evaluate_to_play(moves, pos);
    pos.do_null_move();
    let theirs = evaluate_to_play(moves, pos);
    pos.undo_null_move();
    assert(*pos == *old(pos));
    match (ours, theirs) {
        (Score::Finite(a), Score::Finite(b)) => Score::Finite(a - b),
        (Score::Finite(_), _) => Score::Infinity,
        _ => Score::NegInfinity,
    }
}

} // verus!
