//! A 64-bit set of squares.
//!
//! Bit `file * 8 + rank` stands for the square with that rank and file. The
//! word itself stays private: everything outside this file reasons through
//! [`Bitboard::contains`] and the lemmas below.

use vstd::prelude::*;
use crate::square::Square;

verus! {

const FIRST_RANK: u64 = 0x0101010101010101;

const FIRST_FILE: u64 = 0x00000000000000FF;

/// Bit `i` of `bits` is set.
pub closed spec fn has_bit(bits: u64, i: int) -> bool {
    0 <= i < 64 && (bits >> (i as u64)) & 1u64 == 1u64
}

/// How many of the lowest `n` bits of `bits` are set.
pub open spec fn ones_below(bits: u64, n: int) -> nat
    decreases n,
{
    if n <= 0 {
        0
    } else {
        ones_below(bits, n - 1) + if has_bit(bits, n - 1) {
            1nat
        } else {
            0nat
        }
    }
}

/// The number of set bits in a word.
pub open spec fn ones(bits: u64) -> nat {
    ones_below(bits, 64)
}

/// `u64::count_ones` returns the number of one bits in the binary
/// representation of its argument, as std documents it. Nothing here checks
/// that claim.
pub assume_specification[ u64::count_ones ](bits: u64) -> (n: u32)
    ensures
        n == ones(bits),
;

/// The squares whose bit is set among the indices from `lo` up, lowest first.
pub open spec fn squares_from(bits: u64, lo: int) -> Seq<Square>
    decreases 64 - lo,
{
    if lo >= 64 || lo < 0 {
        Seq::empty()
    } else if has_bit(bits, lo) {
        seq![Square::at(lo)] + squares_from(bits, lo + 1)
    } else {
        squares_from(bits, lo + 1)
    }
}

proof fn lemma_word_ops(a: u64, b: u64, i: u64, j: u64)
    by (bit_vector)
    requires
        i < 64,
        j < 64,
    ensures
        (0u64 >> j) & 1 == 0,
        ((a | (1u64 << i)) >> j) & 1 == 1 <==> (i == j || (a >> j) & 1 == 1),
        ((a & !(1u64 << i)) >> j) & 1 == 1 <==> (i != j && (a >> j) & 1 == 1),
        ((a ^ (1u64 << i)) >> j) & 1 == 1 <==> (if i == j {
            (a >> j) & 1 != 1
        } else {
            (a >> j) & 1 == 1
        }),
        ((a & b) >> j) & 1 == 1 <==> ((a >> j) & 1 == 1 && (b >> j) & 1 == 1),
        ((a | b) >> j) & 1 == 1 <==> ((a >> j) & 1 == 1 || (b >> j) & 1 == 1),
        ((!a) >> j) & 1 == 1 <==> (a >> j) & 1 != 1,
        a & (1u64 << j) != 0 <==> (a >> j) & 1 == 1,
        (a >> j) & 1 == 1 ==> a ^ (1u64 << j) < a,
        (a >> j) & 1 == 0 || (a >> j) & 1 == 1,
{
}

proof fn lemma_word_masks(r: u64, j: u64)
    by (bit_vector)
    requires
        r < 8,
        j < 64,
    ensures
        ((0x0101010101010101u64 << r) >> j) & 1 == 1 <==> j % 8 == r,
        ((0x00000000000000FFu64 << (8 * r)) >> j) & 1 == 1 <==> j / 8 == r,
{
}

proof fn lemma_word_suffix(a: u64, b: u64, k: u64)
    by (bit_vector)
    requires
        k < 63,
        a >> ((k + 1) as u64) == b >> ((k + 1) as u64),
        (a >> k) & 1 == 1 <==> (b >> k) & 1 == 1,
    ensures
        a >> k == b >> k,
{
}

proof fn lemma_word_ends(a: u64, b: u64)
    by (bit_vector)
    ensures
        ((a >> 63) & 1 == 1 <==> (b >> 63) & 1 == 1) ==> a >> 63 == b >> 63,
        a >> 0 == a,
        b >> 0 == b,
{
}

/// Words that agree on every bit from `k` up agree once shifted down by `k`.
proof fn lemma_word_equal_from(a: u64, b: u64, k: u64)
    requires
        k < 64,
        forall|j: int| k <= j < 64 ==> has_bit(a, j) == has_bit(b, j),
    ensures
        a >> k == b >> k,
    decreases 64 - k,
{
    assert(has_bit(a, k as int) == has_bit(b, k as int));
    if k == 63 {
        lemma_word_ends(a, b);
    } else {
        lemma_word_equal_from(a, b, (k + 1) as u64);
        lemma_word_suffix(a, b, k);
    }
}

/// A set of squares of the board, one bit for each.
#[derive(Clone, Copy, PartialEq, Eq, Structural, Debug)]
pub struct Bitboard {
    bits: u64,
}

impl Bitboard {
    /// The square is on the board and in the set.
    pub closed spec fn contains(&self, sq: Square) -> bool {
        sq.valid() && has_bit(self.bits, sq.index())
    }

    /// The set of squares that the board holds.
    pub open spec fn view(self) -> Set<Square> {
        Set::new(|s: Square| self.contains(s))
    }

    /// The board that holds no square.
    pub closed spec fn spec_empty() -> Bitboard {
        Bitboard { bits: 0 }
    }

    /// The board with one square put in or taken out; unchanged where the
    /// square is off the board.
    pub closed spec fn with(self, sq: Square, value: bool) -> Bitboard {
        if !sq.valid() {
            self
        } else if value {
            Bitboard { bits: self.bits | (1u64 << (sq.index() as u64)) }
        } else {
            Bitboard { bits: self.bits & !(1u64 << (sq.index() as u64)) }
        }
    }

    /// The board of the squares of one rank.
    pub closed spec fn spec_rank(r: i8) -> Bitboard {
        if 0 <= r < 8 {
            Bitboard { bits: FIRST_RANK << (r as u64) }
        } else {
            Bitboard { bits: 0 }
        }
    }

    /// The board of the squares of one file.
    pub closed spec fn spec_file(f: i8) -> Bitboard {
        if 0 <= f < 8 {
            Bitboard { bits: FIRST_FILE << ((8 * f) as u64) }
        } else {
            Bitboard { bits: 0 }
        }
    }

    /// The board of the squares that this one lacks.
    pub closed spec fn spec_invert(&self) -> Bitboard {
        Bitboard { bits: !self.bits }
    }

    /// The board of the squares that both boards hold.
    pub closed spec fn spec_intersect(&self, other: Bitboard) -> Bitboard {
        Bitboard { bits: self.bits & other.bits }
    }

    /// The board of the squares that either board holds.
    pub closed spec fn spec_union(&self, other: Bitboard) -> Bitboard {
        Bitboard { bits: self.bits | other.bits }
    }

    /// The number of squares in the set.
    pub closed spec fn cardinality(self) -> nat {
        ones(self.bits)
    }

    /// The squares of the set in increasing bit-index order.
    pub closed spec fn squares(self) -> Seq<Square> {
        squares_from(self.bits, 0)
    }

    /// The board that holds no square.
    #[verifier::when_used_as_spec(spec_empty)]
    pub fn empty() -> (board: Bitboard)
        ensures
            board == Bitboard::spec_empty(),
            board@ == Set::<Square>::empty(),
    {
        proof {
            lemma_empty_contains();
        }
        let board = Bitboard { bits: 0 };
        assert(board == Bitboard::spec_empty());
        assert(board@ =~= Set::<Square>::empty());
        board
    }

    /// The squares of rank `r`; no square where `r` is off the board.
    #[verifier::when_used_as_spec(spec_rank)]
    pub fn rank(r: i8) -> (board: Bitboard)
        ensures
            board == Bitboard::spec_rank(r),
            forall|s: Square| #[trigger] board.contains(s) <==> s.valid() && s.rank == r,
    {
        proof {
            lemma_rank_contains(r);
        }
        if r >= 0 && r < 8 {
            Bitboard { bits: FIRST_RANK << (r as u64) }
        } else {
            Bitboard { bits: 0 }
        }
    }

    /// The squares of file `f`; no square where `f` is off the board.
    #[verifier::when_used_as_spec(spec_file)]
    pub fn file(f: i8) -> (board: Bitboard)
        ensures
            board == Bitboard::spec_file(f),
            forall|s: Square| #[trigger] board.contains(s) <==> s.valid() && s.file == f,
    {
        proof {
            lemma_file_contains(f);
        }
        if f >= 0 && f < 8 {
            Bitboard { bits: FIRST_FILE << ((8 * f) as u64) }
        } else {
            Bitboard { bits: 0 }
        }
    }

    /// Population count.
    pub fn count(&self) -> (n: u32)
        ensures
            n == self.cardinality(),
            n == self@.len(),
            n <= 64,
    {
        proof {
            lemma_cardinality(*self);
        }
        self.bits.count_ones()
    }

    /// Puts the square in or takes it out. An off-board square changes
    /// nothing.
    pub fn set(&mut self, square: Square, value: bool)
        ensures
            *final(self) == old(self).with(square, value),
            forall|s: Square|
                #[trigger] final(self).contains(s) == (if square.valid() && s == square {
                    value
                } else {
                    old(self).contains(s)
                }),
    {
        proof {
            lemma_with_contains(*self, square, value);
        }
        if square.is_valid() {
            let index: u64 = (square.file * 8 + square.rank) as u64;
            let mask: u64 = 1u64 << index;
            if value {
                self.bits = self.bits | mask;
            } else {
                self.bits = self.bits & !mask;
            }
        }
    }

    /// Membership. An off-board square is in no set.
    #[verifier::when_used_as_spec(contains)]
    pub fn get(&self, square: Square) -> (present: bool)
        ensures
            present == self.contains(square),
    {
        if square.is_valid() {
            let index: u64 = (square.file * 8 + square.rank) as u64;
            proof {
                lemma_word_ops(self.bits, 0, 0, index);
            }
            self.bits & (1u64 << index) != 0
        } else {
            false
        }
    }

    /// The on-board squares that are not in the set.
    #[verifier::when_used_as_spec(spec_invert)]
    pub fn invert(&self) -> (board: Bitboard)
        ensures
            board == self.spec_invert(),
            forall|s: Square| #[trigger] board.contains(s) <==> s.valid() && !self.contains(s),
    {
        let board = Bitboard { bits: !self.bits };
        proof {
            lemma_invert_contains(*self);
            assert(board == self.spec_invert());
        }
        board
    }

    /// The squares that both boards hold.
    #[verifier::when_used_as_spec(spec_intersect)]
    pub fn intersect(&self, other: Bitboard) -> (board: Bitboard)
        ensures
            board == self.spec_intersect(other),
            board@ == self@.intersect(other@),
    {
        proof {
            lemma_intersect_contains(*self, other);
        }
        let board = Bitboard { bits: self.bits & other.bits };
        assert(board == self.spec_intersect(other));
        assert(board@ =~= self@.intersect(other@));
        board
    }

    /// The squares that either board holds.
    #[verifier::when_used_as_spec(spec_union)]
    pub fn union(&self, other: Bitboard) -> (board: Bitboard)
        ensures
            board == self.spec_union(other),
            board@ == self@.union(other@),
    {
        proof {
            lemma_union_contains(*self, other);
        }
        let board = Bitboard { bits: self.bits | other.bits };
        assert(board == self.spec_union(other));
        assert(board@ =~= self@.union(other@));
        board
    }

    /// The board with exactly this square; empty where it is off the board.
    pub fn from(square: Square) -> (board: Bitboard)
        ensures
            board == Bitboard::spec_empty().with(square, true),
            forall|s: Square| #[trigger] board.contains(s) <==> square.valid() && s == square,
    {
        proof {
            lemma_empty_contains();
        }
        let mut board = Bitboard::empty();
        board.set(square, true);
        board
    }

    /// Starts a walk over the squares of the set, lowest bit index first.
    /// The walk works on a snapshot, so any number of walks over one board
    /// are independent.
    pub fn into_iter(self) -> (walk: BitboardIterator)
        ensures
            walk@ == self.squares(),
    {
        BitboardIterator { bits: self.bits }
    }
}

/// A walk over the squares of a board snapshot.
pub struct BitboardIterator {
    bits: u64,
}

impl BitboardIterator {
    /// The squares still to come, in the order in which they will come.
    pub closed spec fn view(&self) -> Seq<Square> {
        squares_from(self.bits, 0)
    }

    /// Hands out the next square, or `None` when the walk is over.
    pub fn next(&mut self) -> (item: Option<Square>)
        ensures
            old(self)@.len() == 0 ==> item.is_none() && final(self)@ == old(self)@,
            old(self)@.len() > 0 ==> item == Some(old(self)@[0]) && final(self)@ == old(
                self,
            )@.drop_first(),
    {
        if self.bits == 0 {
            proof {
                lemma_squares_from_zero(0);
            }
            return None;
        }
        let index: u32 = self.bits.trailing_zeros();
        let ghost before = self.bits;
        proof {
            vstd::std_specs::bits::axiom_u64_trailing_zeros(before);
            let t = index as int;
            assert(has_bit(before, t));
            assert forall|j: int| 0 <= j < t implies !has_bit(before, j) by {
                let ju = j as u64;
                assert((before >> ju) & 1u64 == 0u64);
            }
            lemma_skip_clear_bits(before, 0, t);
            let after = before ^ (1u64 << (index as u64));
            assert forall|j: int| 0 <= j < 64 implies has_bit(after, j) == (j != t && has_bit(
                before,
                j,
            )) by {
                lemma_word_ops(before, 0, index as u64, j as u64);
            }
            lemma_skip_clear_bits(after, 0, t + 1);
            lemma_squares_from_agree(before, after, t + 1);
            assert(squares_from(before, t) == seq![Square::at(t)] + squares_from(before, t + 1));
            assert(squares_from(before, 0).drop_first() =~= squares_from(after, 0));
        }
        self.bits = self.bits ^ (1u64 << (index as u64));
        Some(Square { rank: (index % 8) as i8, file: (index / 8) as i8 })
    }
}

proof fn lemma_squares_from_zero(lo: int)
    ensures
        squares_from(0, lo).len() == 0,
    decreases 64 - lo,
{
    if 0 <= lo < 64 {
        lemma_word_ops(0, 0, 0, lo as u64);
        lemma_squares_from_zero(lo + 1);
    }
}

proof fn lemma_skip_clear_bits(bits: u64, lo: int, hi: int)
    requires
        0 <= lo <= hi <= 64,
        forall|j: int| lo <= j < hi ==> !has_bit(bits, j),
    ensures
        squares_from(bits, lo) == squares_from(bits, hi),
    decreases hi - lo,
{
    if lo < hi {
        lemma_skip_clear_bits(bits, lo + 1, hi);
    }
}

proof fn lemma_squares_from_agree(a: u64, b: u64, lo: int)
    requires
        0 <= lo <= 64,
        forall|j: int| lo <= j < 64 ==> has_bit(a, j) == has_bit(b, j),
    ensures
        squares_from(a, lo) == squares_from(b, lo),
    decreases 64 - lo,
{
    if lo < 64 {
        lemma_squares_from_agree(a, b, lo + 1);
    }
}

/// No square is in the empty board.
pub proof fn lemma_empty_contains()
    ensures
        forall|s: Square| !(#[trigger] Bitboard::spec_empty().contains(s)),
{
    assert forall|s: Square| !(#[trigger] Bitboard::spec_empty().contains(s)) by {
        if s.valid() {
            lemma_word_ops(0, 0, 0, s.index() as u64);
        }
    }
}

/// Only on-board squares are ever in a board.
pub proof fn lemma_contains_valid(b: Bitboard, s: Square)
    ensures
        b.contains(s) ==> s.valid(),
{
}

/// `with` changes the one square and no other.
pub proof fn lemma_with_contains(b: Bitboard, sq: Square, value: bool)
    ensures
        !sq.valid() ==> b.with(sq, value) == b,
        forall|s: Square|
            #[trigger] b.with(sq, value).contains(s) == (if sq.valid() && s == sq {
                value
            } else {
                b.contains(s)
            }),
{
    assert forall|s: Square|
        #[trigger] b.with(sq, value).contains(s) == (if sq.valid() && s == sq {
            value
        } else {
            b.contains(s)
        }) by {
        if sq.valid() && s.valid() {
            lemma_word_ops(b.bits, 0, sq.index() as u64, s.index() as u64);
        }
    }
}

/// Putting in or taking out an off-board square changes no board.
pub proof fn lemma_with_offboard(sq: Square)
    requires
        !sq.valid(),
    ensures
        forall|b: Bitboard, value: bool| #[trigger] b.with(sq, value) == b,
{
}

/// A rank board holds exactly the squares of its rank.
pub proof fn lemma_rank_contains(r: i8)
    ensures
        forall|s: Square| #[trigger] Bitboard::spec_rank(r).contains(s) <==> s.valid() && s.rank == r,
{
    assert forall|s: Square| #[trigger]
        Bitboard::spec_rank(r).contains(s) <==> s.valid() && s.rank == r by {
        if s.valid() {
            if 0 <= r < 8 {
                lemma_word_masks(r as u64, s.index() as u64);
            } else {
                lemma_word_ops(0, 0, 0, s.index() as u64);
            }
        }
    }
}

/// A file board holds exactly the squares of its file.
pub proof fn lemma_file_contains(f: i8)
    ensures
        forall|s: Square| #[trigger] Bitboard::spec_file(f).contains(s) <==> s.valid() && s.file == f,
{
    assert forall|s: Square| #[trigger]
        Bitboard::spec_file(f).contains(s) <==> s.valid() && s.file == f by {
        if s.valid() {
            if 0 <= f < 8 {
                lemma_word_masks(f as u64, s.index() as u64);
            } else {
                lemma_word_ops(0, 0, 0, s.index() as u64);
            }
        }
    }
}

/// An inverted board holds exactly the squares of the board that were not in it.
pub proof fn lemma_invert_contains(b: Bitboard)
    ensures
        forall|s: Square| #[trigger] b.spec_invert().contains(s) <==> s.valid() && !b.contains(s),
{
    assert forall|s: Square| #[trigger]
        b.spec_invert().contains(s) <==> s.valid() && !b.contains(s) by {
        if s.valid() {
            lemma_word_ops(b.bits, 0, 0, s.index() as u64);
        }
    }
}

/// An intersection holds exactly the squares that both boards hold.
pub proof fn lemma_intersect_contains(a: Bitboard, b: Bitboard)
    ensures
        forall|s: Square| #[trigger]
            a.spec_intersect(b).contains(s) <==> a.contains(s) && b.contains(s),
{
    assert forall|s: Square| #[trigger]
        a.spec_intersect(b).contains(s) <==> a.contains(s) && b.contains(s) by {
        if s.valid() {
            lemma_word_ops(a.bits, b.bits, 0, s.index() as u64);
        }
    }
}

/// Intersection does not depend on the order of the two boards.
pub proof fn lemma_intersect_commutes(a: Bitboard, b: Bitboard)
    ensures
        a.spec_intersect(b) == b.spec_intersect(a),
{
    lemma_intersect_contains(a, b);
    lemma_intersect_contains(b, a);
    lemma_same_squares(a.spec_intersect(b), b.spec_intersect(a));
}

/// A union holds exactly the squares that either board holds.
pub proof fn lemma_union_contains(a: Bitboard, b: Bitboard)
    ensures
        forall|s: Square| #[trigger]
            a.spec_union(b).contains(s) <==> a.contains(s) || b.contains(s),
{
    assert forall|s: Square| #[trigger]
        a.spec_union(b).contains(s) <==> a.contains(s) || b.contains(s) by {
        if s.valid() {
            lemma_word_ops(a.bits, b.bits, 0, s.index() as u64);
        }
    }
}

/// Two boards that hold the same squares are the same board, bit for bit.
pub proof fn lemma_same_squares(a: Bitboard, b: Bitboard)
    requires
        forall|s: Square| s.valid() ==> a.contains(s) == b.contains(s),
    ensures
        a == b,
{
    assert forall|j: int| 0 <= j < 64 implies has_bit(a.bits, j) == has_bit(b.bits, j) by {
        let s = Square::at(j);
        assert(s.valid() && s.index() == j);
        assert(a.contains(s) == b.contains(s));
    }
    lemma_word_equal_from(a.bits, b.bits, 0);
    lemma_word_ends(a.bits, b.bits);
}

proof fn lemma_squares_from_members(bits: u64, lo: int)
    requires
        0 <= lo <= 64,
    ensures
        forall|i: int|
            0 <= i < squares_from(bits, lo).len() ==> {
                let s = #[trigger] squares_from(bits, lo)[i];
                s.valid() && lo <= s.index() && has_bit(bits, s.index())
            },
        forall|j: int| lo <= j < 64 && has_bit(bits, j) ==> squares_from(bits, lo).contains(
            #[trigger] Square::at(j),
        ),
    decreases 64 - lo,
{
    if lo < 64 {
        lemma_squares_from_members(bits, lo + 1);
        let rest = squares_from(bits, lo + 1);
        let all = squares_from(bits, lo);
        let head = Square::at(lo);
        assert(head.valid() && head.index() == lo);
        if has_bit(bits, lo) {
            assert(all =~= seq![head] + rest);
            assert forall|i: int| 0 <= i < all.len() implies {
                let s = #[trigger] all[i];
                s.valid() && lo <= s.index() && has_bit(bits, s.index())
            } by {
                if i > 0 {
                    assert(all[i] == rest[i - 1]);
                }
            }
            assert forall|j: int| lo <= j < 64 && has_bit(bits, j) implies all.contains(
                #[trigger] Square::at(j),
            ) by {
                if j == lo {
                    assert(all[0] == head);
                } else {
                    let i = choose|i: int| 0 <= i < rest.len() && rest[i] == Square::at(j);
                    assert(all[i + 1] == Square::at(j));
                }
            }
        }
    }
}

proof fn lemma_squares_from_len(bits: u64, lo: int)
    requires
        0 <= lo <= 64,
    ensures
        squares_from(bits, lo).len() <= 64 - lo,
    decreases 64 - lo,
{
    if lo < 64 {
        lemma_squares_from_len(bits, lo + 1);
    }
}

proof fn lemma_squares_from_ascending(bits: u64, lo: int)
    requires
        0 <= lo <= 64,
    ensures
        forall|i: int, j: int|
            0 <= i < j < squares_from(bits, lo).len() ==> (#[trigger] squares_from(
                bits,
                lo,
            )[i]).index() < (#[trigger] squares_from(bits, lo)[j]).index(),
    decreases 64 - lo,
{
    if lo < 64 {
        lemma_squares_from_ascending(bits, lo + 1);
        lemma_squares_from_members(bits, lo + 1);
        let rest = squares_from(bits, lo + 1);
        let all = squares_from(bits, lo);
        let head = Square::at(lo);
        assert(head.index() == lo);
        if has_bit(bits, lo) {
            assert(all =~= seq![head] + rest);
            assert forall|i: int, j: int| 0 <= i < j < all.len() implies (#[trigger] all[i]).index()
                < (#[trigger] all[j]).index() by {
                assert(all[j] == rest[j - 1]);
                if i > 0 {
                    assert(all[i] == rest[i - 1]);
                }
            }
        }
    }
}

/// The walk over a board goes by strictly increasing bit index, so that it
/// visits no square twice.
pub proof fn lemma_squares_ascending(b: Bitboard)
    ensures
        forall|i: int, j: int|
            0 <= i < j < b.squares().len() ==> (#[trigger] b.squares()[i]).index() < (
            #[trigger] b.squares()[j]).index(),
{
    lemma_squares_from_ascending(b.bits, 0);
}

/// A walk over a board visits at most 64 squares.
pub proof fn lemma_squares_len(b: Bitboard)
    ensures
        b.squares().len() <= 64,
{
    lemma_squares_from_len(b.bits, 0);
}

/// The walk over a board visits exactly its squares.
pub proof fn lemma_squares_members(b: Bitboard)
    ensures
        forall|i: int| 0 <= i < b.squares().len() ==> b.contains(#[trigger] b.squares()[i]),
        forall|i: int| 0 <= i < b.squares().len() ==> (#[trigger] b.squares()[i]).valid(),
        forall|s: Square| b.contains(s) ==> b.squares().contains(s),
{
    lemma_squares_from_members(b.bits, 0);
    assert forall|s: Square| b.contains(s) implies b.squares().contains(s) by {
        assert(Square::at(s.index()) == s);
    }
}

/// The squares of index below `n` that a word holds.
spec fn members_below(bits: u64, n: int) -> Set<Square> {
    Set::new(|s: Square| s.valid() && s.index() < n && has_bit(bits, s.index()))
}

proof fn lemma_members_below(bits: u64, n: int)
    requires
        0 <= n <= 64,
    ensures
        members_below(bits, n).finite(),
        members_below(bits, n).len() == ones_below(bits, n),
    decreases n,
{
    if n == 0 {
        assert(members_below(bits, 0) =~= Set::<Square>::empty());
    } else {
        lemma_members_below(bits, n - 1);
        let s = Square::at(n - 1);
        assert(s.valid() && s.index() == n - 1);
        if has_bit(bits, n - 1) {
            assert(members_below(bits, n) =~= members_below(bits, n - 1).insert(s));
        } else {
            assert(members_below(bits, n) =~= members_below(bits, n - 1));
        }
    }
}

/// The population count is the size of the set of squares.
pub proof fn lemma_cardinality(b: Bitboard)
    ensures
        b@.finite(),
        b@.len() == b.cardinality(),
        b.cardinality() <= 64,
{
    lemma_members_below(b.bits, 64);
    assert(b@ =~= members_below(b.bits, 64));
    lemma_ones_below_bound(b.bits, 64);
}

proof fn lemma_ones_below_bound(bits: u64, n: int)
    requires
        0 <= n,
    ensures
        ones_below(bits, n) <= n,
    decreases n,
{
    if n > 0 {
        lemma_ones_below_bound(bits, n - 1);
    }
}

} // verus!
