//! Board coordinates.

use vstd::prelude::*;

verus! {

/// A rank/file pair. Coordinates in `0..8` name a square of the board; any
/// other pair is an off-board sentinel that board operations ignore.
#[derive(Clone, Copy, PartialEq, Eq, Structural, Debug)]
pub struct Square {
    pub rank: i8,
    pub file: i8,
}

impl Square {
    /// Both coordinates lie on the board.
    pub open spec fn valid(&self) -> bool {
        0 <= self.rank < 8 && 0 <= self.file < 8
    }

    /// The bit index of an on-board square: files are the major axis.
    pub open spec fn index(self) -> int {
        self.file * 8 + self.rank
    }

    /// The square with the given bit index.
    pub open spec fn at(index: int) -> Square {
        Square { rank: (index % 8) as i8, file: (index / 8) as i8 }
    }

    /// The square displaced by `ranks` ranks and `files` files.
    pub open spec fn offset(self, ranks: int, files: int) -> Square {
        Square { rank: (self.rank + ranks) as i8, file: (self.file + files) as i8 }
    }

    /// Whether the square lies on the board.
    #[verifier::when_used_as_spec(valid)]
    pub fn is_valid(&self) -> (ok: bool)
        ensures
            ok == self.valid(),
    {
        self.file >= 0 && self.rank >= 0 && self.rank < 8 && self.file < 8
    }

    /// Displaces the square. The sums must be representable; every on-board
    /// square displaced by a piece's step is.
    pub fn add(&self, ranks: i8, files: i8) -> (moved: Square)
        requires
            i8::MIN <= self.rank + ranks <= i8::MAX,
            i8::MIN <= self.file + files <= i8::MAX,
        ensures
            moved == self.offset(ranks as int, files as int),
            moved.rank == self.rank + ranks,
            moved.file == self.file + files,
    {
        Square { rank: self.rank + ranks, file: self.file + files }
    }
}

/// The squares of the board and the bit indices below 64 correspond one to
/// one: every square has such an index and is the square at it.
pub proof fn lemma_square_index(s: Square)
    requires
        s.valid(),
    ensures
        0 <= s.index() < 64,
        Square::at(s.index()) == s,
{
}

/// Every bit index below 64 is that of the square at it, a square of the
/// board.
pub proof fn lemma_index_square(i: int)
    requires
        0 <= i < 64,
    ensures
        Square::at(i).valid(),
        Square::at(i).index() == i,
{
}

} // verus!
