//! A bitboard chess engine core: board representation, reversible move
//! application, pseudo-legal and legal move generation, a capture-probing
//! check test, and a cancellable negamax search with alpha-beta pruning.

pub mod square;
pub mod piece;
pub mod bitboard;
pub mod moves;
pub mod position;
pub mod rules;
pub mod reversal;
pub mod bounds;
pub mod score;
pub mod search;
pub mod coordinator;
pub mod notation;
pub mod legality;
