//! Exact Markov-chain model of a token moving round a forty-space board:
//! exact rational probabilities, the board and its card decks, the canonical
//! state space, and the jump, move and combined transition matrices.

pub mod gcd;
pub mod tally;
pub mod text;
pub mod probability;
pub mod strategy;
pub mod space;
pub mod cards;
pub mod dice;
pub mod state;
pub mod matrix;
pub mod jump;
pub mod transmatrix;
