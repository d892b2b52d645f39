//! Deterministic state-transition engine of a small wagering game: a
//! transaction dispatcher, a commit-reveal randomness protocol, a game
//! lifecycle with two settlement policies, a player ledger and a withdrawal
//! settlement queue. Replaying the same transaction sequence from the same
//! starting state always yields the same state and the same settlement batch.

pub mod game;
pub mod player;
pub mod state;
pub mod laws;
