//! Automated solver logic for a 16-cell memory-match minigame played against
//! a remote service, plus the bookkeeping for its associated lottery rolls.
//!
//! The crate holds the game-state reconstruction, the move selector and the
//! session bookkeeping; the network client that drives them lives outside.

pub mod board;
pub mod data;
pub mod selector;
pub mod session;
