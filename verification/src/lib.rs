//! Core logic of a chat-group casino bot: a per-player money ledger,
//! pure outcome tables for the emoji mini-games, the lottery round state
//! machine, and the settlement of a lottery round.
//!
//! Everything that talks to the chat platform (sending messages, polls,
//! visible die rolls) lives outside this crate; the functions here work on
//! plain values (player ids, votes, die values) and are fully specified.

use vstd::prelude::*;

pub mod commands;
pub mod emoji_games;
pub mod ledger;
pub mod loto;
pub mod state;

verus! {

/// The recoverable failures that the bot's operations can report.
#[derive(Clone, Copy, Debug, PartialEq, Eq, Structural)]
pub enum BotError {
    /// The requested operation is not legal in the current round state,
    /// e.g. starting a lottery while one is already collecting bets.
    InvalidStateTransition,
    /// An event arrived without an identifiable player behind it.
    MissingPlayerContext,
    /// A call to the chat platform failed; the surrounding operation is
    /// aborted. Never produced by the verified core itself.
    CollaboratorUnavailable,
}

} // verus!
