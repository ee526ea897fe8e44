//! The persisted state of one conversation: the money ledger, the game
//! statistics, and the lottery round state machine.
//!
//! The round machine has two states: `Idle` (no lottery in progress) and
//! `ReceivingPollAnswers` (a poll is open and bets are being collected).
//! Starting a lottery is legal only from `Idle`; closing always returns to
//! `Idle`, also when the round was already idle, so a late timer finding an
//! already-reset round degrades to a no-op instead of crashing.

use vstd::prelude::*;

use crate::emoji_games::GameStats;
use crate::ledger::Ledger;
use crate::BotError;

verus! {

/// Reference to the poll message that a running lottery opened; it is
/// needed later to close the poll and unpin the message.
#[derive(Clone, Copy, Debug, PartialEq, Eq, Structural)]
pub struct PollRef {
    /// The platform's id of the poll message within the conversation.
    pub message_id: i64,
}

/// The lottery round state machine.
#[derive(Clone, Copy, Debug)]
pub enum Round {
    /// No lottery in progress.
    Idle,
    /// A lottery poll is open; answers are being collected.
    ReceivingPollAnswers { poll: PollRef },
}

/// Everything one conversation persists: balances, game statistics, and
/// where the lottery round machine stands.
#[derive(Clone)]
pub struct State {
    pub round: Round,
    pub ledger: Ledger,
    pub stats: GameStats,
}

impl State {
    /// Well-formed: ledger and statistics keys are unique.
    pub open spec fn wf(self) -> bool {
        self.ledger.wf() && self.stats.wf()
    }

    /// Returns the stored balance of `player`, or the default for a player
    /// never seen. Never fails.
    pub fn get(&self, player: u64) -> (balance: i64)
        requires
            self.wf(),
        ensures
            balance == self.ledger.balance_of(player),
    {
        self.ledger.get_balance(player)
    }

    /// Adds `delta` to the balance of `player`, leaving every other player
    /// and the rest of the state untouched.
    pub fn insert(&mut self, player: u64, delta: i64)
        requires
            old(self).wf(),
            i64::MIN <= old(self).ledger.balance_of(player) + delta <= i64::MAX,
        ensures
            final(self).wf(),
            crate::ledger::delta_applied(
                old(self).ledger,
                final(self).ledger,
                player,
                delta as int,
            ),
            final(self).round == old(self).round,
            final(self).stats == old(self).stats,
    {
        self.ledger.apply_delta(player, delta);
    }

    /// The full ranked listing of the ledger: descending balance, ties by
    /// ascending player id.
    pub fn leaderboard(&self) -> (listing: Vec<(u64, i64)>)
        requires
            self.wf(),
        ensures
            listing@ == self.ledger.ranked_seq(),
            vstd::relations::sorted_by(listing@, crate::ledger::ranked_order()),
    {
        self.ledger.ranked_full()
    }

    /// Records one observed game outcome in the statistics.
    pub fn register_game_result(&mut self, kind: crate::emoji_games::GameKind, value: u8)
        requires
            old(self).wf(),
            old(self).stats.count_of(kind, value) < u64::MAX,
        ensures
            final(self).wf(),
            crate::emoji_games::count_bumped(old(self).stats, final(self).stats, kind, value),
            final(self).round == old(self).round,
            final(self).ledger == old(self).ledger,
    {
        self.stats.record(kind, value);
    }

    /// The per-game statistics.
    pub fn game_stats(&self) -> (stats: &GameStats)
        ensures
            stats == self.stats,
    {
        &self.stats
    }

    /// The money ledger.
    pub fn player_money(&self) -> (ledger: &Ledger)
        ensures
            ledger == self.ledger,
    {
        &self.ledger
    }

    /// Starts a lottery: legal only while the round is idle, where it moves
    /// the machine to collecting answers under the given poll reference.
    /// From any other state it fails with `InvalidStateTransition` and
    /// changes nothing.
    pub fn start(self, poll: PollRef) -> (outcome: Result<State, BotError>)
        ensures
            self.round is Idle ==> (outcome matches Ok(next) && next.round == (
            Round::ReceivingPollAnswers { poll }) && next.ledger == self.ledger && next.stats
                == self.stats),
            self.round is ReceivingPollAnswers ==> outcome == Err::<State, BotError>(
                BotError::InvalidStateTransition,
            ),
    {
        match self.round {
            Round::Idle => Ok(
                State { round: Round::ReceivingPollAnswers { poll }, ledger: self.ledger, stats: self.stats },
            ),
            Round::ReceivingPollAnswers { .. } => Err(BotError::InvalidStateTransition),
        }
    }

    /// Returns the round machine to idle, keeping balances and statistics.
    /// Always legal: an already idle round stays idle.
    pub fn to_idle(self) -> (next: State)
        ensures
            next.round is Idle,
            next.ledger == self.ledger,
            next.stats == self.stats,
    {
        match self.round {
            Round::Idle => self,
            Round::ReceivingPollAnswers { .. } => State {
                round: Round::Idle,
                ledger: self.ledger,
                stats: self.stats,
            },
        }
    }
}

impl Default for State {
    /// The state of a conversation never seen: idle round, empty ledger,
    /// empty statistics.
    fn default() -> (state: State)
        ensures
            state.wf(),
            state.round is Idle,
            state.ledger.pairs() == Seq::<(u64, i64)>::empty(),
            state.stats.triples() == Seq::<(crate::emoji_games::GameKind, u8, u64)>::empty(),
    {
        State { round: Round::Idle, ledger: Ledger::new(), stats: GameStats::new() }
    }
}

} // verus!
