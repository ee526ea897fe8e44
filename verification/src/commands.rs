//! The money-gift command: only the bot owner may grant money, by replying
//! to a message of the recipient. The decision and the ledger mutation are
//! here; reading the chat message and reacting to it are the front end's.

use vstd::prelude::*;

use crate::state::State;
use crate::BotError;

verus! {

/// Player id of the bot owner, the only sender allowed to grant money.
pub const OWNER: u64 = 1908102113;

/// Amount granted per gift.
pub const GIFT_AMOUNT: i64 = 100;

/// What the gift command decided; the front end reacts accordingly.
#[derive(Clone, Copy, Debug, PartialEq, Eq, Structural)]
pub enum GiveOutcome {
    /// The sender is not the owner: mock, grant nothing.
    RefusedNotOwner,
    /// The owner's command did not reply to any message: ask, grant
    /// nothing.
    NoReplyTarget,
    /// The gift was applied to the author of the replied-to message.
    Granted { recipient: u64 },
}

/// Decides and applies the gift command. `sender` is the author of the
/// command, if identifiable; `reply` is the replied-to message, if any,
/// carrying its author, if identifiable. Only an owner's reply to an
/// identifiable author mutates the ledger, by exactly the gift amount; a
/// reply whose author vanished fails with `MissingPlayerContext`.
pub fn give_money(state: &mut State, sender: Option<u64>, reply: Option<Option<u64>>) -> (outcome:
    Result<GiveOutcome, BotError>)
    requires
        old(state).wf(),
        sender == Some(OWNER) ==> (reply matches Some(Some(recipient)) ==> old(
            state,
        ).ledger.balance_of(recipient) + GIFT_AMOUNT <= i64::MAX),
    ensures
        final(state).wf(),
        final(state).round == old(state).round,
        final(state).stats == old(state).stats,
        sender != Some(OWNER) ==> outcome == Ok::<GiveOutcome, BotError>(
            GiveOutcome::RefusedNotOwner,
        ) && *final(state) == *old(state),
        sender == Some(OWNER) && reply is None ==> outcome == Ok::<GiveOutcome, BotError>(
            GiveOutcome::NoReplyTarget,
        ) && *final(state) == *old(state),
        sender == Some(OWNER) && reply == Some(Option::<u64>::None) ==> outcome == Err::<
            GiveOutcome,
            BotError,
        >(BotError::MissingPlayerContext) && *final(state) == *old(state),
        sender == Some(OWNER) ==> (reply matches Some(Some(recipient)) ==> {
            &&& outcome == Ok::<GiveOutcome, BotError>(GiveOutcome::Granted { recipient })
            &&& crate::ledger::delta_applied(
                old(state).ledger,
                final(state).ledger,
                recipient,
                GIFT_AMOUNT as int,
            )
        }),
{
    let is_owner = match sender {
        Some(id) => id == OWNER,
        None => false,
    };
    if !is_owner {
        return Ok(GiveOutcome::RefusedNotOwner);
    }
    match reply {
        None => Ok(GiveOutcome::NoReplyTarget),
        Some(None) => Err(BotError::MissingPlayerContext),
        Some(Some(recipient)) => {
            state.insert(recipient, GIFT_AMOUNT);
            Ok(GiveOutcome::Granted { recipient })
        },
    }
}

} // verus!
