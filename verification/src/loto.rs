//! The lottery: the shared buffer of poll answers collected during a round,
//! the partition of voters against the drawn die value, and the settlement
//! of a whole round against the conversation state.
//!
//! Payout policy, fixed across the crate: a matching voter with at least the
//! minimum stake wins `LOTTERY_WIN`; a matching voter below the stake wins
//! nothing (announced separately); a non-matching voter pays
//! `LOTTERY_PENALTY`, but only if at or above the stake, so an already poor
//! player is not indebted further.

use vstd::prelude::*;

use crate::ledger::Ledger;
use crate::state::Round;
use crate::state::State;
use crate::BotError;

verus! {

/// Amount a winning voter receives.
pub const LOTTERY_WIN: i64 = 50;

/// Amount a losing voter at or above the minimum stake pays.
pub const LOTTERY_PENALTY: i64 = 10;

/// Minimum balance to receive the win or incur the penalty.
pub const MIN_LOTTERY_STAKE: i64 = 10;

/// Number of options on the lottery poll; votes are 1 up to this count.
pub const POLL_OPTION_COUNT: u8 = 6;

/// Seconds the poll stays open collecting answers.
pub const COLLECTION_WINDOW_SECS: u64 = 60;

/// Suspense pause, in seconds, between the visible die roll and the payout.
pub const SUSPENSE_DELAY_SECS: u64 = 4;

/// The in-memory buffer of poll answers of the running round: which number
/// each voter picked. Not persisted; cleared when a round starts. The chat
/// front end guards it with a lock and keeps each insert, retraction and
/// snapshot atomic, so the buffer itself is a plain single-owner value.
pub struct AnswerBuffer {
    entries: Vec<(u64, u8)>,
}

impl AnswerBuffer {
    /// The buffered (voter, vote) pairs, in arrival order of first vote.
    pub closed spec fn pairs(self) -> Seq<(u64, u8)> {
        self.entries@
    }

    /// Well-formed: one entry per voter, votes within the poll's options.
    pub open spec fn wf(self) -> bool {
        &&& forall|i: int, j: int|
            #![trigger self.pairs()[i], self.pairs()[j]]
            0 <= i < j < self.pairs().len() ==> self.pairs()[i].0 != self.pairs()[j].0
        &&& forall|i: int|
            0 <= i < self.pairs().len() ==> 1 <= (#[trigger] self.pairs()[i]).1
                <= POLL_OPTION_COUNT
    }

    /// Whether the buffer holds an answer of `voter`.
    pub open spec fn has_voter(self, voter: u64) -> bool {
        exists|i: int| 0 <= i < self.pairs().len() && (#[trigger] self.pairs()[i]).0 == voter
    }

    /// The index of `voter`'s entry, meaningful when `has_voter`.
    pub open spec fn voter_index(self, voter: u64) -> int {
        choose|i: int| 0 <= i < self.pairs().len() && (#[trigger] self.pairs()[i]).0 == voter
    }

    /// The number `voter` picked, meaningful when `has_voter`.
    pub open spec fn vote_of(self, voter: u64) -> u8 {
        self.pairs()[self.voter_index(voter)].1
    }

    /// An empty buffer.
    pub fn new() -> (buffer: AnswerBuffer)
        ensures
            buffer.wf(),
            buffer.pairs() == Seq::<(u64, u8)>::empty(),
    {
        AnswerBuffer { entries: Vec::new() }
    }

    /// Drops every buffered answer: called when a round starts, so no stale
    /// answer of a previous round can be counted.
    pub fn clear(&mut self)
        ensures
            final(self).wf(),
            final(self).pairs() == Seq::<(u64, u8)>::empty(),
    {
        self.entries.clear();
    }

    /// Hands out every buffered answer and leaves the buffer empty, in one
    /// step: under the front end's lock an answer arriving concurrently is
    /// either in the snapshot or in the next round's buffer, never lost nor
    /// counted twice.
    pub fn snapshot_and_clear(&mut self) -> (snapshot: Vec<(u64, u8)>)
        ensures
            snapshot@ == old(self).pairs(),
            final(self).wf(),
            final(self).pairs() == Seq::<(u64, u8)>::empty(),
    {
        let mut snapshot: Vec<(u64, u8)> = Vec::new();
        core::mem::swap(&mut snapshot, &mut self.entries);
        snapshot
    }

    /// Records a poll-answer event: a picked option upserts the voter's
    /// vote as `option + 1`, no option retracts the voter's vote. Every
    /// other voter's answer is untouched.
    pub fn register_answer(&mut self, voter: u64, selected_option: Option<u8>)
        requires
            old(self).wf(),
            selected_option matches Some(option) ==> option < POLL_OPTION_COUNT,
        ensures
            final(self).wf(),
            selected_option matches Some(option) ==> vote_set(
                *old(self),
                *final(self),
                voter,
                (option + 1) as u8,
            ),
            selected_option is None ==> vote_retracted(*old(self), *final(self), voter),
    {
        match selected_option {
            Some(option) => self.upsert(voter, option + 1),
            None => self.retract(voter),
        }
    }

    /// Sets `voter`'s answer to `vote`, replacing an earlier answer.
    fn upsert(&mut self, voter: u64, vote: u8)
        requires
            old(self).wf(),
            1 <= vote <= POLL_OPTION_COUNT,
        ensures
            final(self).wf(),
            vote_set(*old(self), *final(self), voter, vote),
    {
        let n = self.entries.len();
        let mut i: usize = 0;
        while i < n
            invariant
                n == self.entries@.len(),
                i <= n,
                forall|j: int| 0 <= j < i ==> (#[trigger] self.entries@[j]).0 != voter,
                self.wf(),
                *self == *old(self),
                1 <= vote <= POLL_OPTION_COUNT,
            decreases n - i,
        {
            if self.entries[i].0 == voter {
                self.entries.set(i, (voter, vote));
                proof {
                    let pre = *old(self);
                    assert(self.pairs() =~= pre.pairs().update(i as int, (voter, vote)));
                    assert forall|i2: int|
                        0 <= i2 < self.pairs().len() && i2 != i implies #[trigger] self.pairs()[i2]
                        == pre.pairs()[i2] by {}
                    assert(self.wf());
                    self.lemma_voter_index_is(i as int, voter);
                    assert forall|q: u64| q != voter implies self.has_voter(q) == pre.has_voter(q)
                        && (pre.has_voter(q) ==> self.vote_of(q) == pre.vote_of(q)) by {
                        self.lemma_other_vote_same(pre, i as int, q);
                    }
                }
                return;
            }
            i += 1;
        }
        assert(!self.has_voter(voter));
        self.entries.push((voter, vote));
        proof {
            let pre = *old(self);
            let m = pre.pairs().len() as int;
            assert forall|i2: int, j2: int|
                #![trigger self.pairs()[i2], self.pairs()[j2]]
                0 <= i2 < j2 < self.pairs().len() implies self.pairs()[i2].0
                != self.pairs()[j2].0 by {
                if j2 < m {
                    assert(pre.pairs()[i2].0 != pre.pairs()[j2].0);
                } else {
                    assert(self.pairs()[j2].0 == voter);
                    assert(pre.pairs()[i2].0 != voter);
                }
            }
            assert(self.pairs()[m].0 == voter);
            self.lemma_voter_index_is(m, voter);
            assert forall|q: u64| q != voter implies self.has_voter(q) == pre.has_voter(q) && (
            pre.has_voter(q) ==> self.vote_of(q) == pre.vote_of(q)) by {
                self.lemma_other_vote_same(pre, m, q);
            }
        }
    }

    /// Removes `voter`'s answer, if any.
    fn retract(&mut self, voter: u64)
        requires
            old(self).wf(),
        ensures
            final(self).wf(),
            vote_retracted(*old(self), *final(self), voter),
    {
        let n = self.entries.len();
        let mut i: usize = 0;
        while i < n
            invariant
                n == self.entries@.len(),
                i <= n,
                forall|j: int| 0 <= j < i ==> (#[trigger] self.entries@[j]).0 != voter,
                self.wf(),
                *self == *old(self),
            decreases n - i,
        {
            if self.entries[i].0 == voter {
                self.entries.remove(i);
                proof {
                    let pre = *old(self);
                    pre.pairs().remove_ensures(i as int);
                    assert(self.pairs() =~= pre.pairs().remove(i as int));
                    assert forall|i2: int, j2: int|
                        #![trigger self.pairs()[i2], self.pairs()[j2]]
                        0 <= i2 < j2 < self.pairs().len() implies self.pairs()[i2].0
                        != self.pairs()[j2].0 by {
                        let oi = if i2 < i { i2 } else { i2 + 1 };
                        let oj = if j2 < i { j2 } else { j2 + 1 };
                        assert(pre.pairs()[oi].0 != pre.pairs()[oj].0);
                    }
                    assert(!self.has_voter(voter)) by {
                        if self.has_voter(voter) {
                            let k = self.voter_index(voter);
                            let ok = if k < i { k } else { k + 1 };
                            assert(pre.pairs()[ok].0 == voter);
                            assert(ok != i);
                            assert(pre.pairs()[ok].0 != pre.pairs()[i as int].0);
                        }
                    }
                    assert forall|q: u64| q != voter implies self.has_voter(q) == pre.has_voter(q)
                        && (pre.has_voter(q) ==> self.vote_of(q) == pre.vote_of(q)) by {
                        if pre.has_voter(q) {
                            let k = pre.voter_index(q);
                            assert(pre.pairs()[k].0 == q);
                            assert(k != i);
                            let nk = if k < i { k } else { k - 1 };
                            assert(self.pairs()[nk].0 == q);
                            assert(self.pairs()[nk].1 == pre.pairs()[k].1);
                            self.lemma_voter_index_is(nk, q);
                            pre.lemma_voter_index_is(k, q);
                        } else {
                            assert(!self.has_voter(q)) by {
                                if self.has_voter(q) {
                                    let k = self.voter_index(q);
                                    let ok = if k < i { k } else { k + 1 };
                                    assert(pre.pairs()[ok].0 == q);
                                }
                            }
                        }
                    }
                }
                return;
            }
            i += 1;
        }
        assert(!self.has_voter(voter));
    }

    /// In a well-formed buffer, an index holding `voter` is the voter
    /// index, so the vote read there is the one `vote_of` answers.
    proof fn lemma_voter_index_is(self, i: int, voter: u64)
        requires
            self.wf(),
            0 <= i < self.pairs().len(),
            self.pairs()[i].0 == voter,
        ensures
            self.has_voter(voter),
            self.voter_index(voter) == i,
            self.vote_of(voter) == self.pairs()[i].1,
    {
        assert(self.has_voter(voter));
        let j = self.voter_index(voter);
        if i != j {
            assert(self.pairs()[i].0 != self.pairs()[j].0);
        }
    }

    /// A change confined to index `i`, whose key is not `q`, leaves
    /// `q`'s answer as it was.
    proof fn lemma_other_vote_same(self, pre: AnswerBuffer, i: int, q: u64)
        requires
            pre.wf(),
            self.wf(),
            0 <= i < self.pairs().len(),
            pre.pairs().len() <= self.pairs().len(),
            forall|j: int|
                0 <= j < pre.pairs().len() && j != i ==> pre.pairs()[j] == #[trigger] self.pairs()[j],
            self.pairs().len() > pre.pairs().len() ==> i == pre.pairs().len()
                && self.pairs().len() == pre.pairs().len() + 1,
            self.pairs()[i].0 != q,
            i < pre.pairs().len() ==> pre.pairs()[i].0 != q,
        ensures
            self.has_voter(q) == pre.has_voter(q),
            pre.has_voter(q) ==> self.vote_of(q) == pre.vote_of(q),
    {
        if pre.has_voter(q) {
            let j = pre.voter_index(q);
            assert(j != i);
            assert(self.pairs()[j].0 == q);
            self.lemma_voter_index_is(j, q);
            pre.lemma_voter_index_is(j, q);
        } else {
            assert(!self.has_voter(q)) by {
                if self.has_voter(q) {
                    let j = self.voter_index(q);
                    assert(j != i);
                    assert(pre.pairs()[j].0 == q);
                }
            }
        }
    }
}

/// `post` is `pre` with `voter`'s answer set to `vote` and nothing else
/// changed.
pub open spec fn vote_set(pre: AnswerBuffer, post: AnswerBuffer, voter: u64, vote: u8) -> bool {
    &&& post.has_voter(voter)
    &&& post.vote_of(voter) == vote
    &&& forall|q: u64|
        q != voter ==> #[trigger] post.has_voter(q) == pre.has_voter(q) && (pre.has_voter(q)
            ==> post.vote_of(q) == pre.vote_of(q))
}

/// `post` is `pre` with `voter`'s answer removed, if there was one, and
/// nothing else changed.
pub open spec fn vote_retracted(pre: AnswerBuffer, post: AnswerBuffer, voter: u64) -> bool {
    &&& !post.has_voter(voter)
    &&& forall|q: u64|
        q != voter ==> #[trigger] post.has_voter(q) == pre.has_voter(q) && (pre.has_voter(q)
            ==> post.vote_of(q) == pre.vote_of(q))
}

/// One answer per voter in a snapshot of the buffer.
pub open spec fn distinct_voters(answers: Seq<(u64, u8)>) -> bool {
    forall|i: int, j: int|
        #![trigger answers[i], answers[j]]
        0 <= i < j < answers.len() ==> answers[i].0 != answers[j].0
}

/// Whether `voter` appears in a snapshot.
pub open spec fn voter_in(answers: Seq<(u64, u8)>, voter: u64) -> bool {
    exists|i: int| 0 <= i < answers.len() && (#[trigger] answers[i]).0 == voter
}

/// The voters whose vote equals the drawn value, in snapshot order.
pub open spec fn matching_voters(answers: Seq<(u64, u8)>, dice_value: u8) -> Seq<u64>
    decreases answers.len(),
{
    if answers.len() == 0 {
        Seq::empty()
    } else {
        let rest = matching_voters(answers.drop_last(), dice_value);
        if answers.last().1 == dice_value {
            rest.push(answers.last().0)
        } else {
            rest
        }
    }
}

/// The voters whose vote differs from the drawn value, in snapshot order.
pub open spec fn non_matching_voters(answers: Seq<(u64, u8)>, dice_value: u8) -> Seq<u64>
    decreases answers.len(),
{
    if answers.len() == 0 {
        Seq::empty()
    } else {
        let rest = non_matching_voters(answers.drop_last(), dice_value);
        if answers.last().1 != dice_value {
            rest.push(answers.last().0)
        } else {
            rest
        }
    }
}

/// The matching voters that had the stake to be paid, in snapshot order.
pub open spec fn paid_winners_of(answers: Seq<(u64, u8)>, ledger: Ledger, dice_value: u8) -> Seq<
    u64,
>
    decreases answers.len(),
{
    if answers.len() == 0 {
        Seq::empty()
    } else {
        let rest = paid_winners_of(answers.drop_last(), ledger, dice_value);
        let last = answers.last();
        if last.1 == dice_value && ledger.balance_of(last.0) >= MIN_LOTTERY_STAKE {
            rest.push(last.0)
        } else {
            rest
        }
    }
}

/// The matching voters below the stake, who win nothing and are announced
/// separately, in snapshot order.
pub open spec fn bankrupt_winners_of(
    answers: Seq<(u64, u8)>,
    ledger: Ledger,
    dice_value: u8,
) -> Seq<u64>
    decreases answers.len(),
{
    if answers.len() == 0 {
        Seq::empty()
    } else {
        let rest = bankrupt_winners_of(answers.drop_last(), ledger, dice_value);
        let last = answers.last();
        if last.1 == dice_value && ledger.balance_of(last.0) < MIN_LOTTERY_STAKE {
            rest.push(last.0)
        } else {
            rest
        }
    }
}

/// Where a voter's balance stands after the round, as a function of the
/// balance before it: below the stake it is untouched; otherwise a match
/// wins `LOTTERY_WIN` and a miss pays `LOTTERY_PENALTY`.
pub open spec fn settled_balance(before: i64, vote: u8, dice_value: u8) -> int {
    if before < MIN_LOTTERY_STAKE {
        before as int
    } else if vote == dice_value {
        before + LOTTERY_WIN
    } else {
        before - LOTTERY_PENALTY
    }
}

/// Partitions a snapshot of poll answers into the voters matching the drawn
/// value and the rest, regardless of stake.
pub fn get_winner_ids(answers: &Vec<(u64, u8)>, dice_value: u8) -> (partition: (Vec<u64>, Vec<
    u64,
>))
    ensures
        partition.0@ == matching_voters(answers@, dice_value),
        partition.1@ == non_matching_voters(answers@, dice_value),
{
    let mut winners: Vec<u64> = Vec::new();
    let mut losers: Vec<u64> = Vec::new();
    let n = answers.len();
    let mut i: usize = 0;
    assert(answers@.take(0) =~= Seq::<(u64, u8)>::empty());
    while i < n
        invariant
            n == answers@.len(),
            i <= n,
            winners@ == matching_voters(answers@.take(i as int), dice_value),
            losers@ == non_matching_voters(answers@.take(i as int), dice_value),
        decreases n - i,
    {
        let (voter, vote) = answers[i];
        proof {
            assert(answers@.take(i + 1).drop_last() =~= answers@.take(i as int));
            assert(answers@.take(i + 1).last() == answers@[i as int]);
        }
        if vote == dice_value {
            winners.push(voter);
        } else {
            losers.push(voter);
        }
        i += 1;
    }
    proof {
        assert(answers@.take(n as int) =~= answers@);
    }
    (winners, losers)
}

/// What settling a round hands back for the announcement: the voters that
/// were paid and the matching voters skipped for want of stake.
pub struct RoundPayout {
    pub winners: Vec<u64>,
    pub bankrupts: Vec<u64>,
}

/// Settles a whole lottery round against the conversation state: legal only
/// while answers are being collected, where every buffered voter's balance
/// moves to its settled value, everyone else is untouched, the round
/// returns to idle, and the paid and skipped winners are handed back for
/// the announcement. A round found idle — a late timer after a manual reset
/// — fails with `InvalidStateTransition` and changes nothing.
pub fn resolve_round(
    state: &mut State,
    answers: &Vec<(u64, u8)>,
    dice_value: u8,
) -> (outcome: Result<RoundPayout, BotError>)
    requires
        old(state).wf(),
        distinct_voters(answers@),
        forall|i: int|
            0 <= i < answers@.len() ==> old(state).ledger.balance_of(
                (#[trigger] answers@[i]).0,
            ) <= i64::MAX - LOTTERY_WIN,
    ensures
        final(state).wf(),
        old(state).round is Idle ==> outcome == Err::<RoundPayout, BotError>(
            BotError::InvalidStateTransition,
        ) && *final(state) == *old(state),
        old(state).round is ReceivingPollAnswers ==> ({
            &&& outcome matches Ok(payout)
            &&& final(state).round is Idle
            &&& final(state).stats == old(state).stats
            &&& forall|i: int|
                0 <= i < answers@.len() ==> final(state).ledger.balance_of(
                    (#[trigger] answers@[i]).0,
                ) == settled_balance(
                    old(state).ledger.balance_of(answers@[i].0),
                    answers@[i].1,
                    dice_value,
                )
            &&& forall|q: u64|
                !voter_in(answers@, q) ==> #[trigger] final(state).ledger.balance_of(q) == old(
                    state,
                ).ledger.balance_of(q)
            &&& payout.winners@ == paid_winners_of(answers@, old(state).ledger, dice_value)
            &&& payout.bankrupts@ == bankrupt_winners_of(answers@, old(state).ledger, dice_value)
        }),
{
    match state.round {
        Round::Idle => {
            return Err(BotError::InvalidStateTransition);
        },
        Round::ReceivingPollAnswers { .. } => {},
    }
    let ghost pre = *state;
    let mut winners: Vec<u64> = Vec::new();
    let mut bankrupts: Vec<u64> = Vec::new();
    let n = answers.len();
    let mut i: usize = 0;
    assert(answers@.take(0) =~= Seq::<(u64, u8)>::empty());
    while i < n
        invariant
            n == answers@.len(),
            i <= n,
            state.wf(),
            state.round == pre.round,
            state.stats == pre.stats,
            distinct_voters(answers@),
            forall|j: int|
                0 <= j < n ==> pre.ledger.balance_of((#[trigger] answers@[j]).0) <= i64::MAX
                    - LOTTERY_WIN,
            forall|j: int|
                0 <= j < i ==> state.ledger.balance_of((#[trigger] answers@[j]).0)
                    == settled_balance(
                    pre.ledger.balance_of(answers@[j].0),
                    answers@[j].1,
                    dice_value,
                ),
            forall|q: u64|
                !voter_in(answers@.take(i as int), q) ==> #[trigger] state.ledger.balance_of(q)
                    == pre.ledger.balance_of(q),
            winners@ == paid_winners_of(answers@.take(i as int), pre.ledger, dice_value),
            bankrupts@ == bankrupt_winners_of(answers@.take(i as int), pre.ledger, dice_value),
        decreases n - i,
    {
        let (voter, vote) = answers[i];
        proof {
            assert(answers@.take(i + 1).drop_last() =~= answers@.take(i as int));
            assert(answers@.take(i + 1).last() == answers@[i as int]);
            assert(!voter_in(answers@.take(i as int), voter)) by {
                if voter_in(answers@.take(i as int), voter) {
                    let k = choose|k: int|
                        0 <= k < i && (#[trigger] answers@.take(i as int)[k]).0 == voter;
                    assert(answers@[k].0 == answers@[i as int].0);
                }
            }
        }
        let balance = state.get(voter);
        assert(balance == pre.ledger.balance_of(voter));
        if vote == dice_value {
            if balance < MIN_LOTTERY_STAKE {
                bankrupts.push(voter);
            } else {
                winners.push(voter);
                state.insert(voter, LOTTERY_WIN);
            }
        } else {
            if balance >= MIN_LOTTERY_STAKE {
                state.insert(voter, -LOTTERY_PENALTY);
            }
        }
        proof {
            assert forall|q: u64| !voter_in(answers@.take(i + 1), q)
                implies #[trigger] state.ledger.balance_of(q) == pre.ledger.balance_of(q) by {
                assert(!voter_in(answers@.take(i as int), q)) by {
                    if voter_in(answers@.take(i as int), q) {
                        let k = choose|k: int|
                            0 <= k < i && (#[trigger] answers@.take(i as int)[k]).0 == q;
                        assert(answers@.take(i + 1)[k].0 == q);
                    }
                }
                assert(q != voter) by {
                    assert(answers@.take(i + 1)[i as int].0 == voter);
                }
            }
            assert forall|j: int| 0 <= j < i + 1 implies state.ledger.balance_of(
                (#[trigger] answers@[j]).0,
            ) == settled_balance(
                pre.ledger.balance_of(answers@[j].0),
                answers@[j].1,
                dice_value,
            ) by {
                if j < i {
                    assert(answers@[j].0 != voter);
                }
            }
        }
        i += 1;
    }
    proof {
        assert(answers@.take(n as int) =~= answers@);
    }
    state.round = Round::Idle;
    Ok(RoundPayout { winners, bankrupts })
}

} // verus!
