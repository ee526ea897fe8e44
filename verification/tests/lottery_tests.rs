use casino_bot::loto::get_winner_ids;
use casino_bot::loto::resolve_round;
use casino_bot::loto::AnswerBuffer;
use casino_bot::state::PollRef;
use casino_bot::state::Round;
use casino_bot::state::State;
use casino_bot::BotError;

fn collecting_state() -> State {
    State::default()
        .start(PollRef { message_id: 1 })
        .expect("starting from idle succeeds")
}

#[test]
fn start_from_idle_succeeds() {
    let state = State::default();
    let started = state.start(PollRef { message_id: 41 });
    match started {
        Ok(next) => match next.round {
            Round::ReceivingPollAnswers { poll } => assert_eq!(poll.message_id, 41),
            Round::Idle => panic!("starting must move to collecting"),
        },
        Err(_) => panic!("starting from idle must succeed"),
    }
}

#[test]
fn start_while_collecting_is_invalid_transition() {
    let state = collecting_state();
    match state.start(PollRef { message_id: 2 }) {
        Ok(_) => panic!("starting while collecting must fail"),
        Err(err) => assert_eq!(err, BotError::InvalidStateTransition),
    }
}

#[test]
fn to_idle_always_returns_to_idle() {
    let state = collecting_state().to_idle();
    assert!(matches!(state.round, Round::Idle));
    let state = state.to_idle();
    assert!(matches!(state.round, Round::Idle));
}

#[test]
fn register_answer_upserts_and_retracts() {
    let mut buffer = AnswerBuffer::new();
    buffer.register_answer(1, Some(0)); // vote 1
    buffer.register_answer(1, Some(5)); // replaced by vote 6
    buffer.register_answer(2, Some(3)); // vote 4
    buffer.register_answer(2, None); // retracted
    let snapshot = buffer.snapshot_and_clear();
    assert_eq!(snapshot, vec![(1, 6)]);
}

#[test]
fn snapshot_and_clear_empties_the_buffer() {
    let mut buffer = AnswerBuffer::new();
    buffer.register_answer(1, Some(2));
    let first = buffer.snapshot_and_clear();
    assert_eq!(first, vec![(1, 3)]);
    let second = buffer.snapshot_and_clear();
    assert_eq!(second, vec![]);
}

#[test]
fn clear_drops_stale_answers() {
    let mut buffer = AnswerBuffer::new();
    buffer.register_answer(9, Some(1));
    buffer.clear();
    assert_eq!(buffer.snapshot_and_clear(), vec![]);
}

#[test]
fn fifty_mixed_answer_events_leave_exactly_the_net_state() {
    // Fifty interleaved inserts and retractions, as delivered one at a time
    // under the front end's lock, then one snapshot-and-clear.
    let mut buffer = AnswerBuffer::new();
    let mut events: Vec<(u64, Option<u8>)> = Vec::new();
    for k in 0..25u64 {
        events.push((k % 10, Some((k % 6) as u8)));
        if k % 3 == 0 {
            events.push((k % 10, None));
        } else {
            events.push(((k + 13) % 17, Some(((k + 2) % 6) as u8)));
        }
    }
    assert_eq!(events.len(), 50);
    // The net state, replayed on a plain association list.
    let mut net: Vec<(u64, u8)> = Vec::new();
    for &(voter, option) in &events {
        net.retain(|&(v, _)| v != voter);
        if let Some(option) = option {
            net.push((voter, option + 1));
        }
    }
    for &(voter, option) in &events {
        buffer.register_answer(voter, option);
    }
    let mut snapshot = buffer.snapshot_and_clear();
    assert_eq!(buffer.snapshot_and_clear(), vec![]);
    snapshot.sort();
    net.sort();
    assert_eq!(snapshot, net);
}

#[test]
fn get_winner_ids_partitions_by_vote() {
    let answers = vec![(1, 4), (2, 5), (3, 4), (4, 1)];
    let (winners, losers) = get_winner_ids(&answers, 4);
    assert_eq!(winners, vec![1, 3]);
    assert_eq!(losers, vec![2, 4]);
}

#[test]
fn lottery_scenario_single_winner() {
    // Scenario: an empty ledger, one player starts a lottery and answers
    // "3", the timer fires and the die rolls "3".
    let state = collecting_state();
    let mut buffer = AnswerBuffer::new();
    buffer.clear();
    buffer.register_answer(7, Some(2)); // vote 3
    let snapshot = buffer.snapshot_and_clear();
    let mut state = state;
    let payout = resolve_round(&mut state, &snapshot, 3).expect("collecting round settles");
    assert_eq!(state.get(7), 150);
    assert!(matches!(state.round, Round::Idle));
    assert_eq!(payout.winners, vec![7]);
    assert_eq!(payout.bankrupts, vec![]);
}

#[test]
fn lottery_scenario_winner_and_loser() {
    // Scenario: two players answer "4" and "5"; the die rolls "4".
    let mut state = collecting_state();
    let mut buffer = AnswerBuffer::new();
    buffer.register_answer(1, Some(3)); // vote 4
    buffer.register_answer(2, Some(4)); // vote 5
    let snapshot = buffer.snapshot_and_clear();
    let payout = resolve_round(&mut state, &snapshot, 4).expect("collecting round settles");
    assert_eq!(state.get(1), 150);
    assert_eq!(state.get(2), 90); // above the stake: pays the penalty
    assert_eq!(payout.winners, vec![1]);
    assert_eq!(payout.bankrupts, vec![]);
    assert!(matches!(state.round, Round::Idle));
}

#[test]
fn lottery_skips_poor_winner_and_poor_loser() {
    let mut state = collecting_state();
    state.insert(1, -95); // balance 5: below the lottery stake
    state.insert(2, -95); // balance 5
    let mut buffer = AnswerBuffer::new();
    buffer.register_answer(1, Some(5)); // vote 6: would win
    buffer.register_answer(2, Some(0)); // vote 1: would lose
    let snapshot = buffer.snapshot_and_clear();
    let payout = resolve_round(&mut state, &snapshot, 6).expect("collecting round settles");
    assert_eq!(state.get(1), 5); // would have won, lacked the stake
    assert_eq!(state.get(2), 5); // too poor to pay the penalty
    assert_eq!(payout.winners, vec![]);
    assert_eq!(payout.bankrupts, vec![1]);
}

#[test]
fn lottery_without_winners_penalizes_losers() {
    let mut state = collecting_state();
    let mut buffer = AnswerBuffer::new();
    buffer.register_answer(1, Some(0)); // vote 1
    buffer.register_answer(2, Some(1)); // vote 2
    let snapshot = buffer.snapshot_and_clear();
    let payout = resolve_round(&mut state, &snapshot, 6).expect("collecting round settles");
    assert_eq!(payout.winners, vec![]);
    assert_eq!(payout.bankrupts, vec![]);
    assert_eq!(state.get(1), 90);
    assert_eq!(state.get(2), 90);
}

#[test]
fn resolve_round_on_idle_state_is_invalid_transition() {
    // A late timer after a manual reset finds the round already idle.
    let mut state = State::default();
    state.insert(5, 23);
    let answers = vec![(5, 3)];
    match resolve_round(&mut state, &answers, 3) {
        Ok(_) => panic!("an idle round must not settle"),
        Err(err) => assert_eq!(err, BotError::InvalidStateTransition),
    }
    assert_eq!(state.get(5), 123); // untouched
    assert!(matches!(state.round, Round::Idle));
}

#[test]
fn players_outside_the_poll_are_untouched() {
    let mut state = collecting_state();
    state.insert(50, 900);
    let mut buffer = AnswerBuffer::new();
    buffer.register_answer(1, Some(2));
    let snapshot = buffer.snapshot_and_clear();
    resolve_round(&mut state, &snapshot, 3).expect("collecting round settles");
    assert_eq!(state.get(50), 1000);
}
