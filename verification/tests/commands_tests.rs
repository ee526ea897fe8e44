use casino_bot::commands::give_money;
use casino_bot::commands::GiveOutcome;
use casino_bot::commands::OWNER;
use casino_bot::state::State;
use casino_bot::BotError;

#[test]
fn give_money_refuses_non_owner() {
    let mut state = State::default();
    let outcome = give_money(&mut state, Some(123), Some(Some(7)));
    assert_eq!(outcome, Ok(GiveOutcome::RefusedNotOwner));
    assert_eq!(state.get(7), 100);
}

#[test]
fn give_money_refuses_anonymous_sender() {
    let mut state = State::default();
    let outcome = give_money(&mut state, None, Some(Some(7)));
    assert_eq!(outcome, Ok(GiveOutcome::RefusedNotOwner));
    assert_eq!(state.get(7), 100);
}

#[test]
fn give_money_without_reply_grants_nothing() {
    let mut state = State::default();
    let outcome = give_money(&mut state, Some(OWNER), None);
    assert_eq!(outcome, Ok(GiveOutcome::NoReplyTarget));
}

#[test]
fn give_money_to_vanished_author_is_missing_player() {
    let mut state = State::default();
    let outcome = give_money(&mut state, Some(OWNER), Some(None));
    assert_eq!(outcome, Err(BotError::MissingPlayerContext));
}

#[test]
fn give_money_grants_the_gift_amount() {
    let mut state = State::default();
    let outcome = give_money(&mut state, Some(OWNER), Some(Some(7)));
    assert_eq!(outcome, Ok(GiveOutcome::Granted { recipient: 7 }));
    assert_eq!(state.get(7), 200);
    assert_eq!(state.get(8), 100);
}

#[test]
fn leaderboard_reflects_gifts_and_games() {
    let mut state = State::default();
    give_money(&mut state, Some(OWNER), Some(Some(7))).expect("owner grants");
    state.insert(9, -40);
    let listing = state.leaderboard();
    assert_eq!(listing, vec![(7, 200), (9, 60)]);
}
