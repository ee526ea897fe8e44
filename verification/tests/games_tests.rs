use casino_bot::emoji_games::basketball_handler;
use casino_bot::emoji_games::bowling_handler;
use casino_bot::emoji_games::darts_handler;
use casino_bot::emoji_games::football_handler;
use casino_bot::emoji_games::game_outcome;
use casino_bot::emoji_games::play_game;
use casino_bot::emoji_games::slot_machine_handler;
use casino_bot::emoji_games::GameKind;
use casino_bot::emoji_games::PlayOutcome;
use casino_bot::state::Round;
use casino_bot::state::State;

#[test]
fn slot_machine_jackpot_is_raw_sixty_three() {
    // Platform value 64 carries raw value 63: all three reels maxed.
    assert_eq!(slot_machine_handler(64), ("🔥", 30, 2));
}

#[test]
fn slot_machine_triple_pays_ten() {
    // Raw 21 is 0b010101: all three reels show symbol 1.
    assert_eq!(slot_machine_handler(22), ("🎉", 10, 2));
}

#[test]
fn slot_machine_pair_costs_one() {
    // Raw 1 is 0b000001: left and middle reels equal.
    assert_eq!(slot_machine_handler(2), ("😢", -1, 2));
}

#[test]
fn slot_machine_baseline_costs_one() {
    // Raw 6 is 0b000110: three different reels.
    assert_eq!(slot_machine_handler(7), ("🥱", -1, 2));
}

#[test]
fn slot_machine_total_with_unique_jackpot() {
    // Every raw value falls in exactly one category; the jackpot reaction
    // appears for exactly one value.
    let mut jackpots = 0;
    for value in 1..=64u8 {
        let (reaction, score, delay) = slot_machine_handler(value);
        assert_eq!(delay, 2);
        match reaction {
            "🔥" => {
                jackpots += 1;
                assert_eq!(score, 30);
                assert_eq!(value, 64);
            }
            "🎉" => assert_eq!(score, 10),
            "😢" => assert_eq!(score, -1),
            "🥱" => assert_eq!(score, -1),
            other => panic!("unexpected reaction {}", other),
        }
    }
    assert_eq!(jackpots, 1);
}

#[test]
fn darts_table_is_exact() {
    let expected = [
        ("🤡", -2),
        ("🥱", -2),
        ("🤔", -2),
        ("👀", -2),
        ("🙊", -2),
        ("😎", 12),
    ];
    for value in 1..=6u8 {
        let (reaction, score, delay) = darts_handler(value);
        assert_eq!((reaction, score), expected[(value - 1) as usize]);
        assert_eq!(delay, 3);
    }
}

#[test]
fn basketball_table_is_exact() {
    let expected = [("🫡", -3), ("🥱", -3), ("🥴", -3), ("🆒", 4), ("🤝", 6)];
    for value in 1..=5u8 {
        let (reaction, score, delay) = basketball_handler(value);
        assert_eq!((reaction, score), expected[(value - 1) as usize]);
        assert_eq!(delay, 4);
    }
}

#[test]
fn bowling_table_is_exact() {
    let expected = [
        ("🌚", -3),
        ("👨‍💻", -3),
        ("🦄", -3),
        ("😨", -3),
        ("🤨", -3),
        ("🗿", 16),
    ];
    for value in 1..=6u8 {
        let (reaction, score, delay) = bowling_handler(value);
        assert_eq!((reaction, score), expected[(value - 1) as usize]);
        assert_eq!(delay, 4);
    }
}

#[test]
fn football_table_is_exact() {
    let expected = [("🌭", -5), ("🐳", -5), ("💅", 1), ("🙏", 5), ("👏", 5)];
    for value in 1..=5u8 {
        let (reaction, score, delay) = football_handler(value);
        assert_eq!((reaction, score), expected[(value - 1) as usize]);
        assert_eq!(delay, 4);
    }
}

#[test]
fn game_outcome_dispatches_per_kind() {
    assert_eq!(game_outcome(GameKind::Darts, 6), ("😎", 12, 3));
    assert_eq!(game_outcome(GameKind::Bowling, 6), ("🗿", 16, 4));
    assert_eq!(game_outcome(GameKind::SlotMachine, 64), ("🔥", 30, 2));
}

#[test]
fn play_game_applies_score_and_records_outcome() {
    let mut state = State::default();
    let outcome = play_game(&mut state, 7, GameKind::Darts, 6);
    match outcome {
        PlayOutcome::Played {
            reaction,
            reveal_delay,
        } => {
            assert_eq!(reaction, "😎");
            assert_eq!(reveal_delay, 3);
        }
        PlayOutcome::RefusedBroke => panic!("a player at the default balance may play"),
    }
    assert_eq!(state.get(7), 112);
    assert_eq!(state.game_stats().stats_for(GameKind::Darts), vec![(6, 1)]);
    assert!(matches!(state.round, Round::Idle));
}

#[test]
fn play_game_refuses_broke_player_untouched() {
    let mut state = State::default();
    state.insert(7, -100); // balance 0: below the minimum stake
    let outcome = play_game(&mut state, 7, GameKind::Basketball, 5);
    assert!(matches!(outcome, PlayOutcome::RefusedBroke));
    assert_eq!(state.get(7), 0);
    assert_eq!(state.game_stats().stats_for(GameKind::Basketball), vec![]);
}

#[test]
fn stats_listing_is_sorted_by_value() {
    let mut state = State::default();
    state.register_game_result(GameKind::Darts, 6);
    state.register_game_result(GameKind::Darts, 2);
    state.register_game_result(GameKind::Darts, 6);
    state.register_game_result(GameKind::Bowling, 1);
    assert_eq!(
        state.game_stats().stats_for(GameKind::Darts),
        vec![(2, 1), (6, 2)]
    );
    assert_eq!(
        state.game_stats().stats_for(GameKind::Bowling),
        vec![(1, 1)]
    );
    assert_eq!(state.game_stats().stats_for(GameKind::Football), vec![]);
}

#[test]
fn stats_round_trip_through_persistence() {
    let mut state = State::default();
    state.register_game_result(GameKind::Football, 3);
    state.register_game_result(GameKind::Football, 3);
    let triples = state.game_stats().to_triples();
    let restored =
        casino_bot::emoji_games::GameStats::from_triples(triples).expect("unique round-trip");
    assert_eq!(restored.stats_for(GameKind::Football), vec![(3, 2)]);
}

#[test]
fn stats_from_triples_rejects_duplicates() {
    let triples = vec![(GameKind::Darts, 1, 4), (GameKind::Darts, 1, 9)];
    assert!(casino_bot::emoji_games::GameStats::from_triples(triples).is_none());
}
