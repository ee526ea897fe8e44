use casino_bot::ledger::Ledger;

#[test]
fn default_balance_for_unseen_player() {
    let ledger = Ledger::new();
    assert_eq!(ledger.get_balance(1), 100);
    // The default is fixed, not drawn per call.
    assert_eq!(ledger.get_balance(1), 100);
    assert_eq!(ledger.get_balance(u64::MAX), 100);
}

#[test]
fn apply_delta_adds_to_default() {
    let mut ledger = Ledger::new();
    ledger.apply_delta(7, 50);
    assert_eq!(ledger.get_balance(7), 150);
    assert_eq!(ledger.get_balance(8), 100);
}

#[test]
fn apply_delta_sequential_equals_combined() {
    let mut twice = Ledger::new();
    twice.apply_delta(7, 30);
    twice.apply_delta(7, 12);
    let mut once = Ledger::new();
    once.apply_delta(7, 42);
    assert_eq!(twice.get_balance(7), once.get_balance(7));
    assert_eq!(twice.get_balance(7), 142);
    assert_eq!(twice.get_balance(9), once.get_balance(9));
}

#[test]
fn apply_delta_negative_deltas_sequential() {
    let mut twice = Ledger::new();
    twice.apply_delta(3, -30);
    twice.apply_delta(3, -80);
    let mut once = Ledger::new();
    once.apply_delta(3, -110);
    assert_eq!(twice.get_balance(3), -10);
    assert_eq!(once.get_balance(3), -10);
}

#[test]
fn balance_may_go_negative() {
    let mut ledger = Ledger::new();
    ledger.apply_delta(5, -250);
    assert_eq!(ledger.get_balance(5), -150);
}

#[test]
fn ranked_listing_sorts_by_descending_balance() {
    let mut ledger = Ledger::new();
    ledger.apply_delta(1, 20); // 120
    ledger.apply_delta(2, -50); // 50
    ledger.apply_delta(3, 400); // 500
    let listing = ledger.ranked_listing(10);
    assert_eq!(listing, vec![(3, 500), (1, 120), (2, 50)]);
}

#[test]
fn ranked_listing_breaks_ties_by_ascending_player_id() {
    let mut ledger = Ledger::new();
    ledger.apply_delta(9, 0); // 100
    ledger.apply_delta(2, 0); // 100
    ledger.apply_delta(5, 77); // 177
    let listing = ledger.ranked_listing(10);
    assert_eq!(listing, vec![(5, 177), (2, 100), (9, 100)]);
}

#[test]
fn ranked_listing_truncates_to_limit() {
    let mut ledger = Ledger::new();
    ledger.apply_delta(1, 1);
    ledger.apply_delta(2, 2);
    ledger.apply_delta(3, 3);
    let listing = ledger.ranked_listing(2);
    assert_eq!(listing, vec![(3, 103), (2, 102)]);
}

#[test]
fn ranked_listing_stable_across_runs() {
    let mut ledger = Ledger::new();
    ledger.apply_delta(4, 0);
    ledger.apply_delta(1, 0);
    ledger.apply_delta(3, -7);
    ledger.apply_delta(2, 13);
    let first = ledger.ranked_listing(10);
    let second = ledger.ranked_listing(10);
    assert_eq!(first, second);
}

#[test]
fn ranked_listing_of_empty_ledger_is_empty() {
    let ledger = Ledger::new();
    assert_eq!(ledger.ranked_listing(10), vec![]);
}

#[test]
fn pairs_round_trip_through_persistence() {
    let mut ledger = Ledger::new();
    ledger.apply_delta(1, 11);
    ledger.apply_delta(2, -22);
    let pairs = ledger.to_pairs();
    let restored = Ledger::from_pairs(pairs).expect("unique ids round-trip");
    assert_eq!(restored.get_balance(1), 111);
    assert_eq!(restored.get_balance(2), 78);
    assert_eq!(restored.get_balance(3), 100);
}

#[test]
fn from_pairs_rejects_duplicate_player() {
    assert!(Ledger::from_pairs(vec![(1, 5), (2, 6), (1, 7)]).is_none());
}
