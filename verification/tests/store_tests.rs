use speedy_jumper::client::{
    top_scores, ClaimError, Client, LeaderboardStore, Notification, WITHDRAW_TIME_MS,
};

#[test]
fn new_store_is_empty() {
    let store = LeaderboardStore::new();
    assert!(store.is_empty());
    assert_eq!(store.len(), 0);
}

#[test]
fn upsert_then_get() {
    let mut store = LeaderboardStore::new();
    store.upsert("ann".to_string(), 1200);
    assert_eq!(store.get(&"ann".to_string()), Some(1200));
    assert_eq!(store.get(&"bob".to_string()), None);
    assert_eq!(store.len(), 1);
}

#[test]
fn upsert_overwrites() {
    let mut store = LeaderboardStore::new();
    store.upsert("ann".to_string(), 1200);
    store.upsert("ann".to_string(), 3400);
    assert_eq!(store.get(&"ann".to_string()), Some(3400));
    assert_eq!(store.len(), 1);
}

#[test]
fn negative_update_removes_present_name() {
    let mut store = LeaderboardStore::new();
    store.upsert("ann".to_string(), 1200);
    store.update(&"ann".to_string(), -1);
    assert_eq!(store.get(&"ann".to_string()), None);
    assert_eq!(store.len(), 0);
}

#[test]
fn negative_update_is_noop_when_absent() {
    let mut store = LeaderboardStore::new();
    store.upsert("bob".to_string(), 500);
    store.update(&"ann".to_string(), -1);
    assert_eq!(store.len(), 1);
    assert_eq!(store.get(&"bob".to_string()), Some(500));
}

#[test]
fn nonnegative_update_records_score() {
    let mut store = LeaderboardStore::new();
    store.update(&"ann".to_string(), 0);
    assert_eq!(store.get(&"ann".to_string()), Some(0));
    store.update(&"ann".to_string(), 9000);
    assert_eq!(store.get(&"ann".to_string()), Some(9000));
}

#[test]
fn entries_stay_sorted_by_name() {
    let mut store = LeaderboardStore::new();
    store.upsert("cy".to_string(), 3);
    store.upsert("ann".to_string(), 1);
    store.upsert("bob".to_string(), 2);
    assert_eq!(store.entries[0].0, "ann".to_string());
    assert_eq!(store.entries[1].0, "bob".to_string());
    assert_eq!(store.entries[2].0, "cy".to_string());
    // overwriting keeps the name's ordered slot; removal keeps the rest sorted
    store.upsert("ann".to_string(), 9);
    assert_eq!(store.entries[0], ("ann".to_string(), 9));
    store.remove(&"bob".to_string());
    assert_eq!(store.entries[0].0, "ann".to_string());
    assert_eq!(store.entries[1].0, "cy".to_string());
}

#[test]
fn snapshots_iterate_in_name_order() {
    let mut store = LeaderboardStore::new();
    store.upsert("bob".to_string(), 2);
    store.upsert("ann".to_string(), 1);
    let mut c = Client::new("zed".to_string(), &mut store).unwrap();
    c.sync(&store);
    let names: Vec<String> =
        c.get_leaderboard().entries.iter().map(|(name, _)| name.clone()).collect();
    assert_eq!(names, vec!["ann".to_string(), "bob".to_string(), "zed".to_string()]);
}

#[test]
fn top_scores_sorts_descending_and_truncates() {
    let mut store = LeaderboardStore::new();
    store.upsert("ann".to_string(), 300);
    store.upsert("bob".to_string(), 900);
    store.upsert("cy".to_string(), 600);
    let top2 = top_scores(&store, 2);
    assert_eq!(top2.len(), 2);
    assert_eq!(top2[0], ("bob".to_string(), 900));
    assert_eq!(top2[1], ("cy".to_string(), 600));
    let all = top_scores(&store, 10);
    assert_eq!(all.len(), 3);
    assert_eq!(all[2], ("ann".to_string(), 300));
}

#[test]
fn snapshot_is_independent() {
    let mut store = LeaderboardStore::new();
    store.upsert("ann".to_string(), 1);
    let snap = store.snapshot();
    store.upsert("bob".to_string(), 2);
    assert_eq!(snap.len(), 1);
    assert_eq!(store.len(), 2);
    assert_eq!(snap.get(&"ann".to_string()), Some(1));
    assert_eq!(snap.get(&"bob".to_string()), None);
}

#[test]
fn claim_flow_on_empty_store() {
    // Scenario: a fresh store; "ann" claims; "ann" again conflicts; the
    // store holds exactly one entry with the initial score.
    let mut store = LeaderboardStore::new();
    let first = Client::new("ann".to_string(), &mut store);
    assert!(first.is_ok());
    let second = Client::new("ann".to_string(), &mut store);
    match second {
        Err(ClaimError::NameConflict) => {}
        _ => panic!("second claim of the same name must conflict"),
    }
    assert_eq!(store.len(), 1);
    assert_eq!(store.get(&"ann".to_string()), Some(0));
}

#[test]
fn conflicting_claim_does_not_mutate_store() {
    let mut store = LeaderboardStore::new();
    store.upsert("ann".to_string(), 777);
    let r = Client::new("ann".to_string(), &mut store);
    match r {
        Err(ClaimError::NameConflict) => {}
        _ => panic!("claiming a present name must conflict"),
    }
    assert_eq!(store.len(), 1);
    assert_eq!(store.get(&"ann".to_string()), Some(777));
}

#[test]
fn empty_name_claim_fails_without_mutation() {
    let mut store = LeaderboardStore::new();
    let r = Client::new(String::new(), &mut store);
    match r {
        Err(ClaimError::EmptyName) => {}
        _ => panic!("empty name must be rejected"),
    }
    assert!(store.is_empty());
}

#[test]
fn successful_claim_takes_snapshot() {
    let mut store = LeaderboardStore::new();
    store.upsert("bob".to_string(), 100);
    let c = Client::new("ann".to_string(), &mut store).unwrap();
    let board = c.get_leaderboard();
    assert_eq!(board.get(&"bob".to_string()), Some(100));
    assert_eq!(board.get(&"ann".to_string()), Some(0));
}

#[test]
fn sync_refreshes_snapshot() {
    let mut store = LeaderboardStore::new();
    let mut c = Client::new("ann".to_string(), &mut store).unwrap();
    store.upsert("bob".to_string(), 55);
    assert_eq!(c.get_leaderboard().get(&"bob".to_string()), None);
    c.sync(&store);
    assert_eq!(c.get_leaderboard().get(&"bob".to_string()), Some(55));
}

#[test]
fn withdrawal_fires_exactly_once() {
    let mut c = Client::empty();
    let first = c.withdraw();
    match first {
        Some(Notification::Time { name, time_ms }) => {
            assert_eq!(name, "empty".to_string());
            assert_eq!(time_ms, WITHDRAW_TIME_MS);
            assert!(time_ms < 0);
        }
        _ => panic!("first teardown must emit the withdrawal"),
    }
    assert!(c.withdraw().is_none());
    assert!(c.withdraw().is_none());
}

#[test]
fn teardown_after_failed_claim_still_fires_once() {
    let mut store = LeaderboardStore::new();
    store.upsert("ann".to_string(), 1);
    assert!(Client::new("ann".to_string(), &mut store).is_err());
    // the session that tried (and failed) to claim still tears down once
    let mut session = Client::empty();
    assert!(session.withdraw().is_some());
    assert!(session.withdraw().is_none());
}

#[test]
fn register_messages_carry_the_name() {
    let mut store = LeaderboardStore::new();
    let c = Client::new("ann".to_string(), &mut store).unwrap();
    match c.register_name() {
        Notification::Register { name } => assert_eq!(name, "ann".to_string()),
        _ => panic!("register_name must announce the name"),
    }
    match c.register_time(4321) {
        Notification::Time { name, time_ms } => {
            assert_eq!(name, "ann".to_string());
            assert_eq!(time_ms, 4321);
        }
        _ => panic!("register_time must report the time"),
    }
}
