use leaderboard_bot::store::{Record, Store};

fn rec(handle: &str, external: &str, score: i32) -> Record {
    Record { handle: handle.to_string(), external_handle: external.to_string(), score }
}

#[test]
fn upsert_twice_keeps_one_record() {
    let mut store = Store::from_records(vec![rec("alice", "old", 42)]).unwrap();
    store.upsert("alice", "x1");
    store.upsert("alice", "x1");
    assert_eq!(store.len(), 1);
    let r = store.lookup("alice").unwrap();
    assert_eq!(r.external_handle, "x1");
    assert_eq!(r.score, 42);
}

#[test]
fn new_registration_starts_at_zero() {
    let mut store = Store::new();
    store.upsert("alice", "x1");
    store.upsert("alice", "x1");
    assert_eq!(store.len(), 1);
    let r = store.lookup("alice").unwrap();
    assert_eq!(r.external_handle, "x1");
    assert_eq!(r.score, 0);
}

#[test]
fn last_write_wins_either_order() {
    let mut a = Store::from_records(vec![rec("alice", "x0", 9)]).unwrap();
    a.upsert("alice", "x1");
    a.upsert("alice", "x2");
    assert_eq!(a.len(), 1);
    assert_eq!(a.lookup("alice").unwrap().external_handle, "x2");
    assert_eq!(a.lookup("alice").unwrap().score, 9);

    let mut b = Store::from_records(vec![rec("alice", "x0", 9)]).unwrap();
    b.upsert("alice", "x2");
    b.upsert("alice", "x1");
    assert_eq!(b.len(), 1);
    assert_eq!(b.lookup("alice").unwrap().external_handle, "x1");
    assert_eq!(b.lookup("alice").unwrap().score, 9);
}

#[test]
fn upsert_leaves_other_rows() {
    let mut store = Store::from_records(vec![rec("bob", "b", 7), rec("carol", "c", 12)]).unwrap();
    store.upsert("dave", "d");
    assert_eq!(store.len(), 3);
    assert_eq!(store.lookup("bob").unwrap().external_handle, "b");
    assert_eq!(store.lookup("carol").unwrap().score, 12);
    assert_eq!(store.lookup("dave").unwrap().score, 0);
    assert!(store.lookup("erin").is_none());
}

#[test]
fn duplicate_handles_are_refused() {
    assert!(Store::from_records(vec![rec("a", "1", 1), rec("b", "2", 2), rec("a", "3", 3)]).is_none());
    assert!(Store::from_records(vec![]).is_some());
}

#[test]
fn top_n_ranks_and_caps() {
    let store = Store::from_records(vec![
        rec("a", "", 1),
        rec("b", "", 5),
        rec("c", "", 3),
        rec("d", "", 5),
    ])
    .unwrap();
    let all: Vec<(String, i32)> = store.top_n(None).into_iter().map(|p| (p.handle, p.score)).collect();
    assert_eq!(
        all,
        vec![("b".to_string(), 5), ("d".to_string(), 5), ("c".to_string(), 3), ("a".to_string(), 1)]
    );
    let two: Vec<String> = store.top_n(Some(2)).into_iter().map(|p| p.handle).collect();
    assert_eq!(two, vec!["b".to_string(), "d".to_string()]);
    assert_eq!(store.top_n(Some(10)).len(), 4);
    assert_eq!(store.top_n(Some(0)).len(), 0);
}
