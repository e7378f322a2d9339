use cardlock::AuthDecision;
use cardlock::AuthError;
use cardlock::User;
use cardlock::UserManager;
use cardlock::decision_for_lookup;

fn user(sid: &str, name: &str, card: i64) -> User {
    User::new(sid.to_string(), name.to_string(), card)
}

#[test]
fn add_then_query_matches() {
    let mut m = UserManager::new();
    let t0 = chrono::Utc::now().timestamp();
    let u = user("S001", "Alice", 1001);
    let t1 = chrono::Utc::now().timestamp();
    assert!(m.add(u).is_ok());

    let by_card = m.query_by_card(1001).expect("registered card must be found");
    assert_eq!(by_card.student_id, "S001");
    assert_eq!(by_card.name, "Alice");
    assert_eq!(by_card.card, 1001);
    let created = by_card.created_at.expect("created_at is set at creation");
    assert!(t0 <= created && created <= t1);

    let by_sid = m.query_by_student_id("S001").expect("registered id must be found");
    assert_eq!(by_sid.student_id, "S001");
    assert_eq!(by_sid.name, "Alice");
    assert_eq!(by_sid.card, 1001);
    assert_eq!(by_sid.created_at, Some(created));
}

#[test]
fn add_duplicate_card_fails_and_changes_nothing() {
    let mut m = UserManager::new();
    assert!(m.add(user("S001", "Alice", 1001)).is_ok());
    let r = m.add(user("S002", "Bob", 1001));
    assert_eq!(r, Err(AuthError::DuplicateKey));
    assert!(m.query_by_student_id("S002").is_none());
    let kept = m.query_by_card(1001).expect("first user is still registered");
    assert_eq!(kept.student_id, "S001");
}

#[test]
fn add_duplicate_student_id_fails_and_changes_nothing() {
    let mut m = UserManager::new();
    assert!(m.add(user("S001", "Alice", 1001)).is_ok());
    let r = m.add(user("S001", "Carol", 2002));
    assert_eq!(r, Err(AuthError::DuplicateKey));
    assert!(m.query_by_card(2002).is_none());
    let kept = m.query_by_student_id("S001").expect("first user is still registered");
    assert_eq!(kept.name, "Alice");
    assert_eq!(kept.card, 1001);
}

#[test]
fn remove_missing_is_noop() {
    let mut m = UserManager::new();
    assert!(m.add(user("S001", "Alice", 1001)).is_ok());
    m.remove("S999");
    let kept = m.query_by_student_id("S001").expect("unrelated user is untouched");
    assert_eq!(kept.card, 1001);
    assert!(m.query_by_card(1001).is_some());
}

#[test]
fn remove_then_both_queries_absent() {
    let mut m = UserManager::new();
    assert!(m.add(user("S001", "Alice", 1001)).is_ok());
    assert!(m.add(user("S002", "Bob", 1002)).is_ok());
    m.remove("S001");
    assert!(m.query_by_student_id("S001").is_none());
    assert!(m.query_by_card(1001).is_none());
    assert!(m.query_by_student_id("S002").is_some());
    assert!(m.query_by_card(1002).is_some());
}

#[test]
fn rejected_scan_appends_nothing() {
    let mut m = UserManager::new();
    assert!(m.add(user("S001", "Alice", 1001)).is_ok());
    assert_eq!(m.authorize(1001, 10), AuthDecision::Accepted);
    assert_eq!(user("S001", "Alice", 1001).fetch_log(&m).len(), 1);

    assert_eq!(m.authorize(9999, 11), AuthDecision::RejectedUnknownCard);
    assert_eq!(user("S001", "Alice", 1001).fetch_log(&m).len(), 1);
}

#[test]
fn n_accepted_scans_yield_n_entries() {
    let mut m = UserManager::new();
    assert!(m.add(user("S001", "Alice", 1001)).is_ok());
    for k in 0..3 {
        assert_eq!(m.authorize(1001, 100 + k), AuthDecision::Accepted);
    }
    let history = user("S001", "Alice", 1001).fetch_log(&m);
    assert_eq!(history.len(), 3);
    for (k, entry) in history.iter().enumerate() {
        assert_eq!(entry.name, "Alice");
        assert_eq!(entry.ts, 100 + k as i64);
    }
}

#[test]
fn append_then_fetch_round_trip() {
    let mut m = UserManager::new();
    assert!(m.add(user("S001", "Alice", 1001)).is_ok());
    let alice = m.query_by_student_id("S001").unwrap();
    assert!(alice.append_log(&mut m, 4242).is_ok());
    let history = alice.fetch_log(&m);
    assert!(history.iter().any(|e| e.ts == 4242 && e.name == "Alice"));
}

#[test]
fn append_resolves_card_through_registry() {
    let mut m = UserManager::new();
    assert!(m.add(user("S001", "Alice", 1001)).is_ok());
    // A stale User value carrying the wrong card: the row is still written
    // for the card registered under the student id.
    let stale = user("S001", "Alice", 9999);
    assert!(stale.append_log(&mut m, 7).is_ok());
    let history = user("S001", "Alice", 1001).fetch_log(&m);
    assert_eq!(history.len(), 1);
    assert_eq!(history[0].ts, 7);
}

#[test]
fn append_for_unknown_user_fails_not_found() {
    let mut m = UserManager::new();
    let ghost_user = user("S404", "Nobody", 4040);
    assert_eq!(ghost_user.append_log(&mut m, 1), Err(AuthError::NotFound));
    assert_eq!(ghost_user.fetch_log(&m).len(), 0);
}

#[test]
fn distinct_cards_each_scan_once() {
    let mut m = UserManager::new();
    let cards: Vec<i64> = vec![2001, 2002, 2003, 2004, 2005];
    for (k, card) in cards.iter().enumerate() {
        let sid = format!("S{:03}", k + 1);
        assert!(m.add(user(&sid, "Member", *card)).is_ok());
    }
    for (k, card) in cards.iter().enumerate() {
        assert_eq!(m.authorize(*card, k as i64), AuthDecision::Accepted);
    }
    let mut total = 0;
    for (k, card) in cards.iter().enumerate() {
        let sid = format!("S{:03}", k + 1);
        let history = user(&sid, "Member", *card).fetch_log(&m);
        assert_eq!(history.len(), 1);
        assert_eq!(history[0].ts, k as i64);
        total += history.len();
    }
    assert_eq!(total, cards.len());
}

#[test]
fn end_to_end_example() {
    let mut m = UserManager::new();
    assert!(m.add(user("S001", "Alice", 1001)).is_ok());

    assert_eq!(m.authorize(1001, 1), AuthDecision::Accepted);
    assert_eq!(user("S001", "Alice", 1001).fetch_log(&m).len(), 1);

    assert_eq!(m.authorize(9999, 2), AuthDecision::RejectedUnknownCard);
    assert_eq!(user("S001", "Alice", 1001).fetch_log(&m).len(), 1);

    m.remove("S001");
    assert_eq!(m.authorize(1001, 3), AuthDecision::RejectedUnknownCard);
    assert_eq!(user("S001", "Alice", 1001).fetch_log(&m).len(), 0);
}

#[test]
fn history_keeps_insertion_order() {
    let mut m = UserManager::new();
    assert!(m.add(user("S001", "Alice", 1001)).is_ok());
    let alice = m.query_by_student_id("S001").unwrap();
    for ts in [5, 1, 9] {
        assert!(alice.append_log(&mut m, ts).is_ok());
    }
    let history = alice.fetch_log(&m);
    let stamps: Vec<i64> = history.iter().map(|e| e.ts).collect();
    assert_eq!(stamps, vec![5, 1, 9]);
}

#[test]
fn removed_user_rows_are_orphaned_not_deleted() {
    let mut m = UserManager::new();
    assert!(m.add(user("S001", "Alice", 1001)).is_ok());
    assert_eq!(m.authorize(1001, 1), AuthDecision::Accepted);
    m.remove("S001");

    // Re-registering the same student id with a new card does not resurrect
    // the old rows: they still reference the former card.
    assert!(m.add(user("S001", "Alice", 1002)).is_ok());
    assert_eq!(user("S001", "Alice", 1002).fetch_log(&m).len(), 0);

    assert_eq!(m.authorize(1002, 2), AuthDecision::Accepted);
    let history = user("S001", "Alice", 1002).fetch_log(&m);
    assert_eq!(history.len(), 1);
    assert_eq!(history[0].ts, 2);
}

#[test]
fn lookup_decision_is_fail_closed() {
    let found = Ok(Some(user("S001", "Alice", 1001)));
    assert_eq!(decision_for_lookup(&found), AuthDecision::Accepted);

    let absent: Result<Option<User>, AuthError> = Ok(None);
    assert_eq!(decision_for_lookup(&absent), AuthDecision::RejectedUnknownCard);

    let outage: Result<Option<User>, AuthError> = Err(AuthError::StorageUnavailable);
    assert_eq!(decision_for_lookup(&outage), AuthDecision::RejectedStorage);
}
