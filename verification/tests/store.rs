use project_handoff::codec::{from_value, to_value};
use project_handoff::outbox::TerminalReceipt;
use project_handoff::store::{Database, HandoffBinding, StoreError};
use serde_json::Value;

fn binding(session: &str) -> HandoffBinding {
    HandoffBinding {
        session_id: session.into(),
        project_id: "agent:runner:project".into(),
        client_id: "runner".into(),
        project_path: "/fixture/project".into(),
        task_id: "task-a".into(),
        root_fingerprint: "a".repeat(64),
    }
}

fn parsed(text: &str) -> Value {
    serde_json::from_str(text).unwrap()
}

fn enqueue(db: &mut Database, session: &str, event: &Value, now: i64) -> Result<(), StoreError> {
    db.handoff_enqueue(session, &from_value(event.clone()), now)
}

fn pending(db: &Database, session: &str) -> Vec<Value> {
    db.handoff_pending(session)
        .unwrap()
        .iter()
        .map(|item| to_value(&item.event).unwrap())
        .collect()
}

/// The tables as they are found again after they were saved row by row.
fn reopen(db: Database) -> Database {
    Database {
        bindings: db.bindings.to_vec(),
        outbox: db.outbox,
        gaps: db.gaps,
        retirements: db.retirements,
    }
}

#[test]
fn handoff_outbox_survives_reopen_and_deduplicates_without_retargeting() {
    let mut db = Database::new();
    db.handoff_bind(&binding("s1")).unwrap();
    let event = parsed(
        "{\"event_id\":\"e1\",\"type\":\"tool_finished\",\"source\":\"webcodex\",\"status\":\"unknown\"}",
    );
    enqueue(&mut db, "s1", &event, 100).unwrap();
    enqueue(&mut db, "s1", &event, 101).unwrap();
    assert_eq!(pending(&db, "s1").len(), 1);
    let mut changed = event.clone();
    changed["status"] = "completed".into();
    assert!(enqueue(&mut db, "s1", &changed, 102).is_err());
    let mut target = binding("s1");
    target.task_id = "task-b".into();
    assert!(db.handoff_bind(&target).is_err());
    let mut db = reopen(db);
    assert_eq!(pending(&db, "s1")[0], event);
    assert_eq!(db.handoff_binding("s1").unwrap(), binding("s1"));
    db.handoff_ack("other-session", "e1");
    assert_eq!(pending(&db, "s1").len(), 1);
    db.handoff_ack("s1", "e1");
    assert!(pending(&db, "s1").is_empty());
}

#[test]
fn handoff_outbox_rejects_raw_content_and_unbound_sources() {
    let mut db = Database::new();
    let event = parsed("{\"event_id\":\"e1\",\"type\":\"tool_finished\"}");
    assert!(enqueue(&mut db, "missing", &event, 100).is_err());
    db.handoff_bind(&binding("s1")).unwrap();
    for field in [
        "command",
        "stdout",
        "stderr",
        "env",
        "transcript",
        "arguments",
    ] {
        let mut bad = event.clone();
        bad[field] = "private-content".into();
        assert!(enqueue(&mut db, "s1", &bad, 100).is_err());
    }
    let mut nested = event.clone();
    nested["status"] = parsed("{\"raw\":\"private-content\"}");
    assert!(enqueue(&mut db, "s1", &nested, 100).is_err());
    assert!(pending(&db, "s1").is_empty());
}

#[test]
fn handoff_fresh_session_can_reconcile_same_task_without_crossing_target_identity() {
    let mut db = Database::new();
    db.handoff_bind(&binding("old-session")).unwrap();
    enqueue(
        &mut db,
        "old-session",
        &parsed("{\"event_id\":\"pending-old\",\"type\":\"job_terminal\",\"job_id\":\"same-job\",\"status\":\"failed\"}"),
        100,
    )
    .unwrap();
    let receiver = binding("new-session");
    db.handoff_bind(&receiver).unwrap();
    let waiting = db.handoff_pending_for_task(&receiver).unwrap();
    assert_eq!(waiting.len(), 1);
    assert_eq!(waiting[0].session_id, "old-session");
    let mut other = receiver.clone();
    other.task_id = "different-task".into();
    assert!(db.handoff_pending_for_task(&other).unwrap().is_empty());
    other = receiver.clone();
    other.root_fingerprint = "b".repeat(64);
    assert!(db.handoff_pending_for_task(&other).unwrap().is_empty());
    other = receiver.clone();
    other.project_id = "agent:other:project".into();
    assert!(db.handoff_pending_for_task(&other).unwrap().is_empty());
}

#[test]
fn retirement_preserves_late_facts_and_immutable_identity_across_reopen() {
    let mut db = Database::new();
    let b = binding("old");
    db.handoff_bind(&b).unwrap();
    let e = parsed(
        "{\"event_id\":\"late\",\"type\":\"tool_finished\",\"source\":\"webcodex\",\"status\":\"unknown\"}",
    );
    enqueue(&mut db, "old", &e, 1).unwrap();
    assert!(db.handoff_retire(&b, false).is_err());
    db.handoff_ack("old", "late");
    db.handoff_retire(&b, false).unwrap();
    assert!(db.handoff_bind(&binding("new-same-task")).is_err());
    enqueue(&mut db, "old", &e, 2).unwrap();
    assert!(db.handoff_retire(&b, true).is_err());
    assert_eq!(pending(&db, "old").len(), 1);
    db.handoff_ack("old", "late");
    db.handoff_retire(&b, true).unwrap();
    let mut db = reopen(db);
    assert!(db.handoff_retirement_started(&b));
    assert_eq!(db.handoff_binding("old").unwrap(), b);
    let mut other = b.clone();
    other.task_id = "other".into();
    assert!(db.handoff_bind(&other).is_err());
    other.session_id = "fresh".into();
    db.handoff_bind(&other).unwrap();
    enqueue(&mut db, "old", &e, 3).unwrap();
    assert_eq!(pending(&db, "old")[0], e);
    assert_eq!(
        to_value(
            &db.handoff_source_status(
                &b.project_id,
                &b.project_path,
                Some(&b.task_id),
                Some(&b.root_fingerprint)
            )
            .unwrap()
            .to_json()
        )
        .unwrap()["status"],
        "pending"
    );
}

#[test]
fn retiring_bindings_releases_active_capacity_without_deleting_history() {
    let mut db = Database::new();
    for i in 0..1024 {
        db.handoff_bind(&binding(&format!("s{i}"))).unwrap();
    }
    let mut fresh = binding("fresh");
    fresh.task_id = "new-task".into();
    assert!(db.handoff_bind(&fresh).is_err());
    db.handoff_retire(&binding("s0"), false).unwrap();
    // Preparing never frees quota; only confirmed archival does.
    assert!(db.handoff_bind(&fresh).is_err());
    db.handoff_retire(&binding("s0"), true).unwrap();
    db.handoff_bind(&fresh).unwrap();
    assert_eq!(db.handoff_binding("s1023").unwrap(), binding("s1023"));
    assert!(db.handoff_bind(&binding("s0")).is_err());
}

#[test]
fn every_refusal_has_its_code() {
    let mut db = Database::new();
    let mut bad = binding("s1");
    bad.client_id = String::new();
    assert_eq!(db.handoff_bind(&bad).unwrap_err(), StoreError::InvalidBinding);
    bad.client_id = "x".repeat(4097);
    assert_eq!(db.handoff_bind(&bad).unwrap_err().as_str(), "invalid_handoff_binding");
    bad.client_id = "a\0b".to_string();
    assert_eq!(db.handoff_bind(&bad).unwrap_err(), StoreError::InvalidBinding);
    db.handoff_bind(&binding("s1")).unwrap();
    for (event, expected) in [
        ("[]", StoreError::InvalidEvent),
        ("{}", StoreError::MissingEventId),
        ("{\"event_id\":1}", StoreError::MissingEventId),
        ("{\"event_id\":\"\"}", StoreError::InvalidEventId),
        ("{\"event_id\":\"a b\"}", StoreError::InvalidEventId),
        ("{\"event_id\":\"e\",\"stdout\":\"x\"}", StoreError::FieldNotAllowed),
        ("{\"event_id\":\"e\",\"status\":{}}", StoreError::NestedEvent),
        ("{\"event_id\":\"e\",\"status\":[]}", StoreError::InvalidPaths),
        ("{\"event_id\":\"e\",\"paths\":[1]}", StoreError::InvalidPaths),
    ] {
        assert_eq!(enqueue(&mut db, "s1", &parsed(event), 1).unwrap_err(), expected, "{event}");
    }
    let long = format!("{{\"event_id\":\"e\",\"status\":\"{}\"}}", "x".repeat(16384));
    assert_eq!(enqueue(&mut db, "s1", &parsed(&long), 1).unwrap_err(), StoreError::EventTooLarge);
    let event = parsed("{\"event_id\":\"e\"}");
    assert_eq!(enqueue(&mut db, "s2", &event, 1).unwrap_err(), StoreError::NotBound);
    enqueue(&mut db, "s1", &event, 1).unwrap();
    assert_eq!(enqueue(&mut db, "s2", &event, 1).unwrap_err(), StoreError::EventIdConflict);
    assert_eq!(
        db.handoff_retire(&binding("s1"), false).unwrap_err(),
        StoreError::RetirementUnresolved
    );
    db.handoff_ack("s1", "e");
    assert_eq!(
        db.handoff_retire(&binding("s1"), true).unwrap_err(),
        StoreError::RetirementNotStarted
    );
    db.handoff_retire(&binding("s1"), false).unwrap();
    assert_eq!(db.handoff_bind(&binding("s1")).unwrap_err(), StoreError::TaskRetired);
    db.handoff_cancel_retirement(&binding("s1"));
    assert!(!db.handoff_retirement_started(&binding("s1")));
    db.handoff_bind(&binding("s1")).unwrap();
    db.outbox.push(project_handoff::store::OutboxRow {
        event_id: "broken".to_string(),
        session_id: "s1".to_string(),
        payload: "{".to_string(),
        created_at: 1,
    });
    assert_eq!(db.handoff_pending("s1").unwrap_err(), StoreError::MalformedPayload);
}

#[test]
fn events_are_delivered_by_time_and_id_in_batches() {
    let mut db = Database::new();
    db.handoff_bind(&binding("s1")).unwrap();
    for (id, at) in [("b", 5), ("c", 4), ("a", 5)] {
        enqueue(&mut db, "s1", &parsed(&format!("{{\"event_id\":\"{id}\"}}")), at).unwrap();
    }
    let ids: Vec<String> =
        db.handoff_pending("s1").unwrap().iter().map(|item| item.event_id.clone()).collect();
    assert_eq!(ids, ["c", "a", "b"]);
    for i in 0..40 {
        enqueue(&mut db, "s1", &parsed(&format!("{{\"event_id\":\"n{i}\"}}")), 9).unwrap();
    }
    assert_eq!(db.handoff_pending("s1").unwrap().len(), 32);
    assert_eq!(db.handoff_pending_count("agent:runner:project", "/fixture/project"), 43);
    assert_eq!(db.handoff_pending_count("agent:runner:project", "/other"), 0);
}

fn receipt(job: &str) -> TerminalReceipt {
    TerminalReceipt {
        client_id: "runner".to_string(),
        session_id: Some("s1".to_string()),
        project_id: Some("agent:runner:project".to_string()),
        project_cwd: Some(".".to_string()),
        job_id: job.to_string(),
        update_seq: 3,
        status: "failed".to_string(),
        exit_code: Some(-7),
        observed_at: 42,
    }
}

#[test]
fn terminal_receipts_are_captured_once_and_only_at_the_root() {
    let mut db = Database::new();
    db.handoff_bind(&binding("s1")).unwrap();
    db.capture_terminal(&receipt("abc")).unwrap();
    db.capture_terminal(&receipt("abc")).unwrap();
    let saved = pending(&db, "s1");
    assert_eq!(saved.len(), 1);
    assert_eq!(
        saved[0],
        parsed("{\"event_id\":\"job-terminal-ba7816bf8f01cfea414140de5dae2223b00361a396177a9cb410ff61f20015ad\",\"type\":\"job_terminal\",\"source\":\"webcodex\",\"job_id\":\"abc\",\"job_update_seq\":3,\"status\":\"failed\",\"observed_at\":42,\"exit_code\":-7}")
    );
    let mut elsewhere = receipt("def");
    elsewhere.project_cwd = Some("sub".to_string());
    db.capture_terminal(&elsewhere).unwrap();
    elsewhere.project_cwd = Some("/fixture/project".to_string());
    elsewhere.client_id = "other".to_string();
    db.capture_terminal(&elsewhere).unwrap();
    elsewhere.client_id = "runner".to_string();
    elsewhere.session_id = None;
    db.capture_terminal(&elsewhere).unwrap();
    assert_eq!(pending(&db, "s1").len(), 1);
    elsewhere.session_id = Some("s1".to_string());
    db.capture_terminal(&elsewhere).unwrap();
    assert_eq!(pending(&db, "s1").len(), 2);
}

#[test]
fn full_outbox_leaves_a_gap_that_stays() {
    let mut db = Database::new();
    db.handoff_bind(&binding("s1")).unwrap();
    let status = |db: &Database| {
        db.handoff_source_status("agent:runner:project", "/fixture/project", None, None)
            .unwrap()
            .status()
    };
    assert_eq!(status(&db), "caught_up");
    for i in 0..4096 {
        db.outbox.push(project_handoff::store::OutboxRow {
            event_id: format!("e{i}"),
            session_id: "s1".to_string(),
            payload: "{}".to_string(),
            created_at: 1,
        });
    }
    assert_eq!(status(&db), "pending");
    db.capture_terminal(&receipt("abc")).unwrap();
    assert_eq!(status(&db), "incomplete");
    assert_eq!(
        enqueue(&mut db, "s1", &parsed("{\"event_id\":\"more\"}"), 1).unwrap_err(),
        StoreError::OutboxFull
    );
    db.outbox.clear();
    db.handoff_capture_gap("unbound");
    db.handoff_capture_gap("s1");
    assert_eq!(db.gaps.len(), 1);
    assert_eq!(status(&db), "incomplete");
    assert_eq!(
        db.handoff_source_status("agent:runner:project", "/elsewhere", None, None).unwrap().status(),
        "unbound"
    );
}

#[test]
fn frozen_task_is_reported_as_retiring() {
    let mut db = Database::new();
    db.handoff_bind(&binding("s1")).unwrap();
    db.handoff_retire(&binding("s1"), false).unwrap();
    let status = db
        .handoff_source_status("agent:runner:project", "/fixture/project", Some("task-a"), None)
        .unwrap();
    assert_eq!(status.retiring, 1);
    assert_eq!(status.status(), "retiring");
}
