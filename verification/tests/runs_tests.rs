use argus::model::AgentRunState;
use argus::runs::{RunRegistry, MAX_RUNS};
use argus::service::new_run_record;

fn record(n: u64) -> argus::model::AgentRunStatus {
    new_run_record(format!("run-{n}"), "gdelt".to_string(), n as i64)
}

#[test]
fn registry_never_exceeds_the_cap() {
    let mut reg = RunRegistry::new();
    for n in 0..150 {
        reg.push_run(record(n));
        assert!(reg.len() <= MAX_RUNS);
    }
    assert_eq!(reg.len(), MAX_RUNS);
}

#[test]
fn eviction_drops_the_oldest_first() {
    let mut reg = RunRegistry::new();
    for n in 0..130 {
        reg.push_run(record(n));
    }
    let snapshot = reg.snapshot();
    assert_eq!(snapshot.len(), MAX_RUNS);
    // Newest first.
    assert_eq!(snapshot[0].run_id, "run-129");
    // The oldest retained run is number 30; earlier ones were evicted.
    assert_eq!(snapshot[MAX_RUNS - 1].run_id, "run-30");
}

#[test]
fn updated_runs_keep_their_place_and_finish() {
    let mut reg = RunRegistry::new();
    reg.push_run(record(1));
    reg.push_run(record(2));

    reg.update_run(
        "run-1",
        AgentRunState::Completed,
        99,
        7,
        3,
        None,
    );

    let snapshot = reg.snapshot();
    assert_eq!(snapshot.len(), 2);
    let updated = snapshot.iter().find(|r| r.run_id == "run-1").unwrap();
    assert_eq!(updated.status, AgentRunState::Completed);
    assert_eq!(updated.finished_at, Some(99));
    assert_eq!(updated.documents_collected, 7);
    assert_eq!(updated.entities_extracted, 3);
    assert!(updated.error.is_none());

    let untouched = snapshot.iter().find(|r| r.run_id == "run-2").unwrap();
    assert_eq!(untouched.status, AgentRunState::Running);
}

#[test]
fn failed_runs_carry_their_message() {
    let mut reg = RunRegistry::new();
    reg.push_run(record(1));
    reg.update_run(
        "run-1",
        AgentRunState::Failed,
        50,
        0,
        0,
        Some("collection failed".to_string()),
    );
    let snapshot = reg.snapshot();
    assert_eq!(snapshot[0].status, AgentRunState::Failed);
    assert_eq!(snapshot[0].error.as_deref(), Some("collection failed"));
}
