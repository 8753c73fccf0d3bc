use weir::provider::Provider;
use weir::telemetry::{EventLog, UsageEvent, UsageOutcome};

fn sample_event(tenant: &str) -> UsageEvent {
    UsageEvent {
        id: 0, // overwritten by push()
        tenant: tenant.to_string(),
        provider: Provider::OpenAi,
        model: Some("gpt-4o-mini".to_string()),
        tools_called: vec![],
        tokens: 10,
        outcome: UsageOutcome::Completed,
        rule: None,
        timestamp_ms: 0,
    }
}

#[test]
fn push_assigns_monotonic_ids() {
    let mut log = EventLog::new(10);
    log.push(sample_event("acct_1"));
    log.push(sample_event("acct_2"));

    let events = log.since(0, 10);
    assert_eq!(events.len(), 2);
    assert_eq!(events[0].id, 1);
    assert_eq!(events[1].id, 2);
}

#[test]
fn since_filters_and_limits() {
    let mut log = EventLog::new(10);
    for i in 0..5 {
        log.push(sample_event(&format!("acct_{i}")));
    }
    let events = log.since(2, 10);
    assert_eq!(events.len(), 3); // ids 3, 4, 5
    assert_eq!(events[0].id, 3);

    let limited = log.since(0, 2);
    assert_eq!(limited.len(), 2);
    assert_eq!(limited[0].id, 1);
    assert_eq!(limited[1].id, 2);
}

#[test]
fn evicts_oldest_when_over_capacity() {
    let mut log = EventLog::new(3);
    for i in 0..5 {
        log.push(sample_event(&format!("acct_{i}")));
    }
    // Only the last 3 pushed (ids 3, 4, 5) should remain.
    let events = log.since(0, 10);
    assert_eq!(events.len(), 3);
    assert_eq!(events.iter().map(|e| e.id).collect::<Vec<_>>(), vec![3, 4, 5]);
}

#[test]
fn paging_on_from_the_last_event_misses_and_repeats_nothing() {
    let mut log = EventLog::new(10);
    for i in 0..7 {
        log.push(sample_event(&format!("acct_{i}")));
    }
    let first = log.since(2, 2);
    let second = log.since(first[1].id, 3);
    let ids: Vec<u64> = first.iter().chain(second.iter()).map(|e| e.id).collect();
    assert_eq!(ids, vec![3, 4, 5, 6, 7]);
    assert_eq!(log.since(7, 10).len(), 0);
    assert_eq!(log.since(0, 0).len(), 0);
}

#[test]
fn a_log_without_capacity_keeps_one_event() {
    let mut log = EventLog::new(0);
    log.push(sample_event("acct_1"));
    log.push(sample_event("acct_2"));
    let events = log.since(0, 10);
    assert_eq!(events.len(), 1);
    assert_eq!(events[0].id, 2);
    assert_eq!(events[0].tenant, "acct_2");
    assert!(log.can_push());
}

#[test]
fn outcomes_have_their_names() {
    assert_eq!(UsageOutcome::Completed.as_str(), "completed");
    assert_eq!(UsageOutcome::BudgetBlocked.as_str(), "budget_blocked");
    assert_eq!(UsageOutcome::PolicyBlocked.as_str(), "policy_blocked");
    assert_eq!(UsageOutcome::UpstreamError.as_str(), "upstream_error");
    assert_eq!(UsageOutcome::Incomplete.as_str(), "incomplete");
}
