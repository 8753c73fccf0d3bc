use weir::budget::BudgetRegistry;
use weir::config::{BudgetLimit, ParsedConfig, PolicyConfig, TenantSettings};
use weir::error::WeirError;

fn registry_with(tenant: &str, max_tokens: u64, window_secs: u64) -> BudgetRegistry {
    let mut config = ParsedConfig::new();
    config.set_limit(
        tenant.to_string(),
        BudgetLimit { max_tokens, window_ms: window_secs * 1000 },
    );
    BudgetRegistry::new(config)
}

#[test]
fn unknown_tenant_is_rejected() {
    let mut registry = registry_with("acct_1", 1000, 60);
    let result = registry.is_within_budget("acct_unknown", 0);
    assert!(matches!(result, Err(WeirError::UnknownTenant)));
}

#[test]
fn records_and_trips_at_ceiling() {
    let mut registry = registry_with("acct_1", 100, 60);
    assert!(registry.record("acct_1", 60, 0).unwrap());
    assert!(registry.record("acct_1", 30, 0).unwrap()); // 90, still within
    assert!(!registry.record("acct_1", 20, 0).unwrap()); // 110, over
}

#[test]
fn many_streams_never_exceed_the_ceiling() {
    let mut registry = registry_with("acct_1", 10_000, 60);
    let mut accepted = 0;
    for _ in 0..400 {
        if registry.record("acct_1", 50, 0).unwrap() {
            accepted += 1;
        }
    }
    assert_eq!(accepted, 200);
}

#[test]
fn recording_for_an_unknown_tenant_is_rejected() {
    let mut registry = registry_with("acct_1", 100, 60);
    assert!(matches!(registry.record("acct_2", 1, 0), Err(WeirError::UnknownTenant)));
    assert!(matches!(registry.policy_for("acct_1"), Err(WeirError::UnknownTenant)));
}

#[test]
fn tenants_do_not_share_a_budget() {
    let mut config = ParsedConfig::new();
    config.set_limit("a".to_string(), BudgetLimit { max_tokens: 10, window_ms: 1000 });
    config.set_limit("b".to_string(), BudgetLimit { max_tokens: 10, window_ms: 1000 });
    let mut registry = BudgetRegistry::new(config);
    assert!(!registry.record("a", 11, 0).unwrap());
    assert!(!registry.is_within_budget("a", 0).unwrap());
    assert!(registry.is_within_budget("b", 0).unwrap());
    assert!(registry.record("b", 10, 0).unwrap());
    assert!(!registry.is_within_budget("b", 0).unwrap());
}

#[test]
fn a_used_up_budget_opens_again_when_the_window_has_passed() {
    let mut registry = registry_with("acct_1", 10, 1);
    registry.record("acct_1", 10, 500).unwrap();
    assert!(!registry.is_within_budget("acct_1", 999).unwrap());
    assert!(!registry.is_within_budget("acct_1", 1000).unwrap());
    assert!(registry.is_within_budget("acct_1", 1500).unwrap());
}

#[test]
fn reloading_changes_the_ceiling_and_keeps_the_usage() {
    let mut registry = registry_with("acct_1", 10, 60);
    registry.record("acct_1", 10, 0).unwrap();
    assert!(!registry.is_within_budget("acct_1", 0).unwrap());

    let mut config = ParsedConfig::new();
    config.set_limit("acct_1".to_string(), BudgetLimit { max_tokens: 11, window_ms: 60_000 });
    assert!(registry.reload(Ok(config)).is_ok());
    assert!(registry.is_within_budget("acct_1", 0).unwrap());
    assert!(!registry.record("acct_1", 2, 0).unwrap());
}

#[test]
fn reloading_changes_the_window_at_once() {
    let mut registry = registry_with("acct_1", 100, 60);
    assert!(registry.record("acct_1", 100, 0).unwrap());
    let mut config = ParsedConfig::new();
    config.set_limit("acct_1".to_string(), BudgetLimit { max_tokens: 100, window_ms: 1000 });
    registry.reload(Ok(config)).unwrap();
    assert!(registry.is_within_budget("acct_1", 10_000).unwrap());
    assert!(registry.record("acct_1", 100, 10_000).unwrap());
    assert!(!registry.is_within_budget("acct_1", 10_999).unwrap());
    assert!(registry.is_within_budget("acct_1", 12_000).unwrap());
}

#[test]
fn reloading_another_window_keeps_what_lies_in_it() {
    let mut registry = registry_with("acct_1", 100, 60);
    assert!(registry.record("acct_1", 100, 0).unwrap());
    let mut config = ParsedConfig::new();
    config.set_limit("acct_1".to_string(), BudgetLimit { max_tokens: 100, window_ms: 30_000 });
    registry.reload(Ok(config)).unwrap();
    assert!(!registry.is_within_budget("acct_1", 0).unwrap());
    assert!(!registry.is_within_budget("acct_1", 29_999).unwrap());
    assert!(registry.is_within_budget("acct_1", 45_000).unwrap());
    assert!(registry.is_within_budget("acct_1", 60_000).unwrap());
}

#[test]
fn a_configuration_that_does_not_load_changes_nothing() {
    let mut registry = registry_with("acct_1", 10, 60);
    let outcome = registry.reload(Err(WeirError::Config("bad".to_string())));
    assert!(matches!(outcome, Err(WeirError::Config(cause)) if cause == "bad"));
    assert!(registry.is_within_budget("acct_1", 0).unwrap());
}

#[test]
fn tenant_tables_make_budgets_and_policies() {
    let config = ParsedConfig::from_tenants(vec![
        TenantSettings {
            id: "acct_123".to_string(),
            max_tokens: 50000,
            window_seconds: 60,
            policy: Some(PolicyConfig {
                blocked_models: vec!["gpt-3.5-turbo".to_string()],
                blocked_tools: vec!["send_email".to_string(), "execute_shell".to_string()],
            }),
        },
        TenantSettings {
            id: "acct_456".to_string(),
            max_tokens: 200000,
            window_seconds: u64::MAX,
            policy: None,
        },
    ]);
    let limit = config.limit("acct_123").unwrap();
    assert_eq!(limit.max_tokens, 50000);
    assert_eq!(limit.window_ms, 60_000);
    assert_eq!(config.limit("acct_456").unwrap().window_ms, u64::MAX);
    assert!(config.limit("acct_789").is_none());
    let policy = config.policy("acct_123").unwrap();
    assert_eq!(policy.blocked_models, vec!["gpt-3.5-turbo"]);
    assert_eq!(policy.blocked_tools, vec!["send_email", "execute_shell"]);
    let open = config.policy("acct_456").unwrap();
    assert!(open.blocked_models.is_empty() && open.blocked_tools.is_empty());
    assert!(config.policy("acct_789").is_none());

    let registry = BudgetRegistry::new(config);
    assert_eq!(registry.policy_for("acct_123").unwrap().blocked_tools.len(), 2);
}

#[test]
fn the_last_table_of_a_tenant_counts() {
    let table = |max_tokens| TenantSettings {
        id: "acct_1".to_string(),
        max_tokens,
        window_seconds: 1,
        policy: None,
    };
    let config = ParsedConfig::from_tenants(vec![table(1), table(2)]);
    assert_eq!(config.limit("acct_1").unwrap().max_tokens, 2);
}
