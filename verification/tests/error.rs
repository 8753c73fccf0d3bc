use weir::error::WeirError;

#[test]
fn budget_exceeded_maps_to_429() {
    let response = WeirError::BudgetExceeded("acct_1".into()).into_response();
    assert_eq!(response.status, 429);
}

#[test]
fn unknown_tenant_maps_to_401() {
    let response = WeirError::UnknownTenant.into_response();
    assert_eq!(response.status, 401);
}

#[test]
fn every_error_has_its_answer() {
    let response = WeirError::BudgetExceeded("acct_1".into()).into_response();
    assert_eq!(response.error, "budget_exceeded");
    assert_eq!(response.message, "tenant 'acct_1' has exceeded its token budget");

    let response = WeirError::UnknownTenant.into_response();
    assert_eq!(response.error, "unknown_tenant");
    assert_eq!(response.message, "unknown tenant or missing X-Weir-Tenant header");

    let response = WeirError::Upstream("connection refused".into()).into_response();
    assert_eq!(response.status, 502);
    assert_eq!(response.error, "upstream_error");
    assert_eq!(response.message, "upstream provider request failed: connection refused");

    let response = WeirError::Config("no tenants".into()).into_response();
    assert_eq!(response.status, 500);
    assert_eq!(response.error, "config_error");
    assert_eq!(response.message, "invalid configuration: no tenants");

    let response = WeirError::PolicyViolation {
        tenant: "acct_1".into(),
        reason: "blocked_tool:send_email".into(),
    }
    .into_response();
    assert_eq!(response.status, 403);
    assert_eq!(response.error, "policy_violation");
    assert!(response.message.contains("blocked_tool:send_email"));
}
