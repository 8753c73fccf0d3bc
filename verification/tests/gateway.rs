use std::sync::Arc;

use serde_json::Value;

use weir::budget::BudgetRegistry;
use weir::config::{BudgetLimit, ParsedConfig, PolicyConfig};
use weir::error::WeirError;
use weir::gateway::{
    behind_prefix, consider, deliver, events_page, is_hop_by_hop, is_streaming, request_headers,
    response_headers, settle_response, should_forward_request_header, upstream_failed, Admitted,
    Header, Upstreams, TENANT_HEADER,
};
use weir::provider::{
    Adapter, AnthropicEvent, AnthropicMessage, ChunkCost, NonStreamingCost, OpenAiChoice, OpenAiPayload,
    PayloadDecoder, Provider, ProviderAdapter, Tokenizer,
};
use weir::telemetry::{EventLog, UsageOutcome};

const NOW: i64 = 1_752_000_000_000;

fn registry(tenant: &str, max_tokens: u64, policy: PolicyConfig) -> BudgetRegistry {
    let mut config = ParsedConfig::new();
    config.set_limit(tenant.to_string(), BudgetLimit { max_tokens, window_ms: 60_000 });
    config.set_policy(tenant.to_string(), policy);
    BudgetRegistry::new(config)
}

fn open_registry(max_tokens: u64) -> BudgetRegistry {
    registry("acct_1", max_tokens, PolicyConfig::default())
}

fn tenant() -> Option<String> {
    Some("acct_1".to_string())
}

fn admitted(blocked_tools: Vec<String>) -> Admitted {
    Admitted {
        tenant: "acct_1".to_string(),
        provider: Provider::OpenAi,
        model: Some("gpt-4o-mini".to_string()),
        blocked_tools,
    }
}

fn header(name: &str, value: &str) -> Header {
    Header { name: name.to_string(), value: value.as_bytes().to_vec() }
}

fn pairs(headers: &[Header]) -> Vec<(String, String)> {
    headers
        .iter()
        .map(|h| (h.name.clone(), String::from_utf8(h.value.clone()).unwrap()))
        .collect()
}

#[test]
fn missing_tenant_header_is_rejected() {
    let mut budget = open_registry(1000);
    let mut log = EventLog::new(10);
    let rejection =
        consider(None, Provider::OpenAi, None, &mut budget, &mut log, NOW).unwrap_err();
    assert!(!rejection.close_connection);
    assert_eq!(rejection.error.into_response().status, 401);
    let events = log.since(0, 10);
    assert_eq!(events.len(), 1, "every request leaves one event");
    assert_eq!(events[0].tenant, "");
    assert_eq!(events[0].outcome, UsageOutcome::UpstreamError);
}

#[test]
fn tenant_already_over_budget_gets_429_at_admission() {
    let mut budget = open_registry(0); // zero budget: always over
    let mut log = EventLog::new(10);
    let rejection =
        consider(tenant(), Provider::OpenAi, None, &mut budget, &mut log, NOW).unwrap_err();
    assert!(rejection.close_connection);
    assert_eq!(rejection.error.into_response().status, 429);
    let events = log.since(0, 10);
    assert_eq!(events.len(), 1);
    assert_eq!(events[0].outcome, UsageOutcome::BudgetBlocked);
    assert_eq!(events[0].tokens, 0);
}

#[test]
fn an_unknown_tenant_is_rejected_and_logged() {
    let mut budget = open_registry(1000);
    let mut log = EventLog::new(10);
    let rejection = consider(
        Some("acct_2".to_string()),
        Provider::OpenAi,
        None,
        &mut budget,
        &mut log,
        NOW,
    )
    .unwrap_err();
    assert!(rejection.close_connection);
    assert!(matches!(rejection.error, WeirError::UnknownTenant));
    let events = log.since(0, 10);
    assert_eq!(events.len(), 1);
    assert_eq!(events[0].tenant, "acct_2");
    assert_eq!(events[0].outcome, UsageOutcome::UpstreamError);
    assert_eq!(events[0].rule, None);
}

#[test]
fn a_tenant_without_a_policy_is_unknown() {
    let mut config = ParsedConfig::new();
    config.set_limit("acct_1".to_string(), BudgetLimit { max_tokens: 10, window_ms: 60_000 });
    let mut budget = BudgetRegistry::new(config);
    let mut log = EventLog::new(10);
    let rejection =
        consider(tenant(), Provider::OpenAi, None, &mut budget, &mut log, NOW).unwrap_err();
    assert!(rejection.close_connection);
    assert!(matches!(rejection.error, WeirError::UnknownTenant));
    assert_eq!(log.since(0, 10).len(), 1);
}

#[test]
fn blocked_model_is_rejected_before_any_upstream_call() {
    let policy = PolicyConfig {
        blocked_models: vec!["gpt-3.5-turbo".to_string()],
        blocked_tools: Vec::new(),
    };
    let mut budget = registry("acct_1", 1000, policy);
    let mut log = EventLog::new(10);
    let rejection = consider(
        tenant(),
        Provider::OpenAi,
        Some("gpt-3.5-turbo".to_string()),
        &mut budget,
        &mut log,
        NOW,
    )
    .unwrap_err();
    assert!(rejection.close_connection);
    let response = rejection.error.into_response();
    assert_eq!(response.status, 403);
    assert!(response.message.contains("blocked_model:gpt-3.5-turbo"));
    let events = log.since(0, 10);
    assert_eq!(events.len(), 1);
    assert_eq!(events[0].outcome, UsageOutcome::PolicyBlocked);
    assert_eq!(events[0].rule.as_deref(), Some("blocked_model:gpt-3.5-turbo"));
    assert_eq!(events[0].model.as_deref(), Some("gpt-3.5-turbo"));
    assert_eq!(events[0].timestamp_ms, NOW);
}

#[test]
fn an_admitted_request_carries_its_policy_and_is_not_logged_yet() {
    let policy = PolicyConfig {
        blocked_models: vec!["gpt-3.5-turbo".to_string()],
        blocked_tools: vec!["send_email".to_string()],
    };
    let mut budget = registry("acct_1", 1000, policy);
    let mut log = EventLog::new(10);
    let admitted = consider(
        tenant(),
        Provider::Anthropic,
        Some("gpt-4o-mini".to_string()),
        &mut budget,
        &mut log,
        NOW,
    )
    .unwrap();
    assert_eq!(admitted.tenant, "acct_1");
    assert_eq!(admitted.provider, Provider::Anthropic);
    assert_eq!(admitted.model.as_deref(), Some("gpt-4o-mini"));
    assert_eq!(admitted.blocked_tools, vec!["send_email"]);
    assert!(log.since(0, 10).is_empty());
}

/// Reads complete OpenAI responses field by field.
struct BodyDecoder;

impl PayloadDecoder for BodyDecoder {
    fn openai_payload(&self, _payload: &str) -> Option<OpenAiPayload> {
        None
    }

    fn openai_body(&self, body: &[u8]) -> Option<OpenAiPayload> {
        let value: Value = serde_json::from_slice(body).ok()?;
        let text = |v: &Value| v.as_str().map(|s| s.to_string());
        let items = |v: &Value| v.as_array().cloned().unwrap_or_default();
        let choices = items(&value["choices"])
            .iter()
            .map(|choice| OpenAiChoice {
                content: text(&choice["message"]["content"]),
                tool_names: items(&choice["message"]["tool_calls"])
                    .iter()
                    .map(|call| text(&call["function"]["name"]))
                    .collect(),
            })
            .collect();
        Some(OpenAiPayload { choices, total_tokens: value["usage"]["total_tokens"].as_u64() })
    }

    fn anthropic_event(&self, _payload: &str) -> Option<AnthropicEvent> {
        None
    }

    fn anthropic_body(&self, _body: &[u8]) -> Option<AnthropicMessage> {
        None
    }
}

fn adapter() -> Adapter<BodyDecoder> {
    Tokenizer::new_adapter(Arc::new(Tokenizer::load()), Provider::OpenAi, BodyDecoder)
}

#[test]
fn non_streaming_response_usage_is_recorded_against_budget() {
    let body: &[u8] = b"{\"choices\":[{\"message\":{\"content\":\"Hi\"}}],\"usage\":{\"prompt_tokens\":5,\"completion_tokens\":2,\"total_tokens\":7}}";
    // Exactly at the ceiling is allowed; the next request is then refused.
    let mut budget = open_registry(7);
    let mut log = EventLog::new(10);
    let first = consider(tenant(), Provider::OpenAi, None, &mut budget, &mut log, NOW).unwrap();
    assert!(
        deliver(first, &adapter(), body, &mut budget, &mut log, NOW).is_ok(),
        "first non-streaming response should be forwarded and its usage recorded"
    );
    let second =
        consider(tenant(), Provider::OpenAi, None, &mut budget, &mut log, NOW).unwrap_err();
    assert_eq!(second.error.into_response().status, 429);
    let events = log.since(0, 10);
    let outcomes: Vec<UsageOutcome> = events.iter().map(|e| e.outcome).collect();
    assert_eq!(outcomes, vec![UsageOutcome::Completed, UsageOutcome::BudgetBlocked]);
    assert_eq!(events[0].tokens, 7);
}

#[test]
fn non_streaming_response_over_budget_is_rejected() {
    let body: &[u8] = b"{\"choices\":[{\"message\":{\"content\":\"Hi\"}}],\"usage\":{\"prompt_tokens\":50,\"completion_tokens\":50,\"total_tokens\":100}}";
    let mut budget = open_registry(10); // ceiling far below the 100-token response
    let mut log = EventLog::new(10);
    let request = consider(tenant(), Provider::OpenAi, None, &mut budget, &mut log, NOW).unwrap();
    let rejection =
        deliver(request, &adapter(), body, &mut budget, &mut log, NOW).unwrap_err();
    assert!(rejection.close_connection);
    assert_eq!(rejection.error.into_response().status, 429);
    let events = log.since(0, 10);
    assert_eq!(events.len(), 1);
    assert_eq!(events[0].outcome, UsageOutcome::BudgetBlocked);
    assert_eq!(events[0].tokens, 100);
    assert_eq!(events[0].rule, None);
}

#[test]
fn non_streaming_blocked_tool_is_rejected_not_forwarded() {
    let body: &[u8] = b"{\"choices\":[{\"message\":{\"content\":\"CONFIDENTIAL_UPSTREAM_TEXT\",\"tool_calls\":[{\"id\":\"call_1\",\"type\":\"function\",\"function\":{\"name\":\"send_email\",\"arguments\":\"{\\\"secret\\\":\\\"ARGUMENT_SECRET\\\"}\"}}]}}],\"usage\":{\"prompt_tokens\":5,\"completion_tokens\":2,\"total_tokens\":7}}";
    let policy = PolicyConfig {
        blocked_models: Vec::new(),
        blocked_tools: vec!["send_email".to_string()],
    };
    let mut budget = registry("acct_1", 1000, policy);
    let mut log = EventLog::new(10);
    let request = consider(tenant(), Provider::OpenAi, None, &mut budget, &mut log, NOW).unwrap();
    let rejection =
        deliver(request, &adapter(), body, &mut budget, &mut log, NOW).unwrap_err();
    assert!(rejection.close_connection);
    let response = rejection.error.into_response();
    assert_eq!(response.status, 403);
    let answer = format!("{response:?}");
    assert!(
        answer.contains("send_email"),
        "the blocked tool name is intentionally revealed to the client in the error reason"
    );
    assert!(
        !answer.contains("CONFIDENTIAL_UPSTREAM_TEXT"),
        "the upstream response content must never be forwarded to the client on a policy reject"
    );
    assert!(
        !answer.contains("ARGUMENT_SECRET"),
        "tool call arguments must never be forwarded to the client"
    );
    let events = log.since(0, 10);
    assert_eq!(events.len(), 1);
    let logged = format!("{events:?}");
    assert!(logged.contains("send_email"));
    assert!(!logged.contains("CONFIDENTIAL_UPSTREAM_TEXT"));
    assert!(!logged.contains("ARGUMENT_SECRET"));
}

#[test]
fn a_blocked_response_is_logged_with_all_its_tools_and_costs_nothing() {
    let mut budget = open_registry(1000);
    let mut log = EventLog::new(10);
    let cost = NonStreamingCost {
        total_tokens: Some(7),
        tool_calls: vec!["search".to_string(), "send_email".to_string()],
    };
    let request = admitted(vec!["send_email".to_string()]);
    let rejection = settle_response(request, cost, &mut budget, &mut log, NOW).unwrap_err();
    let response = rejection.error.into_response();
    assert_eq!(response.status, 403);
    assert!(response.message.contains("send_email"));
    let events = log.since(0, 10);
    assert_eq!(events.len(), 1);
    assert_eq!(events[0].outcome, UsageOutcome::PolicyBlocked);
    assert_eq!(events[0].rule.as_deref(), Some("blocked_tool:send_email"));
    assert_eq!(events[0].tools_called, vec!["search", "send_email"]);
    assert_eq!(events[0].tokens, 7);
    assert!(budget.record("acct_1", 1000, NOW).unwrap(), "a blocked response costs nothing");
}

#[test]
fn a_response_that_does_not_state_its_cost_is_delivered() {
    let mut budget = open_registry(1);
    let mut log = EventLog::new(10);
    let cost = NonStreamingCost { total_tokens: None, tool_calls: vec!["search".to_string()] };
    assert!(settle_response(admitted(Vec::new()), cost, &mut budget, &mut log, NOW).is_ok());
    let events = log.since(0, 10);
    assert_eq!(events[0].outcome, UsageOutcome::Completed);
    assert_eq!(events[0].tokens, 0);
    assert_eq!(events[0].tools_called, vec!["search"]);
}

#[test]
fn a_response_of_a_tenant_no_longer_configured_is_rejected() {
    let mut budget = registry("acct_2", 10, PolicyConfig::default());
    let mut log = EventLog::new(10);
    let cost = NonStreamingCost { total_tokens: Some(1), tool_calls: Vec::new() };
    let rejection =
        settle_response(admitted(Vec::new()), cost, &mut budget, &mut log, NOW).unwrap_err();
    assert!(matches!(rejection.error, WeirError::UnknownTenant));
    assert_eq!(log.since(0, 10)[0].outcome, UsageOutcome::UpstreamError);
}

struct BodyLength;

impl ProviderAdapter for BodyLength {
    fn chunk_cost(&mut self, _raw: &[u8]) -> ChunkCost {
        ChunkCost { estimated_tokens: 0, authoritative_total: None, tool_calls: Vec::new() }
    }

    fn non_streaming_cost(&self, body: &[u8]) -> NonStreamingCost {
        NonStreamingCost { total_tokens: Some(body.len() as u64), tool_calls: Vec::new() }
    }
}

#[test]
fn a_body_is_priced_by_the_adapter() {
    let mut budget = open_registry(5);
    let mut log = EventLog::new(10);
    let first = deliver(admitted(Vec::new()), &BodyLength, b"abcd", &mut budget, &mut log, NOW);
    assert!(first.is_ok());
    let second = deliver(admitted(Vec::new()), &BodyLength, b"ef", &mut budget, &mut log, NOW);
    assert!(second.is_err());
    let tokens: Vec<u64> = log.since(0, 10).iter().map(|e| e.tokens).collect();
    assert_eq!(tokens, vec![4, 2]);
}

#[test]
fn an_unreachable_upstream_is_a_502_and_logged() {
    let mut log = EventLog::new(10);
    let rejection =
        upstream_failed(admitted(Vec::new()), "connection refused".to_string(), &mut log, NOW);
    assert!(rejection.close_connection);
    assert_eq!(rejection.error.into_response().status, 502);
    let events = log.since(0, 10);
    assert_eq!(events.len(), 1);
    assert_eq!(events[0].outcome, UsageOutcome::UpstreamError);
    assert_eq!(events[0].model.as_deref(), Some("gpt-4o-mini"));
}

#[test]
fn successful_proxy_strips_tenant_header_forwards_auth_and_sets_connection_close() {
    let forwarded = request_headers(vec![
        header(TENANT_HEADER, "acct_1"),
        header("authorization", "Bearer real-secret"),
        header("host", "weir.internal.example"),
        header("accept-encoding", "gzip"),
        header("content-length", "2"),
        header("x-a", "1"),
        header("x-a", "2"),
    ]);
    assert_eq!(
        pairs(&forwarded),
        vec![
            ("authorization".to_string(), "Bearer real-secret".to_string()),
            ("x-a".to_string(), "1".to_string()),
            ("x-a".to_string(), "2".to_string()),
        ]
    );
    let response = response_headers(vec![
        header("content-type", "text/event-stream"),
        header("transfer-encoding", "chunked"),
        header("connection", "keep-alive"),
        header("host", "kept"),
    ]);
    assert_eq!(
        pairs(&response),
        vec![
            ("content-type".to_string(), "text/event-stream".to_string()),
            ("host".to_string(), "kept".to_string()),
            ("connection".to_string(), "close".to_string()),
        ]
    );
}

#[test]
fn hop_by_hop_headers_are_known() {
    for name in [
        "connection",
        "keep-alive",
        "proxy-authenticate",
        "proxy-authorization",
        "te",
        "trailers",
        "transfer-encoding",
        "upgrade",
        "content-length",
    ] {
        assert!(is_hop_by_hop(name));
        assert!(!should_forward_request_header(name));
    }
    for name in ["x-weir-tenant", "host", "accept-encoding"] {
        assert!(!is_hop_by_hop(name));
        assert!(!should_forward_request_header(name));
    }
    for name in ["authorization", "x-api-key", "content-type", "t", "te2"] {
        assert!(!is_hop_by_hop(name));
        assert!(should_forward_request_header(name));
    }
}

#[test]
fn urls_go_to_the_provider() {
    let upstreams = Upstreams {
        openai_base: "https://api.openai.com".to_string(),
        anthropic_base: "https://api.anthropic.com".to_string(),
    };
    assert_eq!(
        upstreams.url(Provider::OpenAi, "v1/chat/completions"),
        "https://api.openai.com/v1/chat/completions"
    );
    assert_eq!(
        upstreams.url(Provider::Anthropic, "v1/messages"),
        "https://api.anthropic.com/v1/messages"
    );
    assert_eq!(
        upstreams.url(Provider::OpenAi, "v1/models?limit=2"),
        "https://api.openai.com/v1/models?limit=2"
    );
}

#[test]
fn targets_lose_the_prefix_and_nothing_else() {
    assert_eq!(behind_prefix("/openai/v1/chat/completions"), "v1/chat/completions");
    assert_eq!(behind_prefix("/anthropic/v1/a%2Fb?limit=2&x=/y"), "v1/a%2Fb?limit=2&x=/y");
    assert_eq!(behind_prefix("/openai/"), "");
    assert_eq!(behind_prefix("/openai"), "");
    assert_eq!(behind_prefix(""), "");
}

#[test]
fn streamed_responses_are_told_by_their_content_type() {
    assert!(is_streaming(Some("text/event-stream")));
    assert!(is_streaming(Some("text/event-stream; charset=utf-8")));
    assert!(!is_streaming(Some("application/json")));
    assert!(!is_streaming(Some("text/event")));
    assert!(!is_streaming(None));
}

#[test]
fn events_endpoint_returns_pushed_events() {
    let mut log = EventLog::new(2000);
    for i in 0..1200 {
        upstream_failed(admitted(Vec::new()), "down".to_string(), &mut log, i);
    }
    let generation = "17".to_string();
    let page = events_page(&log, &generation, None, None);
    assert_eq!(page.generation, "17");
    assert_eq!(page.events.len(), 100);
    assert_eq!(page.events[0].id, 1);
    assert_eq!(page.events[0].tenant, "acct_1");
    assert_eq!(events_page(&log, &generation, None, Some(5000)).events.len(), 1000);
    let rest = events_page(&log, &generation, Some(1195), Some(7));
    assert_eq!(rest.events.len(), 5);
    assert_eq!(rest.events[0].id, 1196);
}
