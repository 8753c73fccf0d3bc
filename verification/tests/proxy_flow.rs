use std::sync::Arc;

use serde_json::Value;

use weir::budget::BudgetRegistry;
use weir::config::{ParsedConfig, PolicyConfig, TenantSettings};
use weir::enforcer::{enforce, Step};
use weir::gateway::{consider, events_page, is_streaming, response_headers, Header};
use weir::provider::{
    AnthropicEvent, AnthropicMessage, OpenAiChoice, OpenAiPayload, PayloadDecoder, Provider,
    Tokenizer,
};
use weir::telemetry::{EventLog, UsageOutcome};

const NOW: i64 = 1_752_000_000_000;

/// Reads what the streams of these tests hold.
struct StreamDecoder;

impl PayloadDecoder for StreamDecoder {
    fn openai_payload(&self, payload: &str) -> Option<OpenAiPayload> {
        let value: Value = serde_json::from_str(payload).ok()?;
        let delta = &value["choices"][0]["delta"];
        let text = |v: &Value| v.as_str().map(|s| s.to_string());
        let name = &delta["tool_calls"][0]["function"]["name"];
        Some(OpenAiPayload {
            choices: vec![OpenAiChoice {
                content: text(&delta["content"]),
                tool_names: vec![text(name)],
            }],
            total_tokens: value["usage"]["total_tokens"].as_u64(),
        })
    }

    fn openai_body(&self, _body: &[u8]) -> Option<OpenAiPayload> {
        None
    }

    fn anthropic_event(&self, _payload: &str) -> Option<AnthropicEvent> {
        None
    }

    fn anthropic_body(&self, _body: &[u8]) -> Option<AnthropicMessage> {
        None
    }
}

fn registry(max_tokens: u64, blocked_tools: Vec<String>) -> BudgetRegistry {
    BudgetRegistry::new(ParsedConfig::from_tenants(vec![TenantSettings {
        id: "acct_1".to_string(),
        max_tokens,
        window_seconds: 60,
        policy: Some(PolicyConfig { blocked_models: Vec::new(), blocked_tools }),
    }]))
}

/// Sends a request through, and gives back what the client gets.
fn proxy(sse_body: &str, budget: &mut BudgetRegistry, log: &mut EventLog) -> String {
    let admitted = consider(
        Some("acct_1".to_string()),
        Provider::OpenAi,
        None,
        budget,
        log,
        NOW,
    )
    .unwrap();
    assert!(is_streaming(Some("text/event-stream")));
    let adapter =
        Tokenizer::new_adapter(Arc::new(Tokenizer::load()), Provider::OpenAi, StreamDecoder);
    let mut stream = enforce(
        admitted.tenant,
        admitted.provider,
        admitted.model,
        adapter,
        admitted.blocked_tools,
    );
    let mut sent = false;
    let mut body = Vec::new();
    loop {
        match stream.step(budget, log, NOW) {
            Step::Forward(bytes) | Step::Trip(bytes) => body.extend(bytes),
            Step::Fail(e) => panic!("{}", e.message()),
            Step::AwaitUpstream if sent => stream.upstream_ended(),
            Step::AwaitUpstream => {
                stream.receive(sse_body.as_bytes());
                sent = true;
            }
            Step::Finished => return String::from_utf8(body).unwrap(),
        }
    }
}

#[test]
fn happy_path_forwards_full_stream_within_budget() {
    let sse_body = "data: {\"choices\":[{\"delta\":{\"content\":\"Hi\"}}]}\n\n\
data: {\"choices\":[{\"delta\":{}}],\"usage\":{\"prompt_tokens\":1,\"completion_tokens\":1,\"total_tokens\":2}}\n\n";
    let mut budget = registry(1000, Vec::new());
    let mut log = EventLog::new(1000);
    let body = proxy(sse_body, &mut budget, &mut log);
    assert!(body.contains("Hi"));
    assert!(!body.contains("budget_exceeded"));
    assert_eq!(body, sse_body);
}

#[test]
fn mid_stream_trip_never_forwards_over_budget_chunk() {
    // A ceiling of one token: the very first content chunk already trips.
    let sse_body = "data: {\"choices\":[{\"delta\":{\"content\":\"This is more than one token\"}}]}\n\n\
data: {\"choices\":[{\"delta\":{\"content\":\"should never be forwarded\"}}]}\n\n";
    let mut budget = registry(1, Vec::new());
    let mut log = EventLog::new(1000);
    let headers = response_headers(Vec::new());
    assert_eq!(headers[0].name, "connection");
    assert_eq!(headers[0].value, b"close");
    let body = proxy(sse_body, &mut budget, &mut log);
    assert!(body.contains("budget_exceeded"));
    assert!(!body.contains("This is more than one token"));
    assert!(!body.contains("should never be forwarded"));
}

#[test]
fn streaming_response_with_blocked_tool_trips_and_is_never_forwarded() {
    let sse_body = "data: {\"choices\":[{\"delta\":{\"tool_calls\":[{\"index\":0,\"function\":{\"name\":\"send_email\",\"arguments\":\"{}\"}}]}}]}\n\n\
data: {\"choices\":[{\"delta\":{\"content\":\"should never be forwarded\"}}]}\n\n";
    let mut budget = registry(1000, vec!["send_email".to_string()]);
    let mut log = EventLog::new(100);
    let body = proxy(sse_body, &mut budget, &mut log);
    assert!(body.contains("policy_violation"));
    assert!(!body.contains("should never be forwarded"));
}

#[test]
fn events_endpoint_reflects_a_completed_request() {
    let sse_body = "data: {\"choices\":[{\"delta\":{\"content\":\"Hi\"}}]}\n\n\
data: {\"choices\":[{\"delta\":{}}],\"usage\":{\"prompt_tokens\":1,\"completion_tokens\":1,\"total_tokens\":2}}\n\n";
    let mut budget = registry(1000, Vec::new());
    let mut log = EventLog::new(100);
    proxy(sse_body, &mut budget, &mut log);
    let page = events_page(&log, &"1".to_string(), None, None);
    assert_eq!(page.events.len(), 1);
    assert_eq!(page.events[0].tenant, "acct_1");
    assert_eq!(page.events[0].outcome, UsageOutcome::Completed);
    assert_eq!(page.events[0].tokens, 2);
}

#[test]
fn headers_of_a_response_keep_their_values() {
    let headers = response_headers(vec![Header {
        name: "content-type".to_string(),
        value: b"text/event-stream".to_vec(),
    }]);
    assert_eq!(headers.len(), 2);
    assert_eq!(headers[0].value, b"text/event-stream");
}
