use std::collections::VecDeque;
use std::sync::Arc;

use weir::budget::BudgetRegistry;
use weir::config::{BudgetLimit, ParsedConfig};
use weir::enforcer::{enforce, policy_violation_event, EnforcedStream, SseFrameBuffer, Step};
use weir::error::WeirError;
use weir::provider::{
    AnthropicEvent, AnthropicMessage, ChunkCost, NonStreamingCost, OpenAiAdapter, OpenAiChoice,
    OpenAiPayload, PayloadDecoder, Provider, ProviderAdapter, Tokenizer,
};
use weir::telemetry::{EventLog, UsageOutcome};

fn no_cost() -> NonStreamingCost {
    NonStreamingCost { total_tokens: None, tool_calls: Vec::new() }
}

struct FixedCostAdapter {
    cost_per_chunk: u64,
}

impl ProviderAdapter for FixedCostAdapter {
    fn chunk_cost(&mut self, _raw: &[u8]) -> ChunkCost {
        ChunkCost {
            estimated_tokens: self.cost_per_chunk,
            authoritative_total: None,
            tool_calls: Vec::new(),
        }
    }

    fn non_streaming_cost(&self, _body: &[u8]) -> NonStreamingCost {
        no_cost()
    }
}

struct AuthoritativeCostAdapter {
    totals: VecDeque<u64>,
}

impl ProviderAdapter for AuthoritativeCostAdapter {
    fn chunk_cost(&mut self, _raw: &[u8]) -> ChunkCost {
        let total = self.totals.pop_front().unwrap_or(0);
        ChunkCost { estimated_tokens: 0, authoritative_total: Some(total), tool_calls: Vec::new() }
    }

    fn non_streaming_cost(&self, _body: &[u8]) -> NonStreamingCost {
        no_cost()
    }
}

struct ToolCallAdapter {
    tools: Vec<Vec<String>>,
}

impl ProviderAdapter for ToolCallAdapter {
    fn chunk_cost(&mut self, _raw: &[u8]) -> ChunkCost {
        ChunkCost {
            estimated_tokens: 1,
            authoritative_total: None,
            tool_calls: self.tools.remove(0),
        }
    }

    fn non_streaming_cost(&self, _body: &[u8]) -> NonStreamingCost {
        no_cost()
    }
}

/// Reads the content of the first choice, so far as these tests need it.
struct ContentDecoder;

impl PayloadDecoder for ContentDecoder {
    fn openai_payload(&self, payload: &str) -> Option<OpenAiPayload> {
        let value: serde_json::Value = serde_json::from_str(payload).ok()?;
        let content = value["choices"][0]["delta"]["content"].as_str().map(|s| s.to_string());
        Some(OpenAiPayload {
            choices: vec![OpenAiChoice { content, tool_names: Vec::new() }],
            total_tokens: None,
        })
    }

    fn openai_body(&self, _body: &[u8]) -> Option<OpenAiPayload> {
        None
    }

    fn anthropic_event(&self, _payload: &str) -> Option<AnthropicEvent> {
        None
    }

    fn anthropic_body(&self, _body: &[u8]) -> Option<AnthropicMessage> {
        None
    }
}

fn budget_with(tenant: &str, max_tokens: u64) -> BudgetRegistry {
    let mut config = ParsedConfig::new();
    config.set_limit(tenant.to_string(), BudgetLimit { max_tokens, window_ms: 60_000 });
    BudgetRegistry::new(config)
}

fn open<A: ProviderAdapter>(adapter: A, blocked_tools: Vec<String>) -> EnforcedStream<A> {
    enforce(
        "acct_1".to_string(),
        Provider::OpenAi,
        Some("gpt-4o-mini".to_string()),
        adapter,
        blocked_tools,
    )
}

/// Runs a stream to its end over what the upstream provider sends.
fn collect<A: ProviderAdapter>(
    stream: &mut EnforcedStream<A>,
    upstream: Vec<Result<&[u8], &str>>,
    budget: &mut BudgetRegistry,
    log: &mut EventLog,
) -> Vec<Result<Vec<u8>, WeirError>> {
    let mut upstream = VecDeque::from(upstream);
    let mut out = Vec::new();
    loop {
        match stream.step(budget, log, 0) {
            Step::Forward(bytes) => out.push(Ok(bytes)),
            Step::Trip(bytes) => out.push(Ok(bytes)),
            Step::Fail(e) => out.push(Err(e)),
            Step::AwaitUpstream => match upstream.pop_front() {
                Some(Ok(raw)) => stream.receive(raw),
                Some(Err(cause)) => out.push(Err(stream.upstream_failed(cause.to_string()))),
                None => stream.upstream_ended(),
            },
            Step::Finished => return out,
        }
    }
}

#[test]
fn forwards_chunks_within_budget() {
    let mut budget = budget_with("acct_1", 1000);
    let mut log = EventLog::new(100);
    let mut stream = open(FixedCostAdapter { cost_per_chunk: 10 }, Vec::new());
    let out = collect(
        &mut stream,
        vec![Ok(b"chunk1\n\n"), Ok(b"chunk2\n\n")],
        &mut budget,
        &mut log,
    );
    assert_eq!(out.len(), 2);
    assert!(out.iter().all(|r| r.is_ok()));
}

#[test]
fn trips_before_forwarding_over_budget_chunk() {
    let mut budget = budget_with("acct_1", 15);
    let mut log = EventLog::new(100);
    let mut stream = open(FixedCostAdapter { cost_per_chunk: 10 }, Vec::new());
    let out = collect(
        &mut stream,
        vec![
            Ok(b"chunk1\n\n"),
            Ok(b"chunk2\n\n"), // pushes total to 20, over the 15 ceiling
            Ok(b"chunk3\n\n"), // must never be forwarded
        ],
        &mut budget,
        &mut log,
    );
    assert_eq!(out.len(), 2, "chunk1 forwarded, then trip event — chunk3 never reached");
    assert_eq!(out[0].as_ref().unwrap(), b"chunk1\n\n");
    let trip_event = out[1].as_ref().unwrap();
    assert!(String::from_utf8_lossy(trip_event).contains("budget_exceeded"));
    assert_eq!(trip_event, b"event: error\ndata: {\"error\":\"budget_exceeded\"}\n\n");
    let events = log.since(0, 10);
    assert_eq!(events.len(), 1);
    assert_eq!(events[0].outcome, UsageOutcome::BudgetBlocked);
    assert_eq!(events[0].tokens, 20);
    assert_eq!(events[0].rule, None);
}

#[test]
fn authoritative_total_reconciles_via_delta_not_double_count() {
    let mut budget = budget_with("acct_1", 100);
    let mut log = EventLog::new(100);
    let adapter = AuthoritativeCostAdapter { totals: VecDeque::from(vec![30, 70, 70]) };
    let mut stream = open(adapter, Vec::new());
    let out = collect(
        &mut stream,
        vec![Ok(b"chunk1\n\n"), Ok(b"chunk2\n\n"), Ok(b"chunk3\n\n")],
        &mut budget,
        &mut log,
    );
    // Totals recorded in full each time would make 30 + 70 + 70 = 170, over
    // the ceiling of 100.
    assert_eq!(out.len(), 3);
    assert!(out.iter().all(|r| r.is_ok()));
    assert_eq!(out[2].as_ref().unwrap(), b"chunk3\n\n");
    assert!(budget.record("acct_1", 30, 0).unwrap());
    assert!(!budget.record("acct_1", 1, 0).unwrap());
}

#[test]
fn reassembles_sse_event_split_across_multiple_raw_chunks() {
    let mut budget = budget_with("acct_1", 1000);
    let mut log = EventLog::new(100);
    let adapter = OpenAiAdapter::new(Arc::new(Tokenizer::load()), ContentDecoder);
    let mut stream = open(adapter, Vec::new());
    let out = collect(
        &mut stream,
        vec![Ok(b"data: {\"choices\":[{\"delta\":{\"content\":\"Hel"), Ok(b"lo\"}}]}\n\n")],
        &mut budget,
        &mut log,
    );
    assert_eq!(out.len(), 1, "the two raw chunks reassemble into exactly one complete event");
    assert_eq!(
        out[0].as_ref().unwrap(),
        b"data: {\"choices\":[{\"delta\":{\"content\":\"Hello\"}}]}\n\n",
        "the reassembled event must contain the full, unsplit content"
    );
    assert_eq!(log.since(0, 10)[0].tokens, 1);
}

#[test]
fn multiple_events_in_one_raw_chunk_are_processed_independently() {
    let mut budget = budget_with("acct_1", 1000);
    let mut log = EventLog::new(100);
    let mut stream = open(FixedCostAdapter { cost_per_chunk: 10 }, Vec::new());
    let out = collect(
        &mut stream,
        vec![Ok(
            b"data: {\"choices\":[{\"delta\":{\"content\":\"a\"}}]}\n\ndata: {\"choices\":[{\"delta\":{\"content\":\"b\"}}]}\n\n",
        )],
        &mut budget,
        &mut log,
    );
    assert_eq!(
        out.len(),
        2,
        "one raw chunk containing two SSE events must yield two forwarded events"
    );
}

#[test]
fn trips_on_blocked_tool_and_never_forwards_it() {
    // Plenty of budget: this must trip on policy, not on the budget.
    let mut budget = budget_with("acct_1", 1000);
    let mut log = EventLog::new(100);
    let adapter = ToolCallAdapter { tools: vec![vec!["send_email".to_string()]] };
    let mut stream = open(adapter, vec!["send_email".to_string()]);
    let out = collect(&mut stream, vec![Ok(b"chunk1\n\n")], &mut budget, &mut log);

    assert_eq!(out.len(), 1);
    let event = out[0].as_ref().unwrap();
    assert!(String::from_utf8_lossy(event).contains("policy_violation"));

    let events = log.since(0, 10);
    assert_eq!(events.len(), 1);
    assert_eq!(events[0].outcome, UsageOutcome::PolicyBlocked);
    assert_eq!(events[0].rule.as_deref(), Some("blocked_tool:send_email"));
    assert_eq!(events[0].tools_called, vec!["send_email".to_string()]);
    assert_eq!(events[0].tokens, 0);
    assert!(budget.record("acct_1", 1000, 0).unwrap(), "a blocked event costs nothing");
}

#[test]
fn successful_stream_emits_one_unblocked_usage_event() {
    let mut budget = budget_with("acct_1", 1000);
    let mut log = EventLog::new(100);
    let mut stream = open(FixedCostAdapter { cost_per_chunk: 10 }, Vec::new());
    collect(
        &mut stream,
        vec![Ok(b"chunk1\n\n"), Ok(b"chunk2\n\n")],
        &mut budget,
        &mut log,
    );
    let events = log.since(0, 10);
    assert_eq!(events.len(), 1, "exactly one UsageEvent per completed stream, not one per chunk");
    assert_eq!(events[0].outcome, UsageOutcome::Completed);
    assert_eq!(events[0].tokens, 20);
    assert_eq!(events[0].model.as_deref(), Some("gpt-4o-mini"));
}

#[test]
fn dropping_stream_early_emits_incomplete_event() {
    let mut budget = budget_with("acct_1", 1000);
    let mut log = EventLog::new(100);
    let mut stream = open(FixedCostAdapter { cost_per_chunk: 1 }, Vec::new());
    stream.receive(b"chunk1\n\n");
    assert!(matches!(stream.step(&mut budget, &mut log, 0), Step::Forward(_)));
    stream.receive(b"chunk2\n\n");
    stream.close(&mut log, 7);
    let events = log.since(0, 10);
    assert_eq!(events.len(), 1, "an early-dropped stream must still emit exactly one event");
    assert_eq!(events[0].outcome, UsageOutcome::Incomplete);
    assert_eq!(events[0].tokens, 1, "tokens already forwarded before the drop are recorded");
    assert_eq!(events[0].timestamp_ms, 7);
    assert!(matches!(stream.step(&mut budget, &mut log, 0), Step::Finished));
}

#[test]
fn closing_a_finished_stream_logs_nothing_more() {
    let mut budget = budget_with("acct_1", 1000);
    let mut log = EventLog::new(100);
    let mut stream = open(FixedCostAdapter { cost_per_chunk: 1 }, Vec::new());
    collect(&mut stream, vec![Ok(b"chunk1\n\n")], &mut budget, &mut log);
    stream.close(&mut log, 0);
    stream.close(&mut log, 0);
    assert_eq!(log.since(0, 10).len(), 1);
}

#[test]
fn a_stream_dropped_right_after_the_trip_is_incomplete() {
    let mut budget = budget_with("acct_1", 5);
    let mut log = EventLog::new(100);
    let mut stream = open(FixedCostAdapter { cost_per_chunk: 10 }, Vec::new());
    stream.receive(b"chunk1\n\n");
    assert!(matches!(stream.step(&mut budget, &mut log, 0), Step::Trip(_)));
    stream.close(&mut log, 0);
    let events = log.since(0, 10);
    assert_eq!(events.len(), 1);
    assert_eq!(events[0].outcome, UsageOutcome::Incomplete);
}

#[test]
fn an_upstream_failure_is_reported_and_logged() {
    let mut budget = budget_with("acct_1", 1000);
    let mut log = EventLog::new(100);
    let mut stream = open(FixedCostAdapter { cost_per_chunk: 3 }, Vec::new());
    let out = collect(
        &mut stream,
        vec![Ok(b"chunk1\n\npart"), Err("connection reset"), Ok(b"ial\n\n")],
        &mut budget,
        &mut log,
    );
    assert_eq!(out.len(), 2);
    assert_eq!(out[0].as_ref().unwrap(), b"chunk1\n\n");
    assert!(matches!(&out[1], Err(WeirError::Upstream(cause)) if cause == "connection reset"));
    let events = log.since(0, 10);
    assert_eq!(events.len(), 1);
    assert_eq!(events[0].outcome, UsageOutcome::UpstreamError);
    assert_eq!(events[0].tokens, 3);
}

#[test]
fn a_tenant_that_is_no_longer_configured_ends_the_stream() {
    let mut budget = budget_with("acct_2", 1000);
    let mut log = EventLog::new(100);
    let mut stream = open(FixedCostAdapter { cost_per_chunk: 3 }, Vec::new());
    let out = collect(&mut stream, vec![Ok(b"chunk1\n\n")], &mut budget, &mut log);
    assert_eq!(out.len(), 1);
    assert!(matches!(&out[0], Err(WeirError::UnknownTenant)));
    assert_eq!(log.since(0, 10)[0].outcome, UsageOutcome::UpstreamError);
}

#[test]
fn what_is_left_at_the_end_is_forwarded_too() {
    let mut budget = budget_with("acct_1", 1000);
    let mut log = EventLog::new(100);
    let mut stream = open(FixedCostAdapter { cost_per_chunk: 3 }, Vec::new());
    let out = collect(&mut stream, vec![Ok(b"chunk1\n\nrest")], &mut budget, &mut log);
    assert_eq!(out.len(), 2);
    assert_eq!(out[1].as_ref().unwrap(), b"rest");
    assert_eq!(log.since(0, 10)[0].tokens, 6);
    stream.receive(b"late\n\n");
    assert!(!stream.has_event());
}

#[test]
fn events_behind_a_trip_are_not_even_priced() {
    let mut budget = budget_with("acct_1", 1000);
    let mut log = EventLog::new(100);
    // One price only: asking for another would panic.
    let adapter = ToolCallAdapter { tools: vec![vec!["send_email".to_string()]] };
    let mut stream = open(adapter, vec!["send_email".to_string()]);
    let out = collect(
        &mut stream,
        vec![Ok(b"chunk1\n\nchunk2\n\n"), Ok(b"chunk3\n\n")],
        &mut budget,
        &mut log,
    );
    assert_eq!(out.len(), 1);
}

#[test]
fn an_event_can_be_priced_before_the_step() {
    let mut budget = budget_with("acct_1", 100);
    let mut log = EventLog::new(100);
    let adapter = AuthoritativeCostAdapter { totals: VecDeque::from(vec![30, 70]) };
    let mut stream = open(adapter, Vec::new());
    let cost = stream.price();
    assert_eq!(cost.authoritative_total, None, "no event, no price");
    stream.receive(b"a\n\nb\n\n");
    for total in [30, 70] {
        let cost = stream.price();
        assert_eq!(cost.authoritative_total, Some(total));
        assert!(matches!(
            stream.step_with(cost, &mut budget, &mut log, 0),
            Step::Forward(_)
        ));
    }
}

#[test]
fn tools_are_named_once_and_up_to_the_blocked_one() {
    let mut budget = budget_with("acct_1", 1000);
    let mut log = EventLog::new(100);
    let adapter = ToolCallAdapter {
        tools: vec![
            vec!["search".to_string(), "search".to_string()],
            vec!["read".to_string(), "send_email".to_string(), "write".to_string()],
        ],
    };
    let mut stream = open(adapter, vec!["send_email".to_string(), "write".to_string()]);
    let out = collect(
        &mut stream,
        vec![Ok(b"chunk1\n\nchunk2\n\nchunk3\n\n")],
        &mut budget,
        &mut log,
    );
    assert_eq!(out.len(), 2);
    assert_eq!(out[1].as_ref().unwrap(), &policy_violation_event("send_email"));
    let events = log.since(0, 10);
    assert_eq!(events[0].tools_called, vec!["search", "read", "send_email"]);
    assert_eq!(events[0].rule.as_deref(), Some("blocked_tool:send_email"));
    assert_eq!(events[0].tokens, 1);
}

#[test]
fn a_total_below_what_was_estimated_gives_nothing_back() {
    let mut budget = budget_with("acct_1", 100);
    let mut log = EventLog::new(100);
    let adapter = AuthoritativeCostAdapter { totals: VecDeque::from(vec![60, 20, 30]) };
    let mut stream = open(adapter, Vec::new());
    collect(&mut stream, vec![Ok(b"a\n\nb\n\nc\n\n")], &mut budget, &mut log);
    assert_eq!(log.since(0, 10)[0].tokens, 30);
    // 60, nothing, and 10 on top of the 20.
    assert!(budget.record("acct_1", 30, 0).unwrap());
    assert!(!budget.record("acct_1", 1, 0).unwrap());
}

#[test]
fn the_policy_event_names_the_tool_and_nothing_else() {
    assert_eq!(
        policy_violation_event("send_email"),
        b"event: error\ndata: {\"error\":\"policy_violation\",\"tool\":\"send_email\"}\n\n"
    );
}

#[test]
fn splits_multiple_complete_events_in_one_push() {
    let mut buf = SseFrameBuffer::new();
    let events = buf.push(b"event1\n\nevent2\n\n");
    assert_eq!(events, vec![b"event1\n\n".to_vec(), b"event2\n\n".to_vec()]);
}

#[test]
fn retains_partial_event_across_pushes() {
    let mut buf = SseFrameBuffer::new();
    assert_eq!(buf.push(b"partial data witho"), Vec::<Vec<u8>>::new());
    let events = buf.push(b"ut a boundary yet\n\n");
    assert_eq!(events, vec![b"partial data without a boundary yet\n\n".to_vec()]);
}

#[test]
fn flush_returns_trailing_partial_data() {
    let mut buf = SseFrameBuffer::new();
    buf.push(b"no trailing separator");
    assert_eq!(buf.flush(), Some(b"no trailing separator".to_vec()));
    assert_eq!(buf.flush(), None, "flush drains the buffer; a second call has nothing left");
}

#[test]
fn events_do_not_depend_on_how_the_bytes_were_split() {
    let whole: &[u8] = b"a\n\n\n\nbc\n\r\n\nd\n";
    let mut at_once = SseFrameBuffer::new();
    let expected = at_once.push(whole);
    assert_eq!(expected, vec![b"a\n\n".to_vec(), b"\n\n".to_vec(), b"bc\n\r\n\n".to_vec()]);
    let mut piecewise = SseFrameBuffer::new();
    let mut events = Vec::new();
    for byte in whole {
        events.extend(piecewise.push(&[*byte]));
    }
    assert_eq!(events, expected);
    assert_eq!(at_once.flush(), Some(b"d\n".to_vec()));
    assert_eq!(piecewise.flush(), Some(b"d\n".to_vec()));
}
