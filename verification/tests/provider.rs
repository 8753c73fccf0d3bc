use std::sync::Arc;

use serde_json::Value;

use weir::provider::{
    AnthropicAdapter, AnthropicEvent, AnthropicMessage, AnthropicUsage, OpenAiAdapter,
    OpenAiChoice, OpenAiPayload, PayloadDecoder, Provider, ProviderAdapter, Tokenizer,
};
use weir::provider::payload::{data_payloads, done_marker};

/// Reads providers' JSON field by field.
struct JsonDecoder;

fn text(value: &Value) -> Option<String> {
    value.as_str().map(|s| s.to_string())
}

fn items(value: &Value) -> Vec<Value> {
    value.as_array().cloned().unwrap_or_default()
}

fn openai(value: Value, part: &str) -> OpenAiPayload {
    let choices = items(&value["choices"])
        .iter()
        .map(|choice| OpenAiChoice {
            content: text(&choice[part]["content"]),
            tool_names: items(&choice[part]["tool_calls"])
                .iter()
                .map(|call| text(&call["function"]["name"]))
                .collect(),
        })
        .collect();
    OpenAiPayload { choices, total_tokens: value["usage"]["total_tokens"].as_u64() }
}

fn tool_name(block: &Value) -> Option<String> {
    if block["type"] == "tool_use" {
        text(&block["name"])
    } else {
        None
    }
}

impl PayloadDecoder for JsonDecoder {
    fn openai_payload(&self, payload: &str) -> Option<OpenAiPayload> {
        Some(openai(serde_json::from_str(payload).ok()?, "delta"))
    }

    fn openai_body(&self, body: &[u8]) -> Option<OpenAiPayload> {
        Some(openai(serde_json::from_slice(body).ok()?, "message"))
    }

    fn anthropic_event(&self, payload: &str) -> Option<AnthropicEvent> {
        let value: Value = serde_json::from_str(payload).ok()?;
        Some(match value["type"].as_str()? {
            "message_start" => AnthropicEvent::MessageStart {
                input_tokens: value["message"]["usage"]["input_tokens"].as_u64()?,
            },
            "content_block_start" => AnthropicEvent::ContentBlockStart {
                tool_name: tool_name(&value["content_block"]),
            },
            "content_block_delta" => AnthropicEvent::ContentBlockDelta {
                text: text(&value["delta"]["text"]),
            },
            "message_delta" => AnthropicEvent::MessageDelta {
                output_tokens: value["usage"]["output_tokens"].as_u64()?,
            },
            _ => AnthropicEvent::Other,
        })
    }

    fn anthropic_body(&self, body: &[u8]) -> Option<AnthropicMessage> {
        let value: Value = serde_json::from_slice(body).ok()?;
        let usage = match (
            value["usage"]["input_tokens"].as_u64(),
            value["usage"]["output_tokens"].as_u64(),
        ) {
            (Some(input_tokens), Some(output_tokens)) => {
                Some(AnthropicUsage { input_tokens, output_tokens })
            }
            _ => None,
        };
        let tool_names = items(&value["content"]).iter().map(tool_name).collect();
        Some(AnthropicMessage { tool_names, usage })
    }
}

fn openai_adapter() -> OpenAiAdapter<JsonDecoder> {
    OpenAiAdapter::new(Arc::new(Tokenizer::load()), JsonDecoder)
}

fn anthropic_adapter() -> AnthropicAdapter<JsonDecoder> {
    AnthropicAdapter::new(Arc::new(Tokenizer::load()), JsonDecoder)
}

#[test]
fn estimates_tokens_from_content_delta() {
    let mut adapter = openai_adapter();
    let cost =
        adapter.chunk_cost(b"data: {\"choices\":[{\"delta\":{\"content\":\"Hello\"}}]}\n\n");
    assert!(cost.estimated_tokens >= 1);
    assert_eq!(cost.estimated_tokens, 1);
    assert_eq!(cost.authoritative_total, None);
}

#[test]
fn extracts_authoritative_usage_from_final_chunk() {
    let mut adapter = openai_adapter();
    let cost = adapter.chunk_cost(
        b"data: {\"choices\":[{\"delta\":{}}],\"usage\":{\"prompt_tokens\":5,\"completion_tokens\":2,\"total_tokens\":7}}\n\n",
    );
    assert_eq!(cost.authoritative_total, Some(7));
}

#[test]
fn ignores_done_sentinel() {
    let mut adapter = openai_adapter();
    let cost = adapter.chunk_cost(b"data: [DONE]\n\n");
    assert_eq!(cost.estimated_tokens, 0);
    assert_eq!(cost.authoritative_total, None);
}

#[test]
fn skips_malformed_json_lines_without_panicking() {
    let mut adapter = openai_adapter();
    let cost = adapter.chunk_cost(b"data: {not valid json\n\n");
    assert_eq!(cost.estimated_tokens, 0);
    assert_eq!(cost.authoritative_total, None);
}

#[test]
fn handles_non_utf8_bytes_without_panicking() {
    let mut adapter = openai_adapter();
    let mut raw = b"data: {\"choices\":[{\"delta\":{\"content\":\"".to_vec();
    raw.extend_from_slice(&[0xFF, 0xFE]); // invalid UTF-8
    raw.extend_from_slice(b"\"}}]}\n\n");
    let cost = adapter.chunk_cost(&raw);
    // Two replacement characters take its place.
    let expected = Tokenizer::load().count("\u{FFFD}\u{FFFD}");
    assert!(expected > 0);
    assert_eq!(cost.estimated_tokens, expected);
}

#[test]
fn names_the_tools_that_a_stream_calls() {
    let mut adapter = openai_adapter();
    let cost = adapter.chunk_cost(
        b"data: {\"choices\":[{\"delta\":{\"tool_calls\":[{\"index\":0,\"function\":{\"name\":\"send_email\",\"arguments\":\"{}\"}},{\"index\":0,\"function\":{\"arguments\":\"x\"}}]}}]}\n\n",
    );
    assert_eq!(cost.tool_calls, vec!["send_email"]);
}

#[test]
fn reads_several_data_lines_of_one_event() {
    let mut adapter = openai_adapter();
    let cost = adapter.chunk_cost(
        b"event: x\r\ndata: {\"choices\":[{\"delta\":{\"content\":\"Hello\"}}],\"usage\":{\"total_tokens\":3}}\r\nid: 1\ndata: {\"choices\":[{\"delta\":{\"content\":\"Hello\"}}]}\n\n",
    );
    assert_eq!(cost.estimated_tokens, 2);
    assert_eq!(cost.authoritative_total, Some(3));
}

#[test]
fn a_complete_openai_response_states_its_cost() {
    let adapter = openai_adapter();
    let cost = adapter.non_streaming_cost(
        b"{\"choices\":[{\"message\":{\"content\":\"Hi\",\"tool_calls\":[{\"function\":{\"name\":\"send_email\"}}]}}],\"usage\":{\"prompt_tokens\":5,\"completion_tokens\":2,\"total_tokens\":7}}",
    );
    assert_eq!(cost.total_tokens, Some(7));
    assert_eq!(cost.tool_calls, vec!["send_email"]);
    let cost = adapter.non_streaming_cost(b"not json");
    assert_eq!(cost.total_tokens, None);
    assert!(cost.tool_calls.is_empty());
}

#[test]
fn message_start_sets_authoritative_baseline() {
    let mut adapter = anthropic_adapter();
    let cost = adapter.chunk_cost(
        b"event: message_start\ndata: {\"type\":\"message_start\",\"message\":{\"usage\":{\"input_tokens\":25,\"output_tokens\":1}}}\n\n",
    );
    assert_eq!(cost.authoritative_total, Some(25));
}

#[test]
fn content_block_delta_contributes_estimate() {
    let mut adapter = anthropic_adapter();
    let cost = adapter.chunk_cost(
        b"event: content_block_delta\ndata: {\"type\":\"content_block_delta\",\"delta\":{\"type\":\"text_delta\",\"text\":\"Hello\"}}\n\n",
    );
    assert_eq!(cost.estimated_tokens, 1);
    assert_eq!(cost.authoritative_total, None);
}

#[test]
fn message_delta_combines_input_baseline_with_output_tokens() {
    let mut adapter = anthropic_adapter();
    adapter.chunk_cost(
        b"event: message_start\ndata: {\"type\":\"message_start\",\"message\":{\"usage\":{\"input_tokens\":25,\"output_tokens\":1}}}\n\n",
    );
    let cost = adapter.chunk_cost(
        b"event: message_delta\ndata: {\"type\":\"message_delta\",\"delta\":{\"stop_reason\":\"end_turn\"},\"usage\":{\"output_tokens\":15}}\n\n",
    );
    assert_eq!(cost.authoritative_total, Some(40));
}

#[test]
fn the_adapter_of_either_provider_remembers_what_the_request_cost() {
    let tokenizer = Arc::new(Tokenizer::load());
    let mut adapter = Tokenizer::new_adapter(tokenizer, Provider::Anthropic, JsonDecoder);
    let cost = adapter.chunk_cost(
        b"event: message_start\ndata: {\"type\":\"message_start\",\"message\":{\"usage\":{\"input_tokens\":25,\"output_tokens\":1}}}\n\n",
    );
    assert_eq!(cost.authoritative_total, Some(25));
    let cost = adapter.chunk_cost(
        b"event: message_delta\ndata: {\"type\":\"message_delta\",\"delta\":{\"stop_reason\":\"end_turn\"},\"usage\":{\"output_tokens\":15}}\n\n",
    );
    assert_eq!(cost.authoritative_total, Some(40));
}

#[test]
fn names_the_tools_that_an_anthropic_stream_calls() {
    let mut adapter = anthropic_adapter();
    let cost = adapter.chunk_cost(
        b"event: content_block_start\ndata: {\"type\":\"content_block_start\",\"content_block\":{\"type\":\"tool_use\",\"name\":\"send_email\"}}\n\n",
    );
    assert_eq!(cost.tool_calls, vec!["send_email"]);
    let cost = adapter.chunk_cost(b"event: ping\ndata: {\"type\":\"ping\"}\n\n");
    assert_eq!(cost.estimated_tokens, 0);
    assert_eq!(cost.authoritative_total, None);
    assert!(cost.tool_calls.is_empty());
}

#[test]
fn a_complete_anthropic_response_states_its_cost() {
    let adapter = anthropic_adapter();
    let cost = adapter.non_streaming_cost(
        b"{\"content\":[{\"type\":\"text\",\"text\":\"Hi\"},{\"type\":\"tool_use\",\"name\":\"send_email\"}],\"usage\":{\"input_tokens\":25,\"output_tokens\":15}}",
    );
    assert_eq!(cost.total_tokens, Some(40));
    assert_eq!(cost.tool_calls, vec!["send_email"]);
    let cost = adapter.non_streaming_cost(b"");
    assert_eq!(cost.total_tokens, None);
}

#[test]
fn each_provider_has_its_adapter() {
    let tokenizer = Arc::new(Tokenizer::load());
    let body: &[u8] = b"{\"usage\":{\"input_tokens\":1,\"output_tokens\":2,\"total_tokens\":7}}";
    let openai = Tokenizer::new_adapter(tokenizer.clone(), Provider::OpenAi, JsonDecoder);
    assert_eq!(openai.non_streaming_cost(body).total_tokens, Some(7));
    let anthropic = Tokenizer::new_adapter(tokenizer, Provider::Anthropic, JsonDecoder);
    assert_eq!(anthropic.non_streaming_cost(body).total_tokens, Some(3));
}

#[test]
fn counts_tokens_with_the_real_vocabulary() {
    let tokenizer = Tokenizer::load();
    assert_eq!(tokenizer.count(""), 0);
    assert_eq!(tokenizer.count("Hello"), 1);
    assert_eq!(tokenizer.count("Hello world"), 2);
    assert_eq!(tokenizer.count("tiktoken is great!"), 6);
    assert!(tokenizer.count("<|endoftext|>") > 1, "special tokens are plain text");
}

#[test]
fn counts_long_texts_exactly() {
    // One token for each word, and one for the space at the end.
    assert_eq!(Tokenizer::load().count(&"Hello ".repeat(100_000)), 100_001);
}

// The characters below have no token of more than one byte, so that each byte
// of them is a token, however they are cut.

#[test]
fn counts_a_run_of_letters_that_is_too_long_for_one_word() {
    assert_eq!(Tokenizer::load().count(&"\u{c5}".repeat(1_100_000)), 2_200_000);
}

#[test]
fn counts_a_run_of_punctuation_that_is_too_long_for_one_word() {
    assert_eq!(Tokenizer::load().count(&"\u{f7}".repeat(1_100_000)), 2_200_000);
}

#[test]
fn counts_a_run_of_spaces_that_is_too_long_for_one_word() {
    let spaces = "\u{1680}".repeat(1_100_000);
    assert_eq!(Tokenizer::load().count(&format!("{spaces}Hello")), 3_300_001);
}

#[test]
fn counts_words_that_reach_the_limit_exactly() {
    let tokenizer = Tokenizer::load();
    for length in [999_899, 999_900, 999_901, 1_999_799] {
        assert_eq!(tokenizer.count(&"\u{c5}".repeat(length)), 2 * length as u64);
    }
}

#[test]
fn counts_punctuation_with_line_ends_that_is_too_long_for_one_word() {
    let text = format!("{}{}", "\u{f7}".repeat(600_000), "\r".repeat(500_000));
    assert_eq!(Tokenizer::load().count(&text), 1_700_000);
}

#[test]
fn a_text_without_a_sure_cut_is_cut_as_late_as_possible() {
    let tokenizer = Tokenizer::load();
    let words = "\u{5b57}\u{3001}".repeat(600_000);
    let head: String = words.chars().take(999_899).collect();
    let tail: String = words.chars().skip(999_899).collect();
    assert_eq!(tokenizer.count(&words), tokenizer.count(&head) + tokenizer.count(&tail));
}

#[test]
fn long_texts_with_sure_cuts_are_counted_in_one_go() {
    let tokenizer = Tokenizer::load();
    let half = tokenizer.count(&"a,1;\n".repeat(110_000));
    assert_eq!(tokenizer.count(&"a,1;\n".repeat(220_000)), 2 * half);
}

#[test]
fn data_lines_are_found_among_others() {
    let payloads = data_payloads(b"event: x\ndata: a\r\n\ndata:b\ndata: c d \n: data: e\ndata: f");
    assert_eq!(payloads, vec!["a", "c d ", "f"]);
    assert_eq!(data_payloads(b"data: \xff"), vec!["\u{FFFD}"]);
}

#[test]
fn the_end_marker_may_have_white_space_around_it() {
    assert!(done_marker("[DONE]"));
    assert!(done_marker(" \t[DONE]\u{3000}"));
    assert!(!done_marker("[DONE"));
    assert!(!done_marker("[DONE] x"));
    assert!(!done_marker(""));
}
