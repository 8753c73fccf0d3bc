# Weir

An inline circuit breaker for AI API traffic. It sits between an application
and OpenAI or Anthropic, keeps a rolling token budget per tenant, and cuts a
response off before content that the budget or the tenant's policy does not
allow reaches the client.

- `src/` is the library, verified with Verus: the rolling counters and budgets
  (`budget`), the configuration (`config`), the event log (`telemetry`), what
  responses cost (`provider`), the enforcement of streamed responses
  (`enforcer`), and the decisions on requests and complete responses
  (`gateway`). Functions named `law_...` state what holds of the library as a
  whole.
- `app/` is the proxy around it: HTTP, the configuration file, JSON, the clock.
- `tests/` run the library with its real dependencies.

The library takes a few things on trust, each behind one small function with
its claim in the doc comment: the maps of `dashmap`, the cl100k encoder of
`tiktoken-rs`, and `String::push` and `String::from_utf8_lossy`. Reading JSON is
left to an implementation of `PayloadDecoder`.

## Configuration

```toml
[tenants.acct_123]
max_tokens = 50000
window_seconds = 60

[tenants.acct_123.policy]
blocked_models = ["gpt-3.5-turbo"]
blocked_tools = ["send_email"]
```

`WEIR_CONFIG`, `WEIR_OPENAI_BASE`, `WEIR_ANTHROPIC_BASE` and
`WEIR_EVENT_LOG_CAPACITY` set the path of this file, the upstream base URLs and
the size of the event log. The file is read again whenever it changes.
