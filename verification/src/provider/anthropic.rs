//! Anthropic responses.

use std::sync::Arc;

use vstd::prelude::*;

use super::payload::{data_payloads, payloads_of};
use super::{
    append_named, capped, lemma_named_contains, named, present, token_count, ChunkCost,
    ChunkCostModel, NonStreamingCost, NonStreamingModel, PayloadDecoder, ProviderAdapter, Tokenizer,
    Vocabulary,
};
use crate::text::texts;

verus! {

/// A data line of a stream.
#[derive(Debug)]
pub enum AnthropicEvent {
    /// The response begins; what the request cost is known.
    MessageStart { input_tokens: u64 },
    /// A content block begins; it names a tool if it is a tool call.
    ContentBlockStart { tool_name: Option<String> },
    /// A piece of a content block.
    ContentBlockDelta { text: Option<String> },
    /// The output tokens so far are known.
    MessageDelta { output_tokens: u64 },
    /// Anything else.
    Other,
}

/// The tokens that a complete response cost.
#[derive(Debug, Clone, Copy)]
pub struct AnthropicUsage {
    pub input_tokens: u64,
    pub output_tokens: u64,
}

/// A complete response.
#[derive(Debug)]
pub struct AnthropicMessage {
    /// The tool that each content block calls, if it is a tool call.
    pub tool_names: Vec<Option<String>>,
    pub usage: Option<AnthropicUsage>,
}

/// The request's tokens and the cost of what was read so far.
#[verifier::ext_equal]
pub struct Tally {
    pub input_tokens: u64,
    pub estimated: nat,
    pub total: Option<u64>,
    pub tools: Seq<Seq<char>>,
}

/// The tally after one more data line.
pub open spec fn tallied(vocabulary: Vocabulary, tally: Tally, event: AnthropicEvent) -> Tally {
    match event {
        AnthropicEvent::MessageStart { input_tokens } => Tally {
            input_tokens,
            total: Some(input_tokens),
            ..tally
        },
        AnthropicEvent::ContentBlockStart { tool_name } => Tally {
            tools: match tool_name {
                Some(name) => tally.tools.push(name@),
                None => tally.tools,
            },
            ..tally
        },
        AnthropicEvent::ContentBlockDelta { text } => Tally {
            estimated: tally.estimated + match text {
                Some(text) => token_count(vocabulary, text@),
                None => 0,
            },
            ..tally
        },
        AnthropicEvent::MessageDelta { output_tokens } => Tally {
            total: Some(capped(tally.input_tokens + output_tokens)),
            ..tally
        },
        AnthropicEvent::Other => tally,
    }
}

/// The tally of some data lines, for a response whose request cost
/// `input_tokens` so far as is known.
pub open spec fn tally_of(
    vocabulary: Vocabulary,
    input_tokens: u64,
    events: Seq<AnthropicEvent>,
) -> Tally
    decreases events.len(),
{
    if events.len() == 0 {
        Tally { input_tokens, estimated: 0, total: None, tools: Seq::empty() }
    } else {
        tallied(
            vocabulary,
            tally_of(vocabulary, input_tokens, events.drop_last()),
            events.last(),
        )
    }
}

/// What an event costs that carries these data lines.
pub open spec fn anthropic_cost(
    vocabulary: Vocabulary,
    input_tokens: u64,
    events: Seq<AnthropicEvent>,
) -> ChunkCostModel {
    let tally = tally_of(vocabulary, input_tokens, events);
    ChunkCostModel {
        estimated_tokens: capped(tally.estimated as int),
        authoritative_total: tally.total,
        tool_calls: tally.tools,
    }
}

/// What a complete response costs; one that cannot be read costs nothing.
pub open spec fn anthropic_body_cost(body: Option<AnthropicMessage>) -> NonStreamingModel {
    match body {
        Some(message) => NonStreamingModel {
            total_tokens: match message.usage {
                Some(usage) => Some(capped(usage.input_tokens + usage.output_tokens)),
                None => None,
            },
            tool_calls: named(message.tool_names@),
        },
        None => NonStreamingModel { total_tokens: None, tool_calls: Seq::empty() },
    }
}

/// `read` is what the decoder makes of `payloads`, one by one.
pub open spec fn read_by<D: PayloadDecoder>(
    decoder: D,
    payloads: Seq<Seq<char>>,
    read: Seq<Option<AnthropicEvent>>,
) -> bool {
    &&& read.len() == payloads.len()
    &&& forall|i: int|
        0 <= i < read.len() ==> decodes(decoder, payloads[i], #[trigger] read[i])
}

/// The decoder may read `payload` as `read`.
pub open spec fn decodes<D: PayloadDecoder>(
    decoder: D,
    payload: Seq<char>,
    read: Option<AnthropicEvent>,
) -> bool {
    exists|text: &str|
        text@ == payload && #[trigger] call_ensures(D::anthropic_event, (&decoder, text), read)
}

/// Reads what Anthropic responses cost.
pub struct AnthropicAdapter<D: PayloadDecoder> {
    tokenizer: Arc<Tokenizer>,
    decoder: D,
    input_tokens: u64,
}

impl<D: PayloadDecoder> AnthropicAdapter<D> {
    /// What reads the JSON.
    pub closed spec fn decoder(&self) -> D {
        self.decoder
    }

    /// What counts the tokens.
    pub closed spec fn vocabulary(&self) -> Vocabulary {
        self.tokenizer.vocabulary()
    }

    /// What the request cost, so far as the stream has said.
    pub closed spec fn input_tokens(&self) -> u64 {
        self.input_tokens
    }

    pub fn new(tokenizer: Arc<Tokenizer>, decoder: D) -> (adapter: Self)
        ensures
            adapter.decoder() == decoder,
            adapter.vocabulary() == tokenizer.vocabulary(),
            adapter.input_tokens() == 0,
    {
        AnthropicAdapter { tokenizer, decoder, input_tokens: 0 }
    }

    /// What an event costs that carries these data lines. The adapter remembers
    /// what the request cost.
    pub fn cost_of(&mut self, events: &Vec<AnthropicEvent>) -> (cost: ChunkCost)
        ensures
            cost@ == anthropic_cost(old(self).vocabulary(), old(self).input_tokens(), events@),
            final(self).decoder() == old(self).decoder(),
            final(self).vocabulary() == old(self).vocabulary(),
            final(self).input_tokens() == tally_of(
                old(self).vocabulary(),
                old(self).input_tokens(),
                events@,
            ).input_tokens,
    {
        let mut estimated_tokens: u64 = 0;
        let mut authoritative_total: Option<u64> = None;
        let mut tool_calls: Vec<String> = Vec::new();
        let ghost start = self.input_tokens;
        let mut i: usize = 0;
        assert(events@.take(0) =~= Seq::empty());
        assert(texts(tool_calls@) =~= Seq::empty());
        while i < events.len()
            invariant
                i <= events.len(),
                start == old(self).input_tokens(),
                self.decoder() == old(self).decoder(),
                self.vocabulary() == old(self).vocabulary(),
                ({
                    let tally = tally_of(self.vocabulary(), start, events@.take(i as int));
                    &&& self.input_tokens == tally.input_tokens
                    &&& estimated_tokens == capped(tally.estimated as int)
                    &&& authoritative_total == tally.total
                    &&& texts(tool_calls@) == tally.tools
                }),
            decreases events.len() - i,
        {
            assert(events@.take(i + 1).drop_last() =~= events@.take(i as int));
            match &events[i] {
                AnthropicEvent::MessageStart { input_tokens } => {
                    self.input_tokens = *input_tokens;
                    authoritative_total = Some(*input_tokens);
                },
                AnthropicEvent::ContentBlockStart { tool_name } => {
                    if let Some(name) = tool_name {
                        let ghost before = tool_calls@;
                        tool_calls.push(name.clone());
                        assert(texts(tool_calls@) =~= texts(before).push(name@));
                    }
                },
                AnthropicEvent::ContentBlockDelta { text } => {
                    if let Some(text) = text {
                        estimated_tokens =
                        estimated_tokens.saturating_add(self.tokenizer.count(text.as_str()));
                    }
                },
                AnthropicEvent::MessageDelta { output_tokens } => {
                    authoritative_total = Some(self.input_tokens.saturating_add(*output_tokens));
                },
                AnthropicEvent::Other => {},
            }
            i += 1;
        }
        assert(events@.take(i as int) =~= events@);
        ChunkCost { estimated_tokens, authoritative_total, tool_calls }
    }
}

/// What a complete response costs; one that cannot be read costs nothing.
pub fn cost_of_body(body: &Option<AnthropicMessage>) -> (cost: NonStreamingCost)
    ensures
        cost@ == anthropic_body_cost(*body),
{
    let mut tool_calls: Vec<String> = Vec::new();
    assert(texts(tool_calls@) =~= Seq::empty());
    match body {
        Some(message) => {
            append_named(&mut tool_calls, &message.tool_names);
            assert(texts(tool_calls@) =~= named(message.tool_names@));
            let total_tokens = match message.usage {
                Some(usage) => Some(usage.input_tokens.saturating_add(usage.output_tokens)),
                None => None,
            };
            NonStreamingCost { total_tokens, tool_calls }
        },
        None => NonStreamingCost { total_tokens: None, tool_calls },
    }
}

impl<D: PayloadDecoder> ProviderAdapter for AnthropicAdapter<D> {
    open spec fn prices_event(&self, raw: Seq<u8>, cost: ChunkCostModel, after: Self) -> bool {
        &&& after.decoder() == self.decoder()
        &&& after.vocabulary() == self.vocabulary()
        &&& exists|read: Seq<Option<AnthropicEvent>>|
            {
                &&& #[trigger] read_by(self.decoder(), payloads_of(raw), read)
                &&& cost == anthropic_cost(
                    self.vocabulary(),
                    self.input_tokens(),
                    present(read),
                )
                &&& after.input_tokens() == tally_of(
                    self.vocabulary(),
                    self.input_tokens(),
                    present(read),
                ).input_tokens
            }
    }

    open spec fn prices_body(&self, body: Seq<u8>, cost: NonStreamingModel) -> bool {
        exists|bytes: &[u8], read: Option<AnthropicMessage>|
            bytes@ == body && #[trigger] call_ensures(
                D::anthropic_body,
                (&self.decoder(), bytes),
                read,
            ) && cost == anthropic_body_cost(read)
    }

    fn chunk_cost(&mut self, raw: &[u8]) -> ChunkCost {
        let payloads = data_payloads(raw);
        let ghost all = texts(payloads@);
        let ghost mut read: Seq<Option<AnthropicEvent>> = Seq::empty();
        let mut events: Vec<AnthropicEvent> = Vec::new();
        let mut i: usize = 0;
        assert(all.take(0) =~= Seq::empty());
        while i < payloads.len()
            invariant
                *self == *old(self),
                i <= payloads.len(),
                all == texts(payloads@),
                read_by(self.decoder(), all.take(i as int), read),
                events@ == present(read),
            decreases payloads.len() - i,
        {
            let payload = payloads[i].as_str();
            let event = self.decoder.anthropic_event(payload);
            let ghost earlier = read;
            proof {
                assert(decodes(self.decoder(), payload@, event));
                read = read.push(event);
                assert(read.drop_last() =~= earlier);
                assert forall|k: int| 0 <= k < read.len() implies decodes(
                    self.decoder(),
                    all.take(i + 1)[k],
                    #[trigger] read[k],
                ) by {
                    if k < earlier.len() {
                        assert(decodes(self.decoder(), all.take(i as int)[k], earlier[k]));
                    }
                }
            }
            if let Some(event) = event {
                events.push(event);
            }
            i += 1;
        }
        assert(all.take(i as int) =~= all);
        self.cost_of(&events)
    }

    fn non_streaming_cost(&self, body: &[u8]) -> NonStreamingCost {
        let read = self.decoder.anthropic_body(body);
        assert(call_ensures(D::anthropic_body, (&self.decoder(), body), read));
        cost_of_body(&read)
    }
}

proof fn lemma_tallies_add_up(
    vocabulary: Vocabulary,
    first: u64,
    second: u64,
    a: Seq<AnthropicEvent>,
    b: Seq<AnthropicEvent>,
)
    ensures
        tally_of(vocabulary, first, a + b).estimated == tally_of(vocabulary, first, a).estimated
            + tally_of(vocabulary, second, b).estimated,
        tally_of(vocabulary, first, a + b).tools == tally_of(vocabulary, first, a).tools
            + tally_of(vocabulary, second, b).tools,
    decreases b.len(),
{
    if b.len() == 0 {
        assert(a + b =~= a);
        assert(tally_of(vocabulary, first, a).tools + tally_of(vocabulary, second, b).tools
            =~= tally_of(vocabulary, first, a).tools);
    } else {
        assert((a + b).drop_last() =~= a + b.drop_last());
        assert((a + b).last() == b.last());
        lemma_tallies_add_up(vocabulary, first, second, a, b.drop_last());
        assert(tally_of(vocabulary, first, a + b).tools =~= tally_of(vocabulary, first, a).tools
            + tally_of(vocabulary, second, b).tools);
    }
}

/// Law: the estimates of data lines add up, and so do the tools that they call,
/// whatever the request cost.
pub proof fn law_lines_add_up(
    vocabulary: Vocabulary,
    first: u64,
    second: u64,
    a: Seq<AnthropicEvent>,
    b: Seq<AnthropicEvent>,
)
    ensures
        ({
            let sum = anthropic_cost(vocabulary, first, a).estimated_tokens + anthropic_cost(
                vocabulary,
                second,
                b,
            ).estimated_tokens;
            anthropic_cost(vocabulary, first, a + b).estimated_tokens == if sum <= u64::MAX {
                sum
            } else {
                u64::MAX as int
            }
        }),
        anthropic_cost(vocabulary, first, a + b).tool_calls == anthropic_cost(
            vocabulary,
            first,
            a,
        ).tool_calls + anthropic_cost(vocabulary, second, b).tool_calls,
        anthropic_cost(vocabulary, first, Seq::empty()).estimated_tokens == 0,
        anthropic_cost(vocabulary, first, Seq::empty()).tool_calls.len() == 0,
        anthropic_cost(vocabulary, first, Seq::empty()).authoritative_total is None,
{
    lemma_tallies_add_up(vocabulary, first, second, a, b);
}

/// Law: a piece of text costs its tokens, the beginning of a tool call calls the
/// tool that it names, and no other data line costs or calls anything of its
/// own.
pub proof fn law_a_line_costs_its_text(
    vocabulary: Vocabulary,
    input_tokens: u64,
    event: AnthropicEvent,
)
    ensures
        anthropic_cost(vocabulary, input_tokens, seq![event]).estimated_tokens == match event {
            AnthropicEvent::ContentBlockDelta { text: Some(text) } => if token_count(
                vocabulary,
                text@,
            ) <= u64::MAX {
                token_count(vocabulary, text@)
            } else {
                u64::MAX as nat
            },
            _ => 0,
        },
        anthropic_cost(vocabulary, input_tokens, seq![event]).tool_calls == match event {
            AnthropicEvent::ContentBlockStart { tool_name: Some(name) } => seq![name@],
            _ => Seq::empty(),
        },
{
    let one = seq![event];
    assert(one.drop_last() =~= Seq::empty());
    assert(one.last() == event);
    let start = tally_of(vocabulary, input_tokens, one.drop_last());
    assert(start.tools =~= Seq::empty());
    assert(start.estimated == 0);
    assert(anthropic_cost(vocabulary, input_tokens, one).tool_calls =~= match event {
        AnthropicEvent::ContentBlockStart { tool_name: Some(name) } => seq![name@],
        _ => Seq::empty(),
    });
}

/// A data line that states what the response has cost.
pub open spec fn states_cost(event: AnthropicEvent) -> bool {
    event is MessageStart || event is MessageDelta
}

/// `input` is what the request cost, as the last line says that begins a
/// response, and `known` if none does.
pub open spec fn is_input(events: Seq<AnthropicEvent>, known: u64, input: u64) -> bool {
    ||| exists|j: int|
        {
            &&& 0 <= j < events.len()
            &&& #[trigger] events[j] == (AnthropicEvent::MessageStart { input_tokens: input })
            &&& forall|i: int| j < i < events.len() ==> !(#[trigger] events[i] is MessageStart)
        }
    ||| input == known && forall|i: int|
        0 <= i < events.len() ==> !(#[trigger] events[i] is MessageStart)
}

/// Law: an adapter remembers what the request cost: what the last line said that
/// began a response, and what it knew before if none did.
pub proof fn law_the_request_is_remembered(
    vocabulary: Vocabulary,
    known: u64,
    events: Seq<AnthropicEvent>,
)
    ensures
        is_input(events, known, tally_of(vocabulary, known, events).input_tokens),
    decreases events.len(),
{
    if events.len() > 0 {
        let rest = events.drop_last();
        let input = tally_of(vocabulary, known, events).input_tokens;
        law_the_request_is_remembered(vocabulary, known, rest);
        if events.last() is MessageStart {
            assert(events[events.len() - 1] == (AnthropicEvent::MessageStart {
                input_tokens: input,
            }));
        } else if exists|j: int|
            {
                &&& 0 <= j < rest.len()
                &&& #[trigger] rest[j] == (AnthropicEvent::MessageStart { input_tokens: input })
                &&& forall|i: int| j < i < rest.len() ==> !(#[trigger] rest[i] is MessageStart)
            } {
            let j = choose|j: int|
                {
                    &&& 0 <= j < rest.len()
                    &&& #[trigger] rest[j] == (AnthropicEvent::MessageStart { input_tokens: input })
                    &&& forall|i: int| j < i < rest.len() ==> !(#[trigger] rest[i] is MessageStart)
                };
            assert(events[j] == rest[j]);
            assert forall|i: int| j < i < events.len() implies !(
            #[trigger] events[i] is MessageStart) by {
                if i < rest.len() {
                    assert(rest[i] == events[i]);
                }
            }
        } else {
            assert forall|i: int| 0 <= i < events.len() implies !(
            #[trigger] events[i] is MessageStart) by {
                if i < rest.len() {
                    assert(rest[i] == events[i]);
                }
            }
        }
    }
}

/// Law: the total of an event is what the last of its lines states that states
/// any: what the request cost, where the response begins, and after that what
/// the request and the response have cost together.
pub proof fn law_the_last_stated_cost_counts(
    vocabulary: Vocabulary,
    known: u64,
    events: Seq<AnthropicEvent>,
    k: int,
)
    requires
        0 <= k < events.len(),
        states_cost(events[k]),
        forall|j: int| k < j < events.len() ==> !states_cost(#[trigger] events[j]),
    ensures
        events[k] matches AnthropicEvent::MessageStart { input_tokens } ==> anthropic_cost(
            vocabulary,
            known,
            events,
        ).authoritative_total == Some(input_tokens),
        events[k] matches AnthropicEvent::MessageDelta { output_tokens } ==> exists|input: u64|
            {
                &&& #[trigger] is_input(events.take(k), known, input)
                &&& anthropic_cost(vocabulary, known, events).authoritative_total == Some(
                    if input + output_tokens <= u64::MAX {
                        (input + output_tokens) as u64
                    } else {
                        u64::MAX
                    },
                )
            },
    decreases events.len(),
{
    let rest = events.drop_last();
    if k < events.len() - 1 {
        assert(rest[k] == events[k]);
        assert(rest.take(k) =~= events.take(k));
        assert(!states_cost(events[events.len() - 1]));
        assert forall|j: int| k < j < rest.len() implies !states_cost(#[trigger] rest[j]) by {
            assert(rest[j] == events[j]);
        }
        law_the_last_stated_cost_counts(vocabulary, known, rest, k);
    } else {
        assert(events.take(k) =~= rest);
        law_the_request_is_remembered(vocabulary, known, rest);
        let input = tally_of(vocabulary, known, rest).input_tokens;
        assert(is_input(events.take(k), known, input));
    }
}

/// Law: an event none of whose lines states a cost has no total.
pub proof fn law_no_cost_is_made_up(
    vocabulary: Vocabulary,
    known: u64,
    events: Seq<AnthropicEvent>,
)
    requires
        forall|j: int| 0 <= j < events.len() ==> !states_cost(#[trigger] events[j]),
    ensures
        anthropic_cost(vocabulary, known, events).authoritative_total is None,
    decreases events.len(),
{
    if events.len() > 0 {
        let rest = events.drop_last();
        assert forall|j: int| 0 <= j < rest.len() implies !states_cost(#[trigger] rest[j]) by {
            assert(rest[j] == events[j]);
        }
        assert(!states_cost(events[events.len() - 1]));
        law_no_cost_is_made_up(vocabulary, known, rest);
    }
}

/// Law: no tool call is overlooked: every tool that a line of an event begins to
/// call is among those that the event calls.
pub proof fn law_no_tool_call_is_overlooked(
    vocabulary: Vocabulary,
    known: u64,
    events: Seq<AnthropicEvent>,
    i: int,
    name: String,
)
    requires
        0 <= i < events.len(),
        events[i] == (AnthropicEvent::ContentBlockStart { tool_name: Some(name) }),
    ensures
        anthropic_cost(vocabulary, known, events).tool_calls.contains(name@),
    decreases events.len(),
{
    let rest = tally_of(vocabulary, known, events.drop_last()).tools;
    let all = tally_of(vocabulary, known, events).tools;
    if i < events.len() - 1 {
        law_no_tool_call_is_overlooked(vocabulary, known, events.drop_last(), i, name);
        let n = choose|n: int| 0 <= n < rest.len() && rest[n] == name@;
        assert(all[n] == name@);
    } else {
        assert(all[rest.len() as int] == name@);
    }
}

/// Law: a complete response costs what the request and the response cost
/// together, if it states both, and calls every tool that one of its content
/// blocks names, in order; one that cannot be read costs and calls nothing.
pub proof fn law_a_response_costs_what_it_states(message: AnthropicMessage, k: int)
    ensures
        message.usage is None ==> anthropic_body_cost(Some(message)).total_tokens is None,
        message.usage matches Some(usage) ==> anthropic_body_cost(Some(message)).total_tokens
            == Some(
            if usage.input_tokens + usage.output_tokens <= u64::MAX {
                (usage.input_tokens + usage.output_tokens) as u64
            } else {
                u64::MAX
            },
        ),
        anthropic_body_cost(Some(message)).tool_calls == named(message.tool_names@),
        0 <= k < message.tool_names@.len() && message.tool_names@[k] is Some
            ==> anthropic_body_cost(Some(message)).tool_calls.contains(
            message.tool_names@[k]->0@,
        ),
        anthropic_body_cost(None).total_tokens is None,
        anthropic_body_cost(None).tool_calls.len() == 0,
{
    if 0 <= k < message.tool_names@.len() && message.tool_names@[k] is Some {
        lemma_named_contains(message.tool_names@, k);
    }
}

/// Law: an event costs what its data lines cost as the decoder reads them, and
/// the adapter remembers what the request cost. Where the decoder can read each
/// line in one way only, those that it can read at all make up the cost.
pub proof fn law_events_cost_what_is_read<D: PayloadDecoder>(
    adapter: AnthropicAdapter<D>,
    raw: Seq<u8>,
    cost: ChunkCostModel,
    after: AnthropicAdapter<D>,
    read: Seq<Option<AnthropicEvent>>,
)
    requires
        adapter.prices_event(raw, cost, after),
        read.len() == payloads_of(raw).len(),
        forall|i: int, text: &str, one: Option<AnthropicEvent>|
            #![trigger read[i], call_ensures(D::anthropic_event, (&adapter.decoder(), text), one)]
            0 <= i < read.len() && text@ == payloads_of(raw)[i] && call_ensures(
                D::anthropic_event,
                (&adapter.decoder(), text),
                one,
            ) ==> one == read[i],
    ensures
        cost == anthropic_cost(adapter.vocabulary(), adapter.input_tokens(), present(read)),
        is_input(present(read), adapter.input_tokens(), after.input_tokens()),
        after.decoder() == adapter.decoder(),
        after.vocabulary() == adapter.vocabulary(),
{
    let payloads = payloads_of(raw);
    let found = choose|found: Seq<Option<AnthropicEvent>>|
        {
            &&& #[trigger] read_by(adapter.decoder(), payloads, found)
            &&& cost == anthropic_cost(
                adapter.vocabulary(),
                adapter.input_tokens(),
                present(found),
            )
            &&& after.input_tokens() == tally_of(
                adapter.vocabulary(),
                adapter.input_tokens(),
                present(found),
            ).input_tokens
        };
    assert forall|i: int| 0 <= i < read.len() implies found[i] == #[trigger] read[i] by {
        assert(decodes(adapter.decoder(), payloads[i], found[i]));
    }
    assert(found =~= read);
    law_the_request_is_remembered(adapter.vocabulary(), adapter.input_tokens(), present(read));
}

/// Law: a complete response costs what it costs as the decoder reads it.
pub proof fn law_responses_cost_what_is_read<D: PayloadDecoder>(
    adapter: AnthropicAdapter<D>,
    body: Seq<u8>,
    cost: NonStreamingModel,
    read: Option<AnthropicMessage>,
)
    requires
        adapter.prices_body(body, cost),
        forall|bytes: &[u8], one: Option<AnthropicMessage>|
            bytes@ == body && #[trigger] call_ensures(
                D::anthropic_body,
                (&adapter.decoder(), bytes),
                one,
            ) ==> one == read,
    ensures
        cost == anthropic_body_cost(read),
{
}

} // verus!
