//! OpenAI responses.

use std::sync::Arc;

use vstd::prelude::*;

use super::payload::{data_payloads, done_marker, is_done_marker, payloads_of};
use super::{
    append_named, capped, lemma_named_contains, named, present, token_count, ChunkCost,
    ChunkCostModel, NonStreamingCost, NonStreamingModel, PayloadDecoder, ProviderAdapter, Tokenizer,
    Vocabulary,
};
use crate::text::texts;

verus! {

/// What one choice of a payload says.
#[derive(Debug)]
pub struct OpenAiChoice {
    pub content: Option<String>,
    /// The names of the tools that it calls. A streamed call names its tool
    /// only once.
    pub tool_names: Vec<Option<String>>,
}

/// A data line of a stream, or a complete response.
#[derive(Debug)]
pub struct OpenAiPayload {
    pub choices: Vec<OpenAiChoice>,
    /// The tokens of the whole response, if the payload says.
    pub total_tokens: Option<u64>,
}

/// The tokens of the text in some choices.
pub open spec fn choice_tokens(vocabulary: Vocabulary, choices: Seq<OpenAiChoice>) -> nat
    decreases choices.len(),
{
    if choices.len() == 0 {
        0
    } else {
        choice_tokens(vocabulary, choices.drop_last()) + match choices.last().content {
            Some(content) => token_count(vocabulary, content@),
            None => 0,
        }
    }
}

/// The tools that some choices call, in order.
pub open spec fn choice_tools(choices: Seq<OpenAiChoice>) -> Seq<Seq<char>>
    decreases choices.len(),
{
    if choices.len() == 0 {
        Seq::empty()
    } else {
        choice_tools(choices.drop_last()) + named(choices.last().tool_names@)
    }
}

/// The tokens of the text in some payloads.
pub open spec fn payload_tokens(vocabulary: Vocabulary, payloads: Seq<OpenAiPayload>) -> nat
    decreases payloads.len(),
{
    if payloads.len() == 0 {
        0
    } else {
        payload_tokens(vocabulary, payloads.drop_last()) + choice_tokens(
            vocabulary,
            payloads.last().choices@,
        )
    }
}

/// The tools that some payloads call, in order.
pub open spec fn payload_tools(payloads: Seq<OpenAiPayload>) -> Seq<Seq<char>>
    decreases payloads.len(),
{
    if payloads.len() == 0 {
        Seq::empty()
    } else {
        payload_tools(payloads.drop_last()) + choice_tools(payloads.last().choices@)
    }
}

/// The last total that some payloads state.
pub open spec fn last_total(payloads: Seq<OpenAiPayload>) -> Option<u64>
    decreases payloads.len(),
{
    if payloads.len() == 0 {
        None
    } else if payloads.last().total_tokens is Some {
        payloads.last().total_tokens
    } else {
        last_total(payloads.drop_last())
    }
}

/// What an event costs that carries these payloads.
pub open spec fn openai_cost(
    vocabulary: Vocabulary,
    payloads: Seq<OpenAiPayload>,
) -> ChunkCostModel {
    ChunkCostModel {
        estimated_tokens: capped(payload_tokens(vocabulary, payloads) as int),
        authoritative_total: last_total(payloads),
        tool_calls: payload_tools(payloads),
    }
}

/// What a complete response costs; one that cannot be read costs nothing.
pub open spec fn openai_body_cost(body: Option<OpenAiPayload>) -> NonStreamingModel {
    match body {
        Some(payload) => NonStreamingModel {
            total_tokens: payload.total_tokens,
            tool_calls: choice_tools(payload.choices@),
        },
        None => NonStreamingModel { total_tokens: None, tool_calls: Seq::empty() },
    }
}

/// The payloads of an event, but for the marker that ends a stream.
pub open spec fn openai_payloads(event: Seq<u8>) -> Seq<Seq<char>> {
    payloads_of(event).filter(|payload: Seq<char>| !is_done_marker(payload))
}

/// `read` is what the decoder makes of `payloads`, one by one.
pub open spec fn read_by<D: PayloadDecoder>(
    decoder: D,
    payloads: Seq<Seq<char>>,
    read: Seq<Option<OpenAiPayload>>,
) -> bool {
    &&& read.len() == payloads.len()
    &&& forall|i: int|
        0 <= i < read.len() ==> decodes(decoder, payloads[i], #[trigger] read[i])
}

/// The decoder may read `payload` as `read`.
pub open spec fn decodes<D: PayloadDecoder>(
    decoder: D,
    payload: Seq<char>,
    read: Option<OpenAiPayload>,
) -> bool {
    exists|text: &str|
        text@ == payload && #[trigger] call_ensures(D::openai_payload, (&decoder, text), read)
}

/// Reads what OpenAI responses cost.
pub struct OpenAiAdapter<D: PayloadDecoder> {
    tokenizer: Arc<Tokenizer>,
    decoder: D,
}

impl<D: PayloadDecoder> OpenAiAdapter<D> {
    /// What reads the JSON.
    pub closed spec fn decoder(&self) -> D {
        self.decoder
    }

    /// What counts the tokens.
    pub closed spec fn vocabulary(&self) -> Vocabulary {
        self.tokenizer.vocabulary()
    }

    pub fn new(tokenizer: Arc<Tokenizer>, decoder: D) -> (adapter: Self)
        ensures
            adapter.decoder() == decoder,
            adapter.vocabulary() == tokenizer.vocabulary(),
    {
        OpenAiAdapter { tokenizer, decoder }
    }

    /// What an event costs that carries these payloads.
    pub fn cost_of(&self, payloads: &Vec<OpenAiPayload>) -> (cost: ChunkCost)
        ensures
            cost@ == openai_cost(self.vocabulary(), payloads@),
    {
        let mut estimated_tokens: u64 = 0;
        let mut authoritative_total: Option<u64> = None;
        let mut tool_calls: Vec<String> = Vec::new();
        let mut i: usize = 0;
        assert(payloads@.take(0) =~= Seq::empty());
        assert(texts(tool_calls@) =~= Seq::empty());
        while i < payloads.len()
            invariant
                i <= payloads.len(),
                estimated_tokens == capped(
                    payload_tokens(self.vocabulary(), payloads@.take(i as int)) as int,
                ),
                authoritative_total == last_total(payloads@.take(i as int)),
                texts(tool_calls@) == payload_tools(payloads@.take(i as int)),
            decreases payloads.len() - i,
        {
            let payload = &payloads[i];
            assert(payloads@.take(i + 1).drop_last() =~= payloads@.take(i as int));
            let tokens: u64 = self.tokens_of(&payload.choices);
            estimated_tokens = estimated_tokens.saturating_add(tokens);
            append_tools(&mut tool_calls, &payload.choices);
            if payload.total_tokens.is_some() {
                authoritative_total = payload.total_tokens;
            }
            i += 1;
        }
        assert(payloads@.take(i as int) =~= payloads@);
        ChunkCost { estimated_tokens, authoritative_total, tool_calls }
    }

    fn tokens_of(&self, choices: &Vec<OpenAiChoice>) -> (tokens: u64)
        ensures
            tokens == capped(choice_tokens(self.vocabulary(), choices@) as int),
    {
        let mut tokens: u64 = 0;
        let mut i: usize = 0;
        assert(choices@.take(0) =~= Seq::empty());
        while i < choices.len()
            invariant
                i <= choices.len(),
                tokens == capped(
                    choice_tokens(self.vocabulary(), choices@.take(i as int)) as int,
                ),
            decreases choices.len() - i,
        {
            assert(choices@.take(i + 1).drop_last() =~= choices@.take(i as int));
            if let Some(content) = &choices[i].content {
                tokens = tokens.saturating_add(self.tokenizer.count(content.as_str()));
            }
            i += 1;
        }
        assert(choices@.take(i as int) =~= choices@);
        tokens
    }
}

fn append_tools(tools: &mut Vec<String>, choices: &Vec<OpenAiChoice>)
    ensures
        texts(final(tools)@) == texts(old(tools)@) + choice_tools(choices@),
{
    let mut i: usize = 0;
    assert(choices@.take(0) =~= Seq::empty());
    assert(texts(tools@) + choice_tools(choices@.take(0)) =~= texts(tools@));
    while i < choices.len()
        invariant
            i <= choices.len(),
            texts(tools@) == texts(old(tools)@) + choice_tools(choices@.take(i as int)),
        decreases choices.len() - i,
    {
        assert(choices@.take(i + 1).drop_last() =~= choices@.take(i as int));
        append_named(tools, &choices[i].tool_names);
        assert(texts(tools@) =~= texts(old(tools)@) + choice_tools(choices@.take(i + 1)));
        i += 1;
    }
    assert(choices@.take(i as int) =~= choices@);
}

/// What a complete response costs; one that cannot be read costs nothing.
pub fn cost_of_body(body: &Option<OpenAiPayload>) -> (cost: NonStreamingCost)
    ensures
        cost@ == openai_body_cost(*body),
{
    let mut tool_calls: Vec<String> = Vec::new();
    assert(texts(tool_calls@) =~= Seq::empty());
    match body {
        Some(payload) => {
            append_tools(&mut tool_calls, &payload.choices);
            assert(texts(tool_calls@) =~= choice_tools(payload.choices@));
            NonStreamingCost { total_tokens: payload.total_tokens, tool_calls }
        },
        None => NonStreamingCost { total_tokens: None, tool_calls },
    }
}

impl<D: PayloadDecoder> ProviderAdapter for OpenAiAdapter<D> {
    open spec fn prices_event(&self, raw: Seq<u8>, cost: ChunkCostModel, after: Self) -> bool {
        &&& after == *self
        &&& exists|read: Seq<Option<OpenAiPayload>>| #[trigger]
            read_by(self.decoder(), openai_payloads(raw), read) && cost == openai_cost(
                self.vocabulary(),
                present(read),
            )
    }

    open spec fn prices_body(&self, body: Seq<u8>, cost: NonStreamingModel) -> bool {
        exists|bytes: &[u8], read: Option<OpenAiPayload>|
            bytes@ == body && #[trigger] call_ensures(
                D::openai_body,
                (&self.decoder(), bytes),
                read,
            ) && cost == openai_body_cost(read)
    }

    fn chunk_cost(&mut self, raw: &[u8]) -> ChunkCost {
        let payloads = data_payloads(raw);
        let ghost all = texts(payloads@);
        let ghost keep = |payload: Seq<char>| !is_done_marker(payload);
        let ghost mut read: Seq<Option<OpenAiPayload>> = Seq::empty();
        let mut chunks: Vec<OpenAiPayload> = Vec::new();
        let mut i: usize = 0;
        proof {
            reveal(Seq::filter);
            assert(all.take(0) =~= Seq::empty());
            assert(all.take(0).filter(keep) =~= Seq::empty());
        }
        while i < payloads.len()
            invariant
                *self == *old(self),
                i <= payloads.len(),
                all == texts(payloads@),
                keep == (|payload: Seq<char>| !is_done_marker(payload)),
                read_by(self.decoder(), all.take(i as int).filter(keep), read),
                chunks@ == present(read),
            decreases payloads.len() - i,
        {
            let payload = payloads[i].as_str();
            let ghost before = all.take(i as int).filter(keep);
            proof {
                reveal(Seq::filter);
                assert(all.take(i + 1).drop_last() =~= all.take(i as int));
                assert(all.take(i + 1).last() == payload@);
            }
            if !done_marker(payload) {
                let chunk = self.decoder.openai_payload(payload);
                let ghost earlier = read;
                proof {
                    assert(decodes(self.decoder(), payload@, chunk));
                    read = read.push(chunk);
                    assert(all.take(i + 1).filter(keep) =~= before.push(payload@));
                    assert(read.drop_last() =~= earlier);
                    assert forall|k: int| 0 <= k < read.len() implies decodes(
                        self.decoder(),
                        before.push(payload@)[k],
                        #[trigger] read[k],
                    ) by {
                        if k < earlier.len() {
                            assert(decodes(self.decoder(), before[k], earlier[k]));
                        }
                    }
                }
                if let Some(chunk) = chunk {
                    chunks.push(chunk);
                }
            } else {
                assert(all.take(i + 1).filter(keep) =~= before);
            }
            i += 1;
        }
        assert(all.take(i as int) =~= all);
        assert(read_by(old(self).decoder(), openai_payloads(raw@), read));
        self.cost_of(&chunks)
    }

    fn non_streaming_cost(&self, body: &[u8]) -> NonStreamingCost {
        let read = self.decoder.openai_body(body);
        assert(call_ensures(D::openai_body, (&self.decoder(), body), read));
        cost_of_body(&read)
    }
}

/// Law: the total of an event is the one that the last of its payloads states
/// that states any, whatever else the payloads hold.
pub proof fn law_the_last_stated_total_counts(
    vocabulary: Vocabulary,
    payloads: Seq<OpenAiPayload>,
    k: int,
)
    requires
        0 <= k < payloads.len(),
        payloads[k].total_tokens is Some,
        forall|j: int| k < j < payloads.len() ==> (#[trigger] payloads[j]).total_tokens is None,
    ensures
        openai_cost(vocabulary, payloads).authoritative_total == payloads[k].total_tokens,
    decreases payloads.len(),
{
    if k < payloads.len() - 1 {
        let rest = payloads.drop_last();
        assert forall|j: int| k < j < rest.len() implies (
        #[trigger] rest[j]).total_tokens is None by {
            assert(rest[j] == payloads[j]);
        }
        assert(payloads[payloads.len() - 1].total_tokens is None);
        law_the_last_stated_total_counts(vocabulary, rest, k);
    }
}

/// Law: an event none of whose payloads states a total has none.
pub proof fn law_no_total_is_made_up(vocabulary: Vocabulary, payloads: Seq<OpenAiPayload>)
    requires
        forall|j: int| 0 <= j < payloads.len() ==> (#[trigger] payloads[j]).total_tokens is None,
    ensures
        openai_cost(vocabulary, payloads).authoritative_total is None,
    decreases payloads.len(),
{
    if payloads.len() > 0 {
        let rest = payloads.drop_last();
        assert forall|j: int| 0 <= j < rest.len() implies (
        #[trigger] rest[j]).total_tokens is None by {
            assert(rest[j] == payloads[j]);
        }
        assert(payloads[payloads.len() - 1].total_tokens is None);
        law_no_total_is_made_up(vocabulary, rest);
    }
}

proof fn lemma_choices_add_up(vocabulary: Vocabulary, a: Seq<OpenAiChoice>, b: Seq<OpenAiChoice>)
    ensures
        choice_tokens(vocabulary, a + b) == choice_tokens(vocabulary, a) + choice_tokens(
            vocabulary,
            b,
        ),
        choice_tools(a + b) == choice_tools(a) + choice_tools(b),
    decreases b.len(),
{
    if b.len() == 0 {
        assert(a + b =~= a);
        assert(choice_tools(a) + choice_tools(b) =~= choice_tools(a));
    } else {
        assert((a + b).drop_last() =~= a + b.drop_last());
        lemma_choices_add_up(vocabulary, a, b.drop_last());
        assert(choice_tools(a + b) =~= choice_tools(a) + choice_tools(b));
    }
}

proof fn lemma_payloads_add_up(
    vocabulary: Vocabulary,
    a: Seq<OpenAiPayload>,
    b: Seq<OpenAiPayload>,
)
    ensures
        payload_tokens(vocabulary, a + b) == payload_tokens(vocabulary, a) + payload_tokens(
            vocabulary,
            b,
        ),
        payload_tools(a + b) == payload_tools(a) + payload_tools(b),
    decreases b.len(),
{
    if b.len() == 0 {
        assert(a + b =~= a);
        assert(payload_tools(a) + payload_tools(b) =~= payload_tools(a));
    } else {
        assert((a + b).drop_last() =~= a + b.drop_last());
        lemma_payloads_add_up(vocabulary, a, b.drop_last());
        assert(payload_tools(a + b) =~= payload_tools(a) + payload_tools(b));
    }
}

/// Law: the estimates of payloads add up, and so do the tools that they call.
pub proof fn law_payloads_add_up(
    vocabulary: Vocabulary,
    a: Seq<OpenAiPayload>,
    b: Seq<OpenAiPayload>,
)
    ensures
        ({
            let sum = openai_cost(vocabulary, a).estimated_tokens + openai_cost(
                vocabulary,
                b,
            ).estimated_tokens;
            openai_cost(vocabulary, a + b).estimated_tokens == if sum <= u64::MAX {
                sum
            } else {
                u64::MAX as int
            }
        }),
        openai_cost(vocabulary, a + b).tool_calls == openai_cost(vocabulary, a).tool_calls
            + openai_cost(vocabulary, b).tool_calls,
        openai_cost(vocabulary, Seq::empty()).estimated_tokens == 0,
        openai_cost(vocabulary, Seq::empty()).tool_calls.len() == 0,
{
    lemma_payloads_add_up(vocabulary, a, b);
}

proof fn lemma_single_payload(vocabulary: Vocabulary, payload: OpenAiPayload)
    ensures
        payload_tokens(vocabulary, seq![payload]) == choice_tokens(vocabulary, payload.choices@),
        payload_tools(seq![payload]) == choice_tools(payload.choices@),
{
    let one = seq![payload];
    assert(one.drop_last() =~= Seq::empty());
    assert(payload_tokens(vocabulary, one.drop_last()) == 0);
    assert(payload_tools(one.drop_last()) =~= Seq::empty());
    assert(payload_tools(one) =~= choice_tools(payload.choices@));
}

/// Law: the estimates of the choices of a payload add up, and so do the tools
/// that they call.
pub proof fn law_choices_add_up(
    vocabulary: Vocabulary,
    first: OpenAiPayload,
    second: OpenAiPayload,
    both: OpenAiPayload,
)
    requires
        both.choices@ == first.choices@ + second.choices@,
    ensures
        ({
            let sum = openai_cost(vocabulary, seq![first]).estimated_tokens + openai_cost(
                vocabulary,
                seq![second],
            ).estimated_tokens;
            openai_cost(vocabulary, seq![both]).estimated_tokens == if sum <= u64::MAX {
                sum
            } else {
                u64::MAX as int
            }
        }),
        openai_cost(vocabulary, seq![both]).tool_calls == openai_cost(
            vocabulary,
            seq![first],
        ).tool_calls + openai_cost(vocabulary, seq![second]).tool_calls,
{
    lemma_single_payload(vocabulary, first);
    lemma_single_payload(vocabulary, second);
    lemma_single_payload(vocabulary, both);
    lemma_choices_add_up(vocabulary, first.choices@, second.choices@);
}

/// Law: a choice costs the tokens of its text, if it has any, and calls exactly
/// the tools that it names; a payload without choices costs and calls nothing.
pub proof fn law_a_choice_costs_its_text(vocabulary: Vocabulary, payload: OpenAiPayload)
    ensures
        payload.choices@.len() == 0 ==> {
            &&& openai_cost(vocabulary, seq![payload]).estimated_tokens == 0
            &&& openai_cost(vocabulary, seq![payload]).tool_calls.len() == 0
        },
        payload.choices@.len() == 1 ==> {
            &&& openai_cost(vocabulary, seq![payload]).tool_calls == named(
                payload.choices@[0].tool_names@,
            )
            &&& payload.choices@[0].content is None ==> openai_cost(
                vocabulary,
                seq![payload],
            ).estimated_tokens == 0
            &&& payload.choices@[0].content matches Some(text) ==> openai_cost(
                vocabulary,
                seq![payload],
            ).estimated_tokens == if token_count(vocabulary, text@) <= u64::MAX {
                token_count(vocabulary, text@)
            } else {
                u64::MAX as nat
            }
        },
{
    lemma_single_payload(vocabulary, payload);
    let choices = payload.choices@;
    if choices.len() == 1 {
        assert(choices.drop_last() =~= Seq::empty());
        assert(choice_tokens(vocabulary, choices.drop_last()) == 0);
        assert(choice_tools(choices.drop_last()) =~= Seq::empty());
        assert(choice_tools(choices) =~= named(choices[0].tool_names@));
    }
}

proof fn lemma_choice_tools_contain(choices: Seq<OpenAiChoice>, j: int, name: Seq<char>)
    requires
        0 <= j < choices.len(),
        named(choices[j].tool_names@).contains(name),
    ensures
        choice_tools(choices).contains(name),
    decreases choices.len(),
{
    let rest = choice_tools(choices.drop_last());
    let last = named(choices.last().tool_names@);
    if j < choices.len() - 1 {
        lemma_choice_tools_contain(choices.drop_last(), j, name);
        let i = choose|i: int| 0 <= i < rest.len() && rest[i] == name;
        assert((rest + last)[i] == name);
    } else {
        let i = choose|i: int| 0 <= i < last.len() && last[i] == name;
        assert((rest + last)[rest.len() + i] == name);
    }
}

/// Law: no tool call is overlooked: every tool that any call of any choice of
/// any payload names is among those that the event, or the response, calls.
pub proof fn law_no_tool_call_is_overlooked(
    vocabulary: Vocabulary,
    payloads: Seq<OpenAiPayload>,
    i: int,
    j: int,
    k: int,
)
    requires
        0 <= i < payloads.len(),
        0 <= j < payloads[i].choices@.len(),
        0 <= k < payloads[i].choices@[j].tool_names@.len(),
        payloads[i].choices@[j].tool_names@[k] is Some,
    ensures
        openai_cost(vocabulary, payloads).tool_calls.contains(
            payloads[i].choices@[j].tool_names@[k]->0@,
        ),
        openai_body_cost(Some(payloads[i])).tool_calls.contains(
            payloads[i].choices@[j].tool_names@[k]->0@,
        ),
    decreases payloads.len(),
{
    let name = payloads[i].choices@[j].tool_names@[k]->0@;
    lemma_named_contains(payloads[i].choices@[j].tool_names@, k);
    lemma_choice_tools_contain(payloads[i].choices@, j, name);
    let rest = payload_tools(payloads.drop_last());
    let last = choice_tools(payloads.last().choices@);
    if i < payloads.len() - 1 {
        law_no_tool_call_is_overlooked(vocabulary, payloads.drop_last(), i, j, k);
        let n = choose|n: int| 0 <= n < rest.len() && rest[n] == name;
        assert((rest + last)[n] == name);
    } else {
        let n = choose|n: int| 0 <= n < last.len() && last[n] == name;
        assert((rest + last)[rest.len() + n] == name);
    }
}

/// Law: a complete response costs what it states, and calls the tools that its
/// choices do; one that cannot be read costs and calls nothing.
pub proof fn law_a_response_costs_what_it_states(vocabulary: Vocabulary, payload: OpenAiPayload)
    ensures
        openai_body_cost(Some(payload)).total_tokens == payload.total_tokens,
        openai_body_cost(Some(payload)).tool_calls == openai_cost(
            vocabulary,
            seq![payload],
        ).tool_calls,
        openai_body_cost(None).total_tokens is None,
        openai_body_cost(None).tool_calls.len() == 0,
{
    lemma_single_payload(vocabulary, payload);
}

/// Law: the payloads of an event are all read, in order, but for the marker that
/// ends a stream.
pub proof fn law_only_the_end_marker_is_skipped(
    event: Seq<u8>,
    shorter: Seq<u8>,
    payload: Seq<char>,
)
    ensures
        payloads_of(event).len() == 0 ==> openai_payloads(event).len() == 0,
        payloads_of(event) == payloads_of(shorter).push(payload) ==> openai_payloads(event)
            == if is_done_marker(payload) {
            openai_payloads(shorter)
        } else {
            openai_payloads(shorter).push(payload)
        },
{
    reveal(Seq::filter);
    if payloads_of(event) == payloads_of(shorter).push(payload) {
        assert(payloads_of(shorter).push(payload).drop_last() =~= payloads_of(shorter));
    }
}

/// Law: an event costs what its payloads cost as the decoder reads them. Where
/// the decoder can read each payload in one way only, those that it can read at
/// all make up the cost, and the adapter is as before.
pub proof fn law_events_cost_what_is_read<D: PayloadDecoder>(
    adapter: OpenAiAdapter<D>,
    raw: Seq<u8>,
    cost: ChunkCostModel,
    after: OpenAiAdapter<D>,
    read: Seq<Option<OpenAiPayload>>,
)
    requires
        adapter.prices_event(raw, cost, after),
        read.len() == openai_payloads(raw).len(),
        forall|i: int, text: &str, one: Option<OpenAiPayload>|
            #![trigger read[i], call_ensures(D::openai_payload, (&adapter.decoder(), text), one)]
            0 <= i < read.len() && text@ == openai_payloads(raw)[i] && call_ensures(
                D::openai_payload,
                (&adapter.decoder(), text),
                one,
            ) ==> one == read[i],
    ensures
        cost == openai_cost(adapter.vocabulary(), present(read)),
        after == adapter,
{
    let payloads = openai_payloads(raw);
    let found = choose|found: Seq<Option<OpenAiPayload>>| #[trigger]
        read_by(adapter.decoder(), payloads, found) && cost == openai_cost(
            adapter.vocabulary(),
            present(found),
        );
    assert forall|i: int| 0 <= i < read.len() implies found[i] == #[trigger] read[i] by {
        assert(decodes(adapter.decoder(), payloads[i], found[i]));
    }
    assert(found =~= read);
}

/// Law: a complete response costs what it costs as the decoder reads it.
pub proof fn law_responses_cost_what_is_read<D: PayloadDecoder>(
    adapter: OpenAiAdapter<D>,
    body: Seq<u8>,
    cost: NonStreamingModel,
    read: Option<OpenAiPayload>,
)
    requires
        adapter.prices_body(body, cost),
        forall|bytes: &[u8], one: Option<OpenAiPayload>|
            bytes@ == body && #[trigger] call_ensures(
                D::openai_body,
                (&adapter.decoder(), bytes),
                one,
            ) ==> one == read,
    ensures
        cost == openai_body_cost(read),
{
}

} // verus!
