//! Holds a streamed response to its tenant's budget and policy.

pub mod frames;
pub mod stream;

use vstd::prelude::*;
use vstd::string::*;
use vstd::utf8::*;

use crate::budget::sliding_window::{added, law_total_lies_between_counts};
use crate::budget::{
    counter_of, law_recording_charges_in_full, recorded, usage, BudgetRegistry, RegistryModel,
};
use crate::error::WeirError;
use crate::provider::{capped, ChunkCost, ChunkCostModel, Provider};
use crate::telemetry::{pushed, EventLog, EventModel, UsageEvent, UsageOutcome};
use crate::text::{contains_text, copy_optional, copy_texts, optional_text, texts};

pub use frames::SseFrameBuffer;
pub use stream::{enforce, EnforcedStream, Step};

verus! {

/// The event that ends a stream whose tenant's budget is used up.
pub const BUDGET_EXCEEDED_EVENT: &'static str =
    "event: error\ndata: {\"error\":\"budget_exceeded\"}\n\n";

/// The event that ends a stream that invokes a blocked tool. It names the tool
/// and nothing else of the call.
pub open spec fn policy_violation_text(tool: Seq<char>) -> Seq<char> {
    "event: error\ndata: {\"error\":\"policy_violation\",\"tool\":\""@ + tool + "\"}\n\n"@
}

/// The rule that a blocked tool breaks, as the event log names it.
pub open spec fn blocked_tool_rule(tool: Seq<char>) -> Seq<char> {
    "blocked_tool:"@ + tool
}

fn bytes_of(text: &str) -> (bytes: Vec<u8>)
    ensures
        bytes@ == encode_utf8(text@),
{
    vstd::slice::slice_to_vec(text.as_bytes())
}

/// The event that ends a stream that invokes a blocked tool.
pub fn policy_violation_event(tool: &str) -> (bytes: Vec<u8>)
    ensures
        bytes@ == encode_utf8(policy_violation_text(tool@)),
{
    let mut text = String::new();
    text.append("event: error\ndata: {\"error\":\"policy_violation\",\"tool\":\"");
    text.append(tool);
    text.append("\"}\n\n");
    assert(text@ =~= policy_violation_text(tool@));
    bytes_of(text.as_str())
}

/// The rule that a blocked tool breaks, as the event log names it.
pub(crate) fn rule_for_tool(tool: &str) -> (rule: String)
    ensures
        rule@ == blocked_tool_rule(tool@),
{
    let mut rule = String::new();
    rule.append("blocked_tool:");
    rule.append(tool);
    assert(rule@ =~= blocked_tool_rule(tool@));
    rule
}

/// Where the first blocked tool stands among `tools`; their number, if none is
/// blocked.
pub open spec fn first_blocked(tools: Seq<Seq<char>>, blocked: Seq<Seq<char>>) -> nat
    decreases tools.len(),
{
    if tools.len() == 0 || blocked.contains(tools[0]) {
        0
    } else {
        1 + first_blocked(tools.skip(1), blocked)
    }
}

/// One of `tools` is blocked.
pub open spec fn any_blocked(tools: Seq<Seq<char>>, blocked: Seq<Seq<char>>) -> bool {
    first_blocked(tools, blocked) < tools.len()
}

pub(crate) proof fn lemma_first_blocked(tools: Seq<Seq<char>>, blocked: Seq<Seq<char>>, k: nat)
    requires
        k <= tools.len(),
        forall|j: int| 0 <= j < k ==> !blocked.contains(#[trigger] tools[j]),
        k < tools.len() ==> blocked.contains(tools[k as int]),
    ensures
        first_blocked(tools, blocked) == k,
    decreases tools.len(),
{
    if tools.len() > 0 && k > 0 {
        assert(!blocked.contains(tools[0]));
        let rest = tools.skip(1);
        assert forall|j: int| 0 <= j < k - 1 implies !blocked.contains(#[trigger] rest[j]) by {
            assert(rest[j] == tools[j + 1]);
        }
        lemma_first_blocked(rest, blocked, (k - 1) as nat);
    }
}

/// Law: a list of tools is let through exactly if no blocked tool is among
/// them.
pub proof fn law_every_tool_is_checked(tools: Seq<Seq<char>>, blocked: Seq<Seq<char>>)
    ensures
        any_blocked(tools, blocked) <==> exists|i: int|
            0 <= i < tools.len() && blocked.contains(#[trigger] tools[i]),
        any_blocked(tools, blocked) ==> blocked.contains(
            tools[first_blocked(tools, blocked) as int],
        ),
    decreases tools.len(),
{
    if tools.len() > 0 {
        let rest = tools.skip(1);
        law_every_tool_is_checked(rest, blocked);
        if any_blocked(rest, blocked) {
            assert(rest[first_blocked(rest, blocked) as int] == tools[first_blocked(
                rest,
                blocked,
            ) as int + 1]);
        }
        if exists|i: int| 0 <= i < tools.len() && blocked.contains(#[trigger] tools[i]) {
            let i = choose|i: int| 0 <= i < tools.len() && blocked.contains(#[trigger] tools[i]);
            if i > 0 {
                assert(rest[i - 1] == tools[i]);
            }
        }
    }
}

/// The tools seen so far, each named once, in the order they first appeared.
pub open spec fn noted(seen: Seq<Seq<char>>, tools: Seq<Seq<char>>) -> Seq<Seq<char>>
    decreases tools.len(),
{
    if tools.len() == 0 {
        seen
    } else {
        let before = noted(seen, tools.drop_last());
        if before.contains(tools.last()) { before } else { before.push(tools.last()) }
    }
}

/// The tools that are looked at: all of them, or up to the first blocked one.
pub open spec fn looked_at(tools: Seq<Seq<char>>, blocked: Seq<Seq<char>>) -> Seq<Seq<char>> {
    if any_blocked(tools, blocked) {
        tools.take(first_blocked(tools, blocked) as int + 1)
    } else {
        tools
    }
}

/// What an event adds to what was recorded for the stream. A total that the
/// provider gives replaces what was estimated so far; only the difference is
/// recorded, and nothing is given back.
pub open spec fn delta(so_far: u64, cost: ChunkCostModel) -> u64 {
    match cost.authoritative_total {
        Some(total) => if total >= so_far { (total - so_far) as u64 } else { 0 },
        None => cost.estimated_tokens,
    }
}

/// What has been recorded for the stream after an event.
pub open spec fn running_total(so_far: u64, cost: ChunkCostModel) -> u64 {
    match cost.authoritative_total {
        Some(total) => total,
        None => capped(so_far + cost.estimated_tokens),
    }
}

/// What is known of a stream, for its one entry in the event log.
#[verifier::ext_equal]
pub struct TelemetryModel {
    pub tenant: Seq<char>,
    pub provider: Provider,
    pub model: Option<Seq<char>>,
    pub tools_seen: Seq<Seq<char>>,
    pub recorded_so_far: u64,
    pub emitted: bool,
}

/// The event that a stream leaves in the log. The log gives it its id.
pub open spec fn usage_event(
    t: TelemetryModel,
    outcome: UsageOutcome,
    rule: Option<Seq<char>>,
    now_ms: i64,
) -> EventModel {
    EventModel {
        id: 0,
        tenant: t.tenant,
        provider: t.provider,
        model: t.model,
        tools_called: t.tools_seen,
        tokens: t.recorded_so_far,
        outcome,
        rule,
        timestamp_ms: now_ms,
    }
}

/// What becomes of one event of a stream.
#[verifier::ext_equal]
pub enum Verdict {
    /// It goes on to the client.
    Forward,
    /// With it the tenant is over its ceiling.
    BudgetTrip,
    /// It invokes this blocked tool.
    PolicyTrip(Seq<char>),
    /// The tenant is no longer configured.
    UnknownTenant,
}

/// What becomes of an event that costs `cost`.
pub open spec fn verdict(
    t: TelemetryModel,
    blocked: Seq<Seq<char>>,
    budget: RegistryModel,
    cost: ChunkCostModel,
    now_ms: i64,
) -> Verdict {
    if any_blocked(cost.tool_calls, blocked) {
        Verdict::PolicyTrip(cost.tool_calls[first_blocked(cost.tool_calls, blocked) as int])
    } else if !budget.config.limits.contains_key(t.tenant) {
        Verdict::UnknownTenant
    } else if usage(
        recorded(budget, t.tenant, delta(t.recorded_so_far, cost), now_ms),
        t.tenant,
        now_ms,
    ) <= budget.config.limits[t.tenant].max_tokens {
        Verdict::Forward
    } else {
        Verdict::BudgetTrip
    }
}

/// What is known of a stream after an event that costs `cost`.
pub open spec fn accounted(
    t: TelemetryModel,
    blocked: Seq<Seq<char>>,
    cost: ChunkCostModel,
) -> TelemetryModel {
    TelemetryModel {
        tools_seen: noted(t.tools_seen, looked_at(cost.tool_calls, blocked)),
        recorded_so_far: if any_blocked(cost.tool_calls, blocked) {
            t.recorded_so_far
        } else {
            running_total(t.recorded_so_far, cost)
        },
        ..t
    }
}

/// The budgets after an event that costs `cost`. An event that invokes a
/// blocked tool costs nothing.
pub open spec fn charged(
    t: TelemetryModel,
    blocked: Seq<Seq<char>>,
    budget: RegistryModel,
    cost: ChunkCostModel,
    now_ms: i64,
) -> RegistryModel {
    if any_blocked(cost.tool_calls, blocked) {
        budget
    } else {
        recorded(budget, t.tenant, delta(t.recorded_so_far, cost), now_ms)
    }
}

/// What becomes of one event of a stream.
pub enum EventOutcome {
    /// It goes on to the client.
    Forward(Vec<u8>),
    /// With it the tenant is over its ceiling.
    BudgetTrip,
    /// It invokes this blocked tool.
    PolicyTrip(String),
}

/// `outcome` says what `verdict` says of `event`.
pub open spec fn outcome_is(
    outcome: Result<EventOutcome, WeirError>,
    verdict: Verdict,
    event: Seq<u8>,
) -> bool {
    match verdict {
        Verdict::Forward => outcome matches Ok(EventOutcome::Forward(bytes)) && bytes@ == event,
        Verdict::BudgetTrip => outcome matches Ok(EventOutcome::BudgetTrip),
        Verdict::PolicyTrip(tool) => outcome matches Ok(EventOutcome::PolicyTrip(name)) && name@
            == tool,
        Verdict::UnknownTenant => outcome matches Err(WeirError::UnknownTenant),
    }
}

/// What is known of a stream, for its one entry in the event log.
pub struct StreamTelemetry {
    tenant: String,
    provider: Provider,
    model: Option<String>,
    tools_seen: Vec<String>,
    recorded_so_far: u64,
    emitted: bool,
}

impl View for StreamTelemetry {
    type V = TelemetryModel;

    closed spec fn view(&self) -> TelemetryModel {
        TelemetryModel {
            tenant: self.tenant@,
            provider: self.provider,
            model: optional_text(self.model),
            tools_seen: texts(self.tools_seen@),
            recorded_so_far: self.recorded_so_far,
            emitted: self.emitted,
        }
    }
}

impl StreamTelemetry {
    pub fn new(tenant: String, provider: Provider, model: Option<String>) -> (telemetry: Self)
        ensures
            telemetry@ == (TelemetryModel {
                tenant: tenant@,
                provider,
                model: optional_text(model),
                tools_seen: Seq::empty(),
                recorded_so_far: 0,
                emitted: false,
            }),
    {
        let telemetry = StreamTelemetry {
            tenant,
            provider,
            model,
            tools_seen: Vec::new(),
            recorded_so_far: 0,
            emitted: false,
        };
        assert(telemetry@.tools_seen =~= Seq::empty());
        telemetry
    }

    /// Leaves the stream's event in the log, unless it was left there before.
    pub fn emit(
        &mut self,
        log: &mut EventLog,
        outcome: UsageOutcome,
        rule: Option<String>,
        now_ms: i64,
    )
        requires
            old(log).wf(),
            !old(self)@.emitted ==> old(log).has_room(),
        ensures
            final(log).wf(),
            final(self)@ == (TelemetryModel { emitted: true, ..old(self)@ }),
            final(log)@ == if old(self)@.emitted {
                old(log)@
            } else {
                pushed(
                    old(log)@,
                    usage_event(old(self)@, outcome, optional_text(rule), now_ms),
                )
            },
    {
        if self.emitted {
            return;
        }
        self.emitted = true;
        log.push(
            UsageEvent {
                id: 0,
                tenant: self.tenant.clone(),
                provider: self.provider,
                model: copy_optional(&self.model),
                tools_called: copy_texts(&self.tools_seen),
                tokens: self.recorded_so_far,
                outcome,
                rule,
                timestamp_ms: now_ms,
            },
        );
    }

    /// Notes the tools of an event up to the first blocked one, and says which
    /// that is.
    fn note_tools(&mut self, tools: &Vec<String>, blocked_tools: &Vec<String>) -> (hit: Option<
        String,
    >)
        ensures
            final(self)@ == (TelemetryModel {
                tools_seen: noted(
                    old(self)@.tools_seen,
                    looked_at(texts(tools@), texts(blocked_tools@)),
                ),
                ..old(self)@
            }),
            match hit {
                Some(tool) => any_blocked(texts(tools@), texts(blocked_tools@)) && tool@ == texts(
                    tools@,
                )[first_blocked(texts(tools@), texts(blocked_tools@)) as int],
                None => !any_blocked(texts(tools@), texts(blocked_tools@)),
            },
    {
        let ghost all = texts(tools@);
        let ghost blocked = texts(blocked_tools@);
        let mut i: usize = 0;
        assert(all.take(0) =~= Seq::empty());
        while i < tools.len()
            invariant
                i <= tools.len(),
                all == texts(tools@),
                blocked == texts(blocked_tools@),
                forall|j: int| 0 <= j < i ==> !blocked.contains(#[trigger] all[j]),
                self@ == (TelemetryModel {
                    tools_seen: noted(old(self)@.tools_seen, all.take(i as int)),
                    ..old(self)@
                }),
            decreases tools.len() - i,
        {
            let tool = &tools[i];
            assert(all[i as int] == tool@);
            assert(all.take(i + 1).drop_last() =~= all.take(i as int));
            assert(all.take(i + 1).last() == tool@);
            if !contains_text(&self.tools_seen, tool.as_str()) {
                let ghost before = self.tools_seen@;
                self.tools_seen.push(tool.clone());
                assert(texts(self.tools_seen@) =~= texts(before).push(tool@));
            }
            if contains_text(blocked_tools, tool.as_str()) {
                proof {
                    lemma_first_blocked(all, blocked, i as nat);
                }
                return Some(tool.clone());
            }
            i += 1;
        }
        proof {
            lemma_first_blocked(all, blocked, i as nat);
            assert(all.take(i as int) =~= all);
        }
        None
    }

    /// Takes one event of the stream into account, given what it costs: its
    /// tools are checked against the policy, its tokens are recorded, and only
    /// an event that passes both goes on.
    pub fn settle_event(
        &mut self,
        cost: ChunkCost,
        event: Vec<u8>,
        blocked_tools: &Vec<String>,
        budget: &mut BudgetRegistry,
        now_ms: i64,
    ) -> (outcome: Result<EventOutcome, WeirError>)
        ensures
            final(self)@ == accounted(old(self)@, texts(blocked_tools@), cost@),
            final(budget)@ == charged(
                old(self)@,
                texts(blocked_tools@),
                old(budget)@,
                cost@,
                now_ms,
            ),
            outcome_is(
                outcome,
                verdict(old(self)@, texts(blocked_tools@), old(budget)@, cost@, now_ms),
                event@,
            ),
    {
        if let Some(tool) = self.note_tools(&cost.tool_calls, blocked_tools) {
            return Ok(EventOutcome::PolicyTrip(tool));
        }
        let tokens: u64 = match cost.authoritative_total {
            Some(total) => {
                let tokens: u64 = total.saturating_sub(self.recorded_so_far);
                self.recorded_so_far = total;
                tokens
            },
            None => {
                self.recorded_so_far = self.recorded_so_far.saturating_add(cost.estimated_tokens);
                cost.estimated_tokens
            },
        };
        match budget.record(self.tenant.as_str(), tokens, now_ms) {
            Ok(true) => Ok(EventOutcome::Forward(event)),
            Ok(false) => Ok(EventOutcome::BudgetTrip),
            Err(e) => Err(e),
        }
    }
}

/// What is recorded for a stream whose events cost `costs`, all in all.
pub open spec fn recorded_in_all(so_far: u64, costs: Seq<ChunkCostModel>) -> nat
    decreases costs.len(),
{
    if costs.len() == 0 {
        0
    } else {
        recorded_in_all(so_far, costs.drop_last()) + delta(
            total_after(so_far, costs.drop_last()),
            costs.last(),
        ) as nat
    }
}

/// The running total of a stream after events that cost `costs`.
pub open spec fn total_after(so_far: u64, costs: Seq<ChunkCostModel>) -> u64
    decreases costs.len(),
{
    if costs.len() == 0 {
        so_far
    } else {
        running_total(total_after(so_far, costs.drop_last()), costs.last())
    }
}

/// Law: a total that the provider gives is never counted on top of what was
/// recorded before. As long as the totals do not fall below what was recorded
/// and the sums stay in range, what is recorded for a stream is exactly its
/// running total.
pub proof fn law_totals_are_not_counted_twice(costs: Seq<ChunkCostModel>)
    requires
        forall|i: int|
            0 <= i < costs.len() ==> match (#[trigger] costs[i]).authoritative_total {
                Some(total) => total >= total_after(0, costs.take(i)),
                None => total_after(0, costs.take(i)) + costs[i].estimated_tokens <= u64::MAX,
            },
    ensures
        recorded_in_all(0, costs) == total_after(0, costs),
    decreases costs.len(),
{
    if costs.len() > 0 {
        let rest = costs.drop_last();
        assert forall|i: int| 0 <= i < rest.len() implies match (
        #[trigger] rest[i]).authoritative_total {
            Some(total) => total >= total_after(0, rest.take(i)),
            None => total_after(0, rest.take(i)) + rest[i].estimated_tokens <= u64::MAX,
        } by {
            assert(rest[i] == costs[i]);
            assert(rest.take(i) =~= costs.take(i));
        }
        law_totals_are_not_counted_twice(rest);
        assert(costs.take(costs.len() - 1) =~= rest);
        assert(costs[costs.len() - 1] == costs.last());
    }
}

/// Law: what is recorded for a stream is never less than its running total.
pub proof fn law_no_tokens_go_unrecorded(costs: Seq<ChunkCostModel>)
    ensures
        recorded_in_all(0, costs) >= total_after(0, costs),
    decreases costs.len(),
{
    if costs.len() > 0 {
        law_no_tokens_go_unrecorded(costs.drop_last());
    }
}

/// No tool that an event invokes is blocked.
pub open spec fn allowed(tools: Seq<Seq<char>>, blocked: Seq<Seq<char>>) -> bool {
    forall|i: int| 0 <= i < tools.len() ==> !blocked.contains(#[trigger] tools[i])
}

/// Law: the tool that is held against an event is one that it invokes, it is
/// blocked, and none that it invokes before it is.
pub proof fn law_the_first_blocked_tool_is_named(
    t: TelemetryModel,
    blocked: Seq<Seq<char>>,
    budget: RegistryModel,
    cost: ChunkCostModel,
    now_ms: i64,
    k: int,
)
    requires
        0 <= k < cost.tool_calls.len(),
        blocked.contains(cost.tool_calls[k]),
        forall|j: int| 0 <= j < k ==> !blocked.contains(#[trigger] cost.tool_calls[j]),
    ensures
        verdict(t, blocked, budget, cost, now_ms) == Verdict::PolicyTrip(cost.tool_calls[k]),
        charged(t, blocked, budget, cost, now_ms) == budget,
        accounted(t, blocked, cost).recorded_so_far == t.recorded_so_far,
{
    lemma_first_blocked(cost.tool_calls, blocked, k as nat);
}

/// Law: an event that invokes no blocked tool is charged to its tenant in full
/// before anything else: the provider's total less what was recorded for the
/// stream before, if it gives one, and the estimate otherwise. The event goes
/// on exactly if the tenant is then still within its ceiling, and to no other
/// tenant is anything charged. (As long as no 32-bit count is exhausted.)
pub proof fn law_events_are_charged_before_they_go_on(
    t: TelemetryModel,
    blocked: Seq<Seq<char>>,
    budget: RegistryModel,
    cost: ChunkCostModel,
    now_ms: i64,
    charge: int,
    other: Seq<char>,
)
    requires
        allowed(cost.tool_calls, blocked),
        charge == match cost.authoritative_total {
            Some(total) => if total > t.recorded_so_far { total - t.recorded_so_far } else { 0 },
            None => cost.estimated_tokens as int,
        },
        budget.config.limits.contains_key(t.tenant),
        counter_of(budget, t.tenant).latest_ms <= now_ms,
        usage(budget, t.tenant, now_ms) + charge <= u32::MAX,
        other != t.tenant,
    ensures
        usage(charged(t, blocked, budget, cost, now_ms), t.tenant, now_ms) == usage(
            budget,
            t.tenant,
            now_ms,
        ) + charge,
        usage(charged(t, blocked, budget, cost, now_ms), other, now_ms) == usage(
            budget,
            other,
            now_ms,
        ),
        verdict(t, blocked, budget, cost, now_ms) == if usage(budget, t.tenant, now_ms) + charge
            <= budget.config.limits[t.tenant].max_tokens {
            Verdict::Forward
        } else {
            Verdict::BudgetTrip
        },
{
    lemma_first_blocked(cost.tool_calls, blocked, cost.tool_calls.len());
    law_recording_charges_in_full(budget, t.tenant, other, charge as u64, now_ms);
}

/// Law: an event of a tenant that is no longer configured does not go on, and
/// changes no budget.
pub proof fn law_events_of_unknown_tenants_do_not_go_on(
    t: TelemetryModel,
    blocked: Seq<Seq<char>>,
    budget: RegistryModel,
    cost: ChunkCostModel,
    now_ms: i64,
)
    requires
        allowed(cost.tool_calls, blocked),
        !budget.config.limits.contains_key(t.tenant),
    ensures
        verdict(t, blocked, budget, cost, now_ms) == Verdict::UnknownTenant,
        charged(t, blocked, budget, cost, now_ms) == budget,
{
    lemma_first_blocked(cost.tool_calls, blocked, cost.tool_calls.len());
}

/// Law: what is known of a stream after an event that invokes no blocked tool:
/// its running total is the provider's total, if it gives one, and else grows
/// by the estimate; whom it belongs to does not change.
pub proof fn law_the_running_total_follows_the_provider(
    t: TelemetryModel,
    blocked: Seq<Seq<char>>,
    cost: ChunkCostModel,
)
    ensures
        allowed(cost.tool_calls, blocked) ==> match cost.authoritative_total {
            Some(total) => accounted(t, blocked, cost).recorded_so_far == total,
            None => accounted(t, blocked, cost).recorded_so_far == if t.recorded_so_far
                + cost.estimated_tokens <= u64::MAX {
                t.recorded_so_far + cost.estimated_tokens
            } else {
                u64::MAX as int
            },
        },
        accounted(t, blocked, cost).tenant == t.tenant,
        accounted(t, blocked, cost).provider == t.provider,
        accounted(t, blocked, cost).model == t.model,
        accounted(t, blocked, cost).emitted == t.emitted,
{
    if allowed(cost.tool_calls, blocked) {
        lemma_first_blocked(cost.tool_calls, blocked, cost.tool_calls.len());
    }
}

proof fn lemma_noted_of_concatenation(seen: Seq<Seq<char>>, a: Seq<Seq<char>>, b: Seq<Seq<char>>)
    ensures
        noted(seen, a + b) == noted(noted(seen, a), b),
    decreases b.len(),
{
    if b.len() == 0 {
        assert(a + b =~= a);
    } else {
        assert((a + b).drop_last() =~= a + b.drop_last());
        lemma_noted_of_concatenation(seen, a, b.drop_last());
    }
}

/// Law: tools are noted one after the other, each at its first appearance, and
/// none twice.
pub proof fn law_tools_are_noted_once(
    seen: Seq<Seq<char>>,
    a: Seq<Seq<char>>,
    b: Seq<Seq<char>>,
    tool: Seq<char>,
)
    ensures
        noted(seen, Seq::empty()) == seen,
        noted(seen, a + b) == noted(noted(seen, a), b),
        seen.contains(tool) ==> noted(seen, seq![tool]) == seen,
        !seen.contains(tool) ==> noted(seen, seq![tool]) == seen.push(tool),
{
    lemma_noted_of_concatenation(seen, a, b);
    assert(seq![tool].drop_last() =~= Seq::empty());
    assert(noted(seen, seq![tool].drop_last()) == seen);
}

/// Law: the tools of an event are all noted if none is blocked, and else up to
/// and with the first that is.
pub proof fn law_tools_are_noted_up_to_a_blocked_one(
    t: TelemetryModel,
    blocked: Seq<Seq<char>>,
    cost: ChunkCostModel,
    k: int,
)
    requires
        0 <= k <= cost.tool_calls.len(),
        k < cost.tool_calls.len() ==> blocked.contains(cost.tool_calls[k]),
        forall|j: int| 0 <= j < k ==> !blocked.contains(#[trigger] cost.tool_calls[j]),
    ensures
        accounted(t, blocked, cost).tools_seen == noted(
            t.tools_seen,
            if k < cost.tool_calls.len() {
                cost.tool_calls.take(k + 1)
            } else {
                cost.tool_calls
            },
        ),
{
    lemma_first_blocked(cost.tool_calls, blocked, k as nat);
}

/// What a stream has cost after events that cost `costs`: the last total of the
/// provider and the estimates since.
pub open spec fn bill(costs: Seq<ChunkCostModel>) -> int
    decreases costs.len(),
{
    if costs.len() == 0 {
        0
    } else {
        match costs.last().authoritative_total {
            Some(total) => total as int,
            None => bill(costs.drop_last()) + costs.last().estimated_tokens,
        }
    }
}

/// The stream's account and the budgets after events that cost `costs`.
pub open spec fn settled_all(
    t: TelemetryModel,
    blocked: Seq<Seq<char>>,
    budget: RegistryModel,
    costs: Seq<ChunkCostModel>,
    now_ms: i64,
) -> (TelemetryModel, RegistryModel)
    decreases costs.len(),
{
    if costs.len() == 0 {
        (t, budget)
    } else {
        let (before, held) = settled_all(t, blocked, budget, costs.drop_last(), now_ms);
        (
            accounted(before, blocked, costs.last()),
            charged(before, blocked, held, costs.last(), now_ms),
        )
    }
}

/// Law: a tenant is charged for a stream exactly what the stream has cost, event
/// by event: after events that invoke no blocked tool and whose totals never
/// fall behind, its usage is higher by the bill, and the bill is what the
/// stream's account shows. (As long as no 32-bit count is exhausted.)
pub proof fn law_a_stream_is_charged_its_bill(
    t: TelemetryModel,
    blocked: Seq<Seq<char>>,
    budget: RegistryModel,
    costs: Seq<ChunkCostModel>,
    now_ms: i64,
)
    requires
        t.recorded_so_far == 0,
        budget.config.limits.contains_key(t.tenant),
        counter_of(budget, t.tenant).latest_ms <= now_ms,
        forall|i: int|
            0 <= i < costs.len() ==> allowed((#[trigger] costs[i]).tool_calls, blocked) && (
            costs[i].authoritative_total matches Some(total) ==> bill(costs.take(i)) <= total),
        usage(budget, t.tenant, now_ms) + bill(costs) <= u32::MAX,
    ensures
        ({
            let (after, held) = settled_all(t, blocked, budget, costs, now_ms);
            &&& usage(held, t.tenant, now_ms) == usage(budget, t.tenant, now_ms) + bill(costs)
            &&& after.recorded_so_far == bill(costs)
        }),
{
    lemma_bill(t, blocked, budget, costs, now_ms);
}

proof fn lemma_bill(
    t: TelemetryModel,
    blocked: Seq<Seq<char>>,
    budget: RegistryModel,
    costs: Seq<ChunkCostModel>,
    now_ms: i64,
)
    requires
        t.recorded_so_far == 0,
        budget.config.limits.contains_key(t.tenant),
        counter_of(budget, t.tenant).latest_ms <= now_ms,
        forall|i: int|
            0 <= i < costs.len() ==> allowed((#[trigger] costs[i]).tool_calls, blocked) && (
            costs[i].authoritative_total matches Some(total) ==> bill(costs.take(i)) <= total),
        usage(budget, t.tenant, now_ms) + bill(costs) <= u32::MAX,
    ensures
        ({
            let (after, held) = settled_all(t, blocked, budget, costs, now_ms);
            &&& after.tenant == t.tenant
            &&& held.config == budget.config
            &&& counter_of(held, t.tenant).latest_ms <= now_ms
            &&& usage(held, t.tenant, now_ms) == usage(budget, t.tenant, now_ms) + bill(costs)
            &&& after.recorded_so_far == bill(costs)
            &&& 0 <= bill(costs)
        }),
    decreases costs.len(),
{
    law_total_lies_between_counts(counter_of(budget, t.tenant), now_ms as int);
    if costs.len() > 0 {
        let rest = costs.drop_last();
        let last = costs.last();
        assert(costs[costs.len() - 1] == last);
        assert(costs.take(costs.len() - 1) =~= rest);
        assert forall|i: int| 0 <= i < rest.len() implies allowed(
            (#[trigger] rest[i]).tool_calls,
            blocked,
        ) && (rest[i].authoritative_total matches Some(total) ==> bill(rest.take(i)) <= total) by {
            assert(rest[i] == costs[i]);
            assert(rest.take(i) =~= costs.take(i));
        }
        lemma_bill(t, blocked, budget, rest, now_ms);
        let (before, held) = settled_all(t, blocked, budget, rest, now_ms);
        let charge = bill(costs) - bill(rest);
        let other = t.tenant.push('x');
        assert(other.len() != t.tenant.len());
        law_events_are_charged_before_they_go_on(
            before,
            blocked,
            held,
            last,
            now_ms,
            charge,
            other,
        );
        law_the_running_total_follows_the_provider(before, blocked, last);
        lemma_first_blocked(last.tool_calls, blocked, last.tool_calls.len());
    }
}

/// Law: the client is told that the budget is used up, or which tool is blocked,
/// and nothing else.
pub proof fn law_trip_events_say_what_happened(tool: Seq<char>)
    ensures
        BUDGET_EXCEEDED_EVENT@ == "event: error\ndata: {\"error\":\"budget_exceeded\"}\n\n"@,
        policy_violation_text(tool)
            == "event: error\ndata: {\"error\":\"policy_violation\",\"tool\":\""@ + tool
            + "\"}\n\n"@,
        blocked_tool_rule(tool) == "blocked_tool:"@ + tool,
{
}

/// Law: an outcome says what the verdict says, and hands the event on only where
/// the verdict is to.
pub proof fn law_outcomes_follow_verdicts(
    outcome: Result<EventOutcome, WeirError>,
    verdict: Verdict,
    event: Seq<u8>,
)
    requires
        outcome_is(outcome, verdict, event),
    ensures
        verdict == Verdict::Forward <==> (outcome is Ok && outcome->Ok_0 is Forward),
        outcome matches Ok(EventOutcome::Forward(bytes)) ==> bytes@ == event,
        verdict == Verdict::BudgetTrip <==> (outcome is Ok && outcome->Ok_0 is BudgetTrip),
        verdict is PolicyTrip <==> (outcome is Ok && outcome->Ok_0 is PolicyTrip),
        outcome matches Ok(EventOutcome::PolicyTrip(tool)) ==> verdict == Verdict::PolicyTrip(
            tool@,
        ),
        verdict == Verdict::UnknownTenant <==> outcome is Err,
        outcome matches Err(e) ==> e == WeirError::UnknownTenant,
{
}

/// Law: an event of a configured tenant that invokes no blocked tool goes on
/// exactly if the tenant, with the event charged, is within its ceiling,
/// however large the event is; and no event is too large to be charged for, as
/// far as a 32-bit count can show.
pub proof fn law_large_events_are_not_waved_through(
    t: TelemetryModel,
    blocked: Seq<Seq<char>>,
    budget: RegistryModel,
    cost: ChunkCostModel,
    now_ms: i64,
    charge: int,
)
    requires
        allowed(cost.tool_calls, blocked),
        charge == match cost.authoritative_total {
            Some(total) => if total > t.recorded_so_far { total - t.recorded_so_far } else { 0 },
            None => cost.estimated_tokens as int,
        },
        budget.config.limits.contains_key(t.tenant),
        counter_of(budget, t.tenant).latest_ms <= now_ms,
    ensures
        usage(charged(t, blocked, budget, cost, now_ms), t.tenant, now_ms) >= if charge
            <= u32::MAX {
            charge
        } else {
            u32::MAX as int
        },
        verdict(t, blocked, budget, cost, now_ms) == if usage(
            charged(t, blocked, budget, cost, now_ms),
            t.tenant,
            now_ms,
        ) <= budget.config.limits[t.tenant].max_tokens {
            Verdict::Forward
        } else {
            Verdict::BudgetTrip
        },
{
    lemma_first_blocked(cost.tool_calls, blocked, cost.tool_calls.len());
    let counter = counter_of(budget, t.tenant);
    let after = added(counter, charge as u64, now_ms as int);
    vstd::arithmetic::div_mod::lemma_div_is_ordered(
        counter.latest_ms,
        now_ms as int,
        counter.window_ms,
    );
    law_total_lies_between_counts(after, now_ms as int);
}

/// Law: whenever an event that invokes no blocked tool comes in, even behind the
/// clock, its charge is recorded for its tenant, and it goes on exactly if the
/// tenant has a budget and is then within it.
pub proof fn law_every_event_is_recorded(
    t: TelemetryModel,
    blocked: Seq<Seq<char>>,
    budget: RegistryModel,
    cost: ChunkCostModel,
    now_ms: i64,
)
    requires
        allowed(cost.tool_calls, blocked),
    ensures
        ({
            let charge = match cost.authoritative_total {
                Some(total) => if total > t.recorded_so_far { total - t.recorded_so_far } else { 0 },
                None => cost.estimated_tokens as int,
            };
            let after = recorded(budget, t.tenant, charge as u64, now_ms);
            &&& charged(t, blocked, budget, cost, now_ms) == after
            &&& verdict(t, blocked, budget, cost, now_ms) == Verdict::Forward
                <==> budget.config.limits.contains_key(t.tenant) && usage(after, t.tenant, now_ms)
                <= budget.config.limits[t.tenant].max_tokens
        }),
{
    lemma_first_blocked(cost.tool_calls, blocked, cost.tool_calls.len());
}

} // verus!
