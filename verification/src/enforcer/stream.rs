//! One streamed response on its way to the client.

use std::collections::VecDeque;

use vstd::prelude::*;
use vstd::utf8::*;

use super::frames::{
    byte_views, events_of, joined, law_events_end_at_the_first_blank_line, law_no_byte_is_lost,
    lemma_events_of_concatenation, lemma_joined_concatenation, lemma_joined_single, rest_of,
    SseFrameBuffer,
};
use super::{
    accounted, allowed, any_blocked, blocked_tool_rule, bytes_of, charged, policy_violation_event,
    policy_violation_text, rule_for_tool, usage_event, verdict, EventOutcome, StreamTelemetry,
    TelemetryModel, Verdict, BUDGET_EXCEEDED_EVENT,
};
use crate::budget::{counter_of, usage, BudgetRegistry, RegistryModel};
use crate::error::WeirError;
use crate::provider::anthropic::anthropic_cost;
use crate::provider::openai::openai_cost;
use crate::provider::{
    AnthropicEvent, ChunkCost, ChunkCostModel, OpenAiPayload, Provider, ProviderAdapter, Vocabulary,
};
use crate::telemetry::{log_ok, pushed, EventLog, EventModel, LogModel, UsageOutcome};
use crate::text::{optional_text, texts};

verus! {

/// How far a stream has come.
enum Phase {
    Reading,
    Ended,
    Closing { outcome: UsageOutcome, rule: Option<String> },
    Finished,
}

/// How far a stream has come.
#[verifier::ext_equal]
pub enum PhaseModel {
    /// The upstream provider is still sending.
    Reading,
    /// The upstream provider has sent everything.
    Ended,
    /// The last thing was handed out; what is left is to log how it ended.
    Closing { outcome: UsageOutcome, rule: Option<Seq<char>> },
    /// The stream is over.
    Finished,
}

/// A stream: what is known of it, the tools that its tenant may not use, the
/// complete events that wait to be looked at, the bytes of an event that is
/// not complete, and how far it has come.
#[verifier::ext_equal]
pub struct StreamModel {
    pub telemetry: TelemetryModel,
    pub blocked: Seq<Seq<char>>,
    pub pending: Seq<Seq<u8>>,
    pub held: Seq<u8>,
    pub phase: PhaseModel,
}

/// What a stream asks for next.
pub enum Step {
    /// Send these bytes, an event as it came in.
    Forward(Vec<u8>),
    /// Send these bytes, the error event that ends the stream.
    Trip(Vec<u8>),
    /// Report this error.
    Fail(WeirError),
    /// Hand in what the upstream provider sends next.
    AwaitUpstream,
    /// Nothing: the stream is over.
    Finished,
}

/// What a stream asks for next.
#[verifier::ext_equal]
pub enum StepModel {
    Forward(Seq<u8>),
    Trip(Seq<u8>),
    Fail(WeirError),
    AwaitUpstream,
    Finished,
}

impl View for Step {
    type V = StepModel;

    open spec fn view(&self) -> StepModel {
        match self {
            Step::Forward(bytes) => StepModel::Forward(bytes@),
            Step::Trip(bytes) => StepModel::Trip(bytes@),
            Step::Fail(e) => StepModel::Fail(*e),
            Step::AwaitUpstream => StepModel::AwaitUpstream,
            Step::Finished => StepModel::Finished,
        }
    }
}

/// A stream of which nothing has come in yet.
pub open spec fn opened(
    tenant: Seq<char>,
    provider: Provider,
    model: Option<Seq<char>>,
    blocked: Seq<Seq<char>>,
) -> StreamModel {
    StreamModel {
        telemetry: TelemetryModel {
            tenant,
            provider,
            model,
            tools_seen: Seq::empty(),
            recorded_so_far: 0,
            emitted: false,
        },
        blocked,
        pending: Seq::empty(),
        held: Seq::empty(),
        phase: PhaseModel::Reading,
    }
}

/// The stream after more bytes came in. Bytes that come in too late are
/// dropped.
pub open spec fn received(m: StreamModel, raw: Seq<u8>) -> StreamModel {
    if m.phase is Reading {
        StreamModel {
            pending: m.pending + events_of(m.held + raw),
            held: rest_of(m.held + raw),
            ..m
        }
    } else {
        m
    }
}

/// The stream after the upstream provider has sent everything. What is left of
/// an event that never became complete counts as one.
pub open spec fn ended(m: StreamModel) -> StreamModel {
    if m.phase is Reading {
        StreamModel {
            pending: if m.held.len() == 0 { m.pending } else { m.pending.push(m.held) },
            held: Seq::empty(),
            phase: PhaseModel::Ended,
            ..m
        }
    } else {
        m
    }
}

/// The stream after the upstream provider failed.
pub open spec fn failed(m: StreamModel) -> StreamModel {
    if m.phase is Reading {
        StreamModel {
            phase: PhaseModel::Closing { outcome: UsageOutcome::UpstreamError, rule: None },
            ..m
        }
    } else {
        m
    }
}

/// The stream when it is over and its event is in the log.
pub open spec fn finished(m: StreamModel) -> StreamModel {
    StreamModel {
        telemetry: TelemetryModel { emitted: true, ..m.telemetry },
        phase: PhaseModel::Finished,
        ..m
    }
}

/// There is an event to be looked at next.
pub open spec fn has_event(m: StreamModel) -> bool {
    (m.phase is Reading || m.phase is Ended) && m.pending.len() > 0
}

/// If there is an event to be looked at next, `cost` is what `adapter` may say
/// that it costs, and `after` is the adapter then. If there is none, the adapter
/// is not asked and stays as it is.
pub open spec fn may_cost<A: ProviderAdapter>(
    adapter: A,
    m: StreamModel,
    cost: ChunkCostModel,
    after: A,
) -> bool {
    if has_event(m) {
        adapter.prices_event(m.pending[0], cost, after)
    } else {
        after == adapter
    }
}

/// How far a stream has come once its next event was judged.
pub open spec fn phase_after(phase: PhaseModel, verdict: Verdict) -> PhaseModel {
    match verdict {
        Verdict::Forward => phase,
        Verdict::BudgetTrip => PhaseModel::Closing {
            outcome: UsageOutcome::BudgetBlocked,
            rule: None,
        },
        Verdict::PolicyTrip(tool) => PhaseModel::Closing {
            outcome: UsageOutcome::PolicyBlocked,
            rule: Some(blocked_tool_rule(tool)),
        },
        Verdict::UnknownTenant => PhaseModel::Closing {
            outcome: UsageOutcome::UpstreamError,
            rule: None,
        },
    }
}

/// What the client gets for an event that was judged.
pub open spec fn handed_on(event: Seq<u8>, verdict: Verdict) -> StepModel {
    match verdict {
        Verdict::Forward => StepModel::Forward(event),
        Verdict::BudgetTrip => StepModel::Trip(encode_utf8(BUDGET_EXCEEDED_EVENT@)),
        Verdict::PolicyTrip(tool) => StepModel::Trip(encode_utf8(policy_violation_text(tool))),
        Verdict::UnknownTenant => StepModel::Fail(WeirError::UnknownTenant),
    }
}

/// The stream after one step, if its next event costs `cost`.
pub open spec fn stepped(
    m: StreamModel,
    budget: RegistryModel,
    cost: ChunkCostModel,
    now_ms: i64,
) -> StreamModel {
    if has_event(m) {
        StreamModel {
            telemetry: accounted(m.telemetry, m.blocked, cost),
            pending: m.pending.skip(1),
            phase: phase_after(
                m.phase,
                verdict(m.telemetry, m.blocked, budget, cost, now_ms),
            ),
            ..m
        }
    } else if m.phase is Reading || m.phase is Finished {
        m
    } else {
        finished(m)
    }
}

/// What one step asks for, if the next event costs `cost`.
pub open spec fn output(
    m: StreamModel,
    budget: RegistryModel,
    cost: ChunkCostModel,
    now_ms: i64,
) -> StepModel {
    if has_event(m) {
        handed_on(m.pending[0], verdict(m.telemetry, m.blocked, budget, cost, now_ms))
    } else if m.phase is Reading {
        StepModel::AwaitUpstream
    } else {
        StepModel::Finished
    }
}

/// The budgets after one step, if the next event costs `cost`.
pub open spec fn budget_after(
    m: StreamModel,
    budget: RegistryModel,
    cost: ChunkCostModel,
    now_ms: i64,
) -> RegistryModel {
    if has_event(m) {
        charged(m.telemetry, m.blocked, budget, cost, now_ms)
    } else {
        budget
    }
}

/// What one step leaves in the log, if anything.
pub open spec fn logged(m: StreamModel, now_ms: i64) -> Option<EventModel> {
    if m.telemetry.emitted || has_event(m) {
        None
    } else {
        match m.phase {
            PhaseModel::Closing { outcome, rule } => Some(
                usage_event(m.telemetry, outcome, rule, now_ms),
            ),
            PhaseModel::Ended => Some(
                usage_event(m.telemetry, UsageOutcome::Completed, None, now_ms),
            ),
            _ => None,
        }
    }
}

/// What a stream that is given up leaves in the log, if anything.
pub open spec fn logged_by_close(m: StreamModel, now_ms: i64) -> Option<EventModel> {
    if m.telemetry.emitted {
        None
    } else {
        Some(usage_event(m.telemetry, UsageOutcome::Incomplete, None, now_ms))
    }
}

/// The log after what may have been left in it.
pub open spec fn log_after(log: LogModel, event: Option<EventModel>) -> LogModel {
    match event {
        Some(event) => pushed(log, event),
        None => log,
    }
}

/// A stream is over once its event is in the log, and not before.
pub open spec fn stream_ok(m: StreamModel) -> bool {
    m.telemetry.emitted <==> m.phase is Finished
}

/// A streamed response on its way to the client, held to its tenant's budget
/// and policy event by event. What the upstream provider sends is handed in
/// with `receive`, `upstream_ended` and `upstream_failed`; `step` says what to
/// do next. An event is handed on only after its tokens were recorded and its
/// tools checked.
pub struct EnforcedStream<A: ProviderAdapter> {
    telemetry: StreamTelemetry,
    adapter: A,
    blocked_tools: Vec<String>,
    frames: SseFrameBuffer,
    pending: VecDeque<Vec<u8>>,
    phase: Phase,
}

impl<A: ProviderAdapter> View for EnforcedStream<A> {
    type V = StreamModel;

    closed spec fn view(&self) -> StreamModel {
        StreamModel {
            telemetry: self.telemetry@,
            blocked: texts(self.blocked_tools@),
            pending: byte_views(self.pending@),
            held: self.frames@,
            phase: match self.phase {
                Phase::Reading => PhaseModel::Reading,
                Phase::Ended => PhaseModel::Ended,
                Phase::Closing { outcome, rule } => PhaseModel::Closing {
                    outcome,
                    rule: optional_text(rule),
                },
                Phase::Finished => PhaseModel::Finished,
            },
        }
    }
}

/// Opens a stream of which nothing has come in yet.
pub fn enforce<A: ProviderAdapter>(
    tenant: String,
    provider: Provider,
    model: Option<String>,
    adapter: A,
    blocked_tools: Vec<String>,
) -> (stream: EnforcedStream<A>)
    ensures
        stream@ == opened(tenant@, provider, optional_text(model), texts(blocked_tools@)),
        stream.adapter() == adapter,
{
    let stream = EnforcedStream {
        telemetry: StreamTelemetry::new(tenant, provider, model),
        adapter,
        blocked_tools,
        frames: SseFrameBuffer::new(),
        pending: VecDeque::new(),
        phase: Phase::Reading,
    };
    assert(stream@.pending =~= Seq::empty());
    stream
}

impl<A: ProviderAdapter> EnforcedStream<A> {
    /// What prices the events.
    pub closed spec fn adapter(&self) -> A {
        self.adapter
    }

    /// Takes in what the upstream provider sent. Bytes that come in after the
    /// end are dropped.
    pub fn receive(&mut self, raw: &[u8])
        ensures
            final(self)@ == received(old(self)@, raw@),
            final(self).adapter() == old(self).adapter(),
    {
        if let Phase::Reading = self.phase {
            let events = self.frames.push(raw);
            let ghost before = self.pending@;
            let ghost all = events@;
            for event in it: events
                invariant
                    it.seq() == all,
                    self.pending@ == before + all.take(it.index() as int),
                    self.telemetry == old(self).telemetry,
                    self.adapter == old(self).adapter,
                    self.blocked_tools == old(self).blocked_tools,
                    self.frames@ == rest_of(old(self).frames@ + raw@),
                    self.phase == old(self).phase,
            {
                self.pending.push_back(event);
                assert(self.pending@ =~= before + all.take(it.index() + 1));
            }
            assert(all.take(all.len() as int) =~= all);
            assert(byte_views(self.pending@) =~= byte_views(before) + byte_views(all));
        }
    }

    /// Takes in that the upstream provider has sent everything.
    pub fn upstream_ended(&mut self)
        ensures
            final(self)@ == ended(old(self)@),
            final(self).adapter() == old(self).adapter(),
    {
        if let Phase::Reading = self.phase {
            if let Some(event) = self.frames.flush() {
                let ghost before = self.pending@;
                self.pending.push_back(event);
                assert(byte_views(self.pending@) =~= byte_views(before).push(event@));
            }
            self.phase = Phase::Ended;
        }
    }

    /// Takes in that the upstream provider failed, and hands back the error to
    /// report.
    pub fn upstream_failed(&mut self, cause: String) -> (e: WeirError)
        ensures
            e == WeirError::Upstream(cause),
            final(self)@ == failed(old(self)@),
            final(self).adapter() == old(self).adapter(),
    {
        if let Phase::Reading = self.phase {
            self.phase = Phase::Closing { outcome: UsageOutcome::UpstreamError, rule: None };
        }
        WeirError::Upstream(cause)
    }

    /// Whether there is an event to be looked at next.
    pub fn has_event(&self) -> (there: bool)
        ensures
            there == has_event(self@),
    {
        match self.phase {
            Phase::Reading => self.pending.len() > 0,
            Phase::Ended => self.pending.len() > 0,
            _ => false,
        }
    }

    /// What the next event costs, for `step_with`; nothing, if there is none.
    /// Each event is to be priced once, since an adapter remembers what it has
    /// read.
    pub fn price(&mut self) -> (cost: ChunkCost)
        ensures
            may_cost(old(self).adapter(), old(self)@, cost@, final(self).adapter()),
            final(self)@ == old(self)@,
    {
        if self.has_event() {
            self.adapter.chunk_cost(self.pending[0].as_slice())
        } else {
            ChunkCost {
                estimated_tokens: 0,
                authoritative_total: None,
                tool_calls: Vec::new(),
            }
        }
    }

    /// One step of the stream.
    pub fn step(&mut self, budget: &mut BudgetRegistry, log: &mut EventLog, now_ms: i64) -> (step:
        Step)
        requires
            old(log).wf(),
            logged(old(self)@, now_ms) is Some ==> old(log).has_room(),
        ensures
            final(log).wf(),
            exists|cost: ChunkCostModel|
                {
                    &&& #[trigger] may_cost(
                        old(self).adapter(),
                        old(self)@,
                        cost,
                        final(self).adapter(),
                    )
                    &&& final(self)@ == stepped(old(self)@, old(budget)@, cost, now_ms)
                    &&& step@ == output(old(self)@, old(budget)@, cost, now_ms)
                    &&& final(budget)@ == budget_after(old(self)@, old(budget)@, cost, now_ms)
                },
            final(log)@ == log_after(old(log)@, logged(old(self)@, now_ms)),
    {
        let cost = self.price();
        assert(may_cost(old(self).adapter(), old(self)@, cost@, self.adapter()));
        self.step_with(cost, budget, log, now_ms)
    }

    /// One step of the stream, if its next event costs `cost`.
    pub fn step_with(
        &mut self,
        cost: ChunkCost,
        budget: &mut BudgetRegistry,
        log: &mut EventLog,
        now_ms: i64,
    ) -> (step: Step)
        requires
            old(log).wf(),
            logged(old(self)@, now_ms) is Some ==> old(log).has_room(),
        ensures
            final(log).wf(),
            final(self)@ == stepped(old(self)@, old(budget)@, cost@, now_ms),
            final(self).adapter() == old(self).adapter(),
            step@ == output(old(self)@, old(budget)@, cost@, now_ms),
            final(budget)@ == budget_after(old(self)@, old(budget)@, cost@, now_ms),
            final(log)@ == log_after(old(log)@, logged(old(self)@, now_ms)),
    {
        if self.has_event() {
            return self.judge(cost, budget, now_ms);
        }
        let mut phase = Phase::Finished;
        std::mem::swap(&mut phase, &mut self.phase);
        match phase {
            Phase::Reading => {
                self.phase = Phase::Reading;
                Step::AwaitUpstream
            },
            Phase::Ended => {
                self.telemetry.emit(log, UsageOutcome::Completed, None, now_ms);
                Step::Finished
            },
            Phase::Closing { outcome, rule } => {
                self.telemetry.emit(log, outcome, rule, now_ms);
                Step::Finished
            },
            Phase::Finished => {
                Step::Finished
            },
        }
    }

    /// Looks at the next event.
    fn judge(&mut self, cost: ChunkCost, budget: &mut BudgetRegistry, now_ms: i64) -> (step: Step)
        requires
            has_event(old(self)@),
        ensures
            final(self)@ == stepped(old(self)@, old(budget)@, cost@, now_ms),
            final(self).adapter() == old(self).adapter(),
            step@ == output(old(self)@, old(budget)@, cost@, now_ms),
            final(budget)@ == budget_after(old(self)@, old(budget)@, cost@, now_ms),
    {
        let event = match self.pending.pop_front() {
            Some(event) => event,
            None => return Step::Finished,
        };
        assert(event@ == old(self)@.pending[0]);
        assert(byte_views(self.pending@) =~= old(self)@.pending.skip(1));
        match self.telemetry.settle_event(cost, event, &self.blocked_tools, budget, now_ms) {
            Ok(EventOutcome::Forward(bytes)) => Step::Forward(bytes),
            Ok(EventOutcome::BudgetTrip) => {
                self.phase = Phase::Closing { outcome: UsageOutcome::BudgetBlocked, rule: None };
                Step::Trip(bytes_of(BUDGET_EXCEEDED_EVENT))
            },
            Ok(EventOutcome::PolicyTrip(tool)) => {
                let rule = rule_for_tool(tool.as_str());
                self.phase =
                Phase::Closing { outcome: UsageOutcome::PolicyBlocked, rule: Some(rule) };
                Step::Trip(policy_violation_event(tool.as_str()))
            },
            Err(e) => {
                self.phase = Phase::Closing { outcome: UsageOutcome::UpstreamError, rule: None };
                Step::Fail(e)
            },
        }
    }

    /// Gives the stream up. If nothing was logged of it yet, an incomplete
    /// request is.
    pub fn close(&mut self, log: &mut EventLog, now_ms: i64)
        requires
            old(log).wf(),
            !old(self)@.telemetry.emitted ==> old(log).has_room(),
        ensures
            final(log).wf(),
            final(self)@ == finished(old(self)@),
            final(self).adapter() == old(self).adapter(),
            final(log)@ == log_after(old(log)@, logged_by_close(old(self)@, now_ms)),
    {
        self.telemetry.emit(log, UsageOutcome::Incomplete, None, now_ms);
        self.phase = Phase::Finished;
    }
}

/// Law: a stream does not depend on how the bytes were split up on the way.
pub proof fn law_reads_add_up(m: StreamModel, first: Seq<u8>, second: Seq<u8>)
    ensures
        received(received(m, first), second) == received(m, first + second),
{
    if m.phase is Reading {
        lemma_events_of_concatenation(m.held + first, second);
        assert(m.held + first + second =~= m.held + (first + second));
        assert(m.pending + events_of(m.held + first) + events_of(
            rest_of(m.held + first) + second,
        ) =~= m.pending + (events_of(m.held + first) + events_of(
            rest_of(m.held + first) + second,
        )));
    }
}

/// Law: an event is handed on only if it invokes no blocked tool and its
/// tenant, the event's own tokens recorded, is within its ceiling; and it is
/// handed on as it came in.
pub proof fn law_handed_on_events_keep_the_rules(
    m: StreamModel,
    budget: RegistryModel,
    cost: ChunkCostModel,
    now_ms: i64,
)
    requires
        output(m, budget, cost, now_ms) is Forward,
    ensures
        output(m, budget, cost, now_ms) == StepModel::Forward(m.pending[0]),
        !any_blocked(cost.tool_calls, m.blocked),
        budget.config.limits.contains_key(m.telemetry.tenant),
        usage(budget_after(m, budget, cost, now_ms), m.telemetry.tenant, now_ms)
            <= budget.config.limits[m.telemetry.tenant].max_tokens,
{
}

/// One thing that happens to a stream.
pub enum Move {
    Receive(Seq<u8>),
    End,
    Fail,
    Step { budget: RegistryModel, cost: ChunkCostModel, now_ms: i64 },
    Close { now_ms: i64 },
}

/// The stream after a move.
pub open spec fn moved(m: StreamModel, next: Move) -> StreamModel {
    match next {
        Move::Receive(raw) => received(m, raw),
        Move::End => ended(m),
        Move::Fail => failed(m),
        Move::Step { budget, cost, now_ms } => stepped(m, budget, cost, now_ms),
        Move::Close { now_ms } => finished(m),
    }
}

/// The stream after a sequence of moves.
pub open spec fn run(m: StreamModel, moves: Seq<Move>) -> StreamModel
    decreases moves.len(),
{
    if moves.len() == 0 {
        m
    } else {
        moved(run(m, moves.drop_last()), moves.last())
    }
}

/// The bytes that a sequence of moves takes in.
pub open spec fn taken_in(m: StreamModel, moves: Seq<Move>) -> Seq<u8>
    decreases moves.len(),
{
    if moves.len() == 0 {
        Seq::empty()
    } else {
        let before = taken_in(m, moves.drop_last());
        match moves.last() {
            Move::Receive(raw) => if run(m, moves.drop_last()).phase is Reading {
                before + raw
            } else {
                before
            },
            _ => before,
        }
    }
}

/// The upstream bytes that a sequence of moves hands on to the client.
pub open spec fn handed_over(m: StreamModel, moves: Seq<Move>) -> Seq<u8>
    decreases moves.len(),
{
    if moves.len() == 0 {
        Seq::empty()
    } else {
        let before = handed_over(m, moves.drop_last());
        match moves.last() {
            Move::Step { budget, cost, now_ms } => match output(
                run(m, moves.drop_last()),
                budget,
                cost,
                now_ms,
            ) {
                StepModel::Forward(bytes) => before + bytes,
                _ => before,
            },
            _ => before,
        }
    }
}

/// The events that a sequence of moves leaves in the log.
pub open spec fn left_in_log(m: StreamModel, moves: Seq<Move>) -> Seq<EventModel>
    decreases moves.len(),
{
    if moves.len() == 0 {
        Seq::empty()
    } else {
        let before = left_in_log(m, moves.drop_last());
        let now = run(m, moves.drop_last());
        let event = match moves.last() {
            Move::Step { budget, cost, now_ms } => logged(now, now_ms),
            Move::Close { now_ms } => logged_by_close(now, now_ms),
            _ => None,
        };
        match event {
            Some(event) => before.push(event),
            None => before,
        }
    }
}

/// How what came in, what went out and what was logged hang together.
spec fn in_step(m: StreamModel, inward: Seq<u8>, outward: Seq<u8>, left: Seq<EventModel>) -> bool {
    &&& stream_ok(m)
    &&& match m.phase {
        PhaseModel::Reading => left.len() == 0 && outward + joined(m.pending) + m.held == inward,
        PhaseModel::Ended => left.len() == 0 && outward + joined(m.pending) == inward,
        PhaseModel::Closing { outcome, rule } => left.len() == 0 && outcome
            != UsageOutcome::Completed && outward.is_prefix_of(inward),
        PhaseModel::Finished => left.len() == 1 && outward.is_prefix_of(inward) && (left[0].outcome
            == UsageOutcome::Completed ==> outward == inward),
    }
}

proof fn lemma_prefix(whole: Seq<u8>, a: Seq<u8>, b: Seq<u8>)
    requires
        whole == a + b,
    ensures
        a.is_prefix_of(whole),
{
    assert(a =~= whole.subrange(0, a.len() as int));
}

proof fn lemma_in_step(m: StreamModel, moves: Seq<Move>)
    requires
        in_step(m, Seq::empty(), Seq::empty(), Seq::empty()),
    ensures
        in_step(
            run(m, moves),
            taken_in(m, moves),
            handed_over(m, moves),
            left_in_log(m, moves),
        ),
    decreases moves.len(),
{
    if moves.len() > 0 {
        let rest = moves.drop_last();
        lemma_in_step(m, rest);
        let now = run(m, rest);
        let inward = taken_in(m, rest);
        let outward = handed_over(m, rest);
        match now.phase {
            PhaseModel::Reading => {
                assert(inward =~= outward + (joined(now.pending) + now.held));
                lemma_prefix(inward, outward, joined(now.pending) + now.held);
            },
            PhaseModel::Ended => {
                lemma_prefix(inward, outward, joined(now.pending));
            },
            _ => {},
        }
        match moves.last() {
            Move::Receive(raw) => {
                if now.phase is Reading {
                    law_no_byte_is_lost(now.held + raw);
                    lemma_joined_concatenation(now.pending, events_of(now.held + raw));
                    assert(outward + (joined(now.pending) + joined(events_of(now.held + raw)))
                        + rest_of(now.held + raw) =~= outward + joined(now.pending) + (joined(
                        events_of(now.held + raw),
                    ) + rest_of(now.held + raw)));
                    assert(outward + joined(now.pending) + (now.held + raw) =~= inward + raw);
                }
            },
            Move::End => {
                if now.phase is Reading {
                    if now.held.len() == 0 {
                        assert(inward =~= outward + joined(now.pending));
                    } else {
                        assert(now.pending.push(now.held) =~= now.pending + seq![now.held]);
                        lemma_joined_concatenation(now.pending, seq![now.held]);
                        lemma_joined_single(now.held);
                        assert(inward =~= outward + (joined(now.pending) + now.held));
                    }
                }
            },
            Move::Fail => {},
            Move::Step { budget, cost, now_ms } => {
                if has_event(now) {
                    let first = now.pending[0];
                    assert(now.pending =~= seq![first] + now.pending.skip(1));
                    lemma_joined_concatenation(seq![first], now.pending.skip(1));
                    lemma_joined_single(first);
                    assert(outward + (first + joined(now.pending.skip(1))) + now.held =~= outward
                        + first + joined(now.pending.skip(1)) + now.held);
                    assert(outward + (first + joined(now.pending.skip(1))) =~= outward + first
                        + joined(now.pending.skip(1)));
                } else if now.phase is Ended {
                    assert(joined(now.pending) =~= Seq::empty());
                    assert(inward =~= outward);
                }
            },
            Move::Close { now_ms } => {},
        }
    }
}

proof fn lemma_opened_is_in_step(
    tenant: Seq<char>,
    provider: Provider,
    model: Option<Seq<char>>,
    blocked: Seq<Seq<char>>,
)
    ensures
        in_step(
            opened(tenant, provider, model, blocked),
            Seq::empty(),
            Seq::empty(),
            Seq::empty(),
        ),
{
    assert(Seq::<u8>::empty() + joined(Seq::empty()) + Seq::<u8>::empty() =~= Seq::empty());
}

/// Law: whatever happens to a stream, once it was given up it has left exactly
/// one event in the log.
pub proof fn law_exactly_one_event(
    tenant: Seq<char>,
    provider: Provider,
    model: Option<Seq<char>>,
    blocked: Seq<Seq<char>>,
    moves: Seq<Move>,
    now_ms: i64,
)
    ensures
        left_in_log(
            opened(tenant, provider, model, blocked),
            moves.push(Move::Close { now_ms }),
        ).len() == 1,
{
    let m = opened(tenant, provider, model, blocked);
    lemma_opened_is_in_step(tenant, provider, model, blocked);
    lemma_in_step(m, moves.push(Move::Close { now_ms }));
}

/// Law: a stream that runs to its end on its own has left its one event in the
/// log by the time it says that it is over.
pub proof fn law_finished_streams_are_logged(
    tenant: Seq<char>,
    provider: Provider,
    model: Option<Seq<char>>,
    blocked: Seq<Seq<char>>,
    moves: Seq<Move>,
)
    requires
        run(opened(tenant, provider, model, blocked), moves).phase is Finished,
    ensures
        left_in_log(opened(tenant, provider, model, blocked), moves).len() == 1,
{
    lemma_opened_is_in_step(tenant, provider, model, blocked);
    lemma_in_step(opened(tenant, provider, model, blocked), moves);
}

/// Law: of what the upstream provider sends, the client gets a prefix, byte
/// for byte; and all of it, if the request is logged as completed.
pub proof fn law_client_gets_a_prefix(
    tenant: Seq<char>,
    provider: Provider,
    model: Option<Seq<char>>,
    blocked: Seq<Seq<char>>,
    moves: Seq<Move>,
)
    ensures
        ({
            let m = opened(tenant, provider, model, blocked);
            &&& handed_over(m, moves).is_prefix_of(taken_in(m, moves))
            &&& left_in_log(m, moves).len() == 1 && left_in_log(m, moves)[0].outcome
                == UsageOutcome::Completed ==> handed_over(m, moves) == taken_in(m, moves)
        }),
{
    let m = opened(tenant, provider, model, blocked);
    lemma_opened_is_in_step(tenant, provider, model, blocked);
    lemma_in_step(m, moves);
    let now = run(m, moves);
    let inward = taken_in(m, moves);
    let outward = handed_over(m, moves);
    match now.phase {
        PhaseModel::Reading => {
            assert(inward =~= outward + (joined(now.pending) + now.held));
            lemma_prefix(inward, outward, joined(now.pending) + now.held);
        },
        PhaseModel::Ended => {
            lemma_prefix(inward, outward, joined(now.pending));
        },
        _ => {},
    }
}

/// Law: once a stream was cut off, or failed, nothing more of what the upstream
/// provider sent reaches the client, and no other event of it is even looked
/// at.
pub proof fn law_nothing_follows_a_trip(
    m: StreamModel,
    budget: RegistryModel,
    cost: ChunkCostModel,
    now_ms: i64,
    moves: Seq<Move>,
)
    requires
        output(m, budget, cost, now_ms) is Trip || output(m, budget, cost, now_ms) is Fail,
    ensures
        handed_over(stepped(m, budget, cost, now_ms), moves) == Seq::<u8>::empty(),
        !has_event(run(stepped(m, budget, cost, now_ms), moves)),
{
    lemma_closing_hands_nothing_on(stepped(m, budget, cost, now_ms), moves);
}

proof fn lemma_closing_hands_nothing_on(m: StreamModel, moves: Seq<Move>)
    requires
        m.phase is Closing || m.phase is Finished,
    ensures
        run(m, moves).phase is Closing || run(m, moves).phase is Finished,
        handed_over(m, moves) == Seq::<u8>::empty(),
    decreases moves.len(),
{
    if moves.len() > 0 {
        lemma_closing_hands_nothing_on(m, moves.drop_last());
    }
}

/// Law: a stream starts with nothing read, nothing recorded and nothing logged,
/// for the tenant, provider, model and policy that it is opened for.
pub proof fn law_streams_start_empty(
    tenant: Seq<char>,
    provider: Provider,
    model: Option<Seq<char>>,
    blocked: Seq<Seq<char>>,
)
    ensures
        ({
            let m = opened(tenant, provider, model, blocked);
            &&& m.telemetry.tenant == tenant
            &&& m.telemetry.provider == provider
            &&& m.telemetry.model == model
            &&& m.telemetry.tools_seen.len() == 0
            &&& m.telemetry.recorded_so_far == 0
            &&& !m.telemetry.emitted
            &&& m.blocked == blocked
            &&& m.pending.len() == 0
            &&& m.held.len() == 0
            &&& m.phase == PhaseModel::Reading
        }),
{
}

/// Law: an event that waits is judged at the next step, whether or not more is
/// to come, and what the client gets is the event itself if it may go on, and
/// else what ends the stream.
pub proof fn law_waiting_events_are_judged(
    m: StreamModel,
    budget: RegistryModel,
    cost: ChunkCostModel,
    now_ms: i64,
)
    requires
        m.phase == PhaseModel::Reading || m.phase == PhaseModel::Ended,
        m.pending.len() > 0,
    ensures
        ({
            let judged = verdict(m.telemetry, m.blocked, budget, cost, now_ms);
            let out = output(m, budget, cost, now_ms);
            let after = stepped(m, budget, cost, now_ms);
            &&& match judged {
                Verdict::Forward => out == StepModel::Forward(m.pending[0]) && after.phase
                    == m.phase,
                Verdict::BudgetTrip => out == StepModel::Trip(
                    encode_utf8("event: error\ndata: {\"error\":\"budget_exceeded\"}\n\n"@),
                ) && after.phase is Closing,
                Verdict::PolicyTrip(tool) => out == StepModel::Trip(
                    encode_utf8(
                        "event: error\ndata: {\"error\":\"policy_violation\",\"tool\":\""@ + tool
                            + "\"}\n\n"@,
                    ),
                ) && after.phase is Closing,
                Verdict::UnknownTenant => out == StepModel::Fail(WeirError::UnknownTenant)
                    && after.phase is Closing,
            }
            &&& after.pending == m.pending.skip(1)
            &&& after.held == m.held
            &&& after.blocked == m.blocked
            &&& after.telemetry == accounted(m.telemetry, m.blocked, cost)
            &&& budget_after(m, budget, cost, now_ms) == charged(
                m.telemetry,
                m.blocked,
                budget,
                cost,
                now_ms,
            )
            &&& logged(m, now_ms) is None
        }),
{
}

/// Law: while the upstream provider is sending and nothing waits, the stream
/// waits for more and changes nothing; once the provider has sent everything
/// and nothing waits, the stream is over and logged as completed.
pub proof fn law_streams_wait_for_more(
    m: StreamModel,
    budget: RegistryModel,
    cost: ChunkCostModel,
    now_ms: i64,
)
    requires
        m.pending.len() == 0,
        !m.telemetry.emitted,
    ensures
        m.phase == PhaseModel::Reading ==> {
            &&& output(m, budget, cost, now_ms) == StepModel::AwaitUpstream
            &&& stepped(m, budget, cost, now_ms) == m
            &&& logged(m, now_ms) is None
        },
        m.phase == PhaseModel::Ended ==> {
            &&& output(m, budget, cost, now_ms) == StepModel::Finished
            &&& stepped(m, budget, cost, now_ms).phase == PhaseModel::Finished
            &&& stepped(m, budget, cost, now_ms).telemetry.emitted
            &&& logged(m, now_ms) is Some
            &&& logged(m, now_ms)->0.outcome == UsageOutcome::Completed
            &&& logged(m, now_ms)->0.rule is None
        },
        budget_after(m, budget, cost, now_ms) == budget,
{
}

/// Law: what ends a stream is what is logged of it at the step after. A budget
/// that is used up is a budget block, a blocked tool is a policy block with the
/// rule that names it, and a failure of the upstream provider or a tenant that
/// is gone is an upstream error.
pub proof fn law_endings_are_logged_for_what_they_are(
    m: StreamModel,
    budget: RegistryModel,
    cost: ChunkCostModel,
    now_ms: i64,
    later_ms: i64,
)
    requires
        !m.telemetry.emitted,
    ensures
        (m.phase == PhaseModel::Reading || m.phase == PhaseModel::Ended) && m.pending.len() > 0
            ==> ({
            let event = logged(stepped(m, budget, cost, now_ms), later_ms);
            match verdict(m.telemetry, m.blocked, budget, cost, now_ms) {
                Verdict::Forward => true,
                Verdict::BudgetTrip => event is Some && event->0.outcome
                    == UsageOutcome::BudgetBlocked && event->0.rule is None,
                Verdict::PolicyTrip(tool) => event is Some && event->0.outcome
                    == UsageOutcome::PolicyBlocked && event->0.rule == Some(
                    "blocked_tool:"@ + tool,
                ),
                Verdict::UnknownTenant => event is Some && event->0.outcome
                    == UsageOutcome::UpstreamError && event->0.rule is None,
            }
        }),
        m.phase == PhaseModel::Reading ==> ({
            let event = logged(failed(m), later_ms);
            event is Some && event->0.outcome == UsageOutcome::UpstreamError && event->0.rule
                is None
        }),
        logged_by_close(m, later_ms) is Some,
        logged_by_close(m, later_ms)->0.outcome == UsageOutcome::Incomplete,
        logged_by_close(m, later_ms)->0.rule is None,
{
}

/// Law: every event that a stream leaves in the log names the tenant, the
/// provider and the model of the request, the tools that were seen, the tokens
/// that were recorded, and when it was logged.
pub proof fn law_logged_events_tell_the_streams_account(m: StreamModel, now_ms: i64)
    ensures
        logged(m, now_ms) matches Some(event) ==> {
            &&& event.tenant == m.telemetry.tenant
            &&& event.provider == m.telemetry.provider
            &&& event.model == m.telemetry.model
            &&& event.tools_called == m.telemetry.tools_seen
            &&& event.tokens == m.telemetry.recorded_so_far
            &&& event.timestamp_ms == now_ms
        },
        logged_by_close(m, now_ms) matches Some(event) ==> {
            &&& event.tenant == m.telemetry.tenant
            &&& event.provider == m.telemetry.provider
            &&& event.model == m.telemetry.model
            &&& event.tools_called == m.telemetry.tools_seen
            &&& event.tokens == m.telemetry.recorded_so_far
            &&& event.timestamp_ms == now_ms
        },
        m.telemetry.emitted ==> logged(m, now_ms) is None && logged_by_close(m, now_ms) is None,
{
}

/// Law: what a read completes waits behind what was waiting, and what it leaves
/// incomplete is kept; at the end of what the provider sends, that counts as an
/// event of its own. Neither changes the stream's account or any verdict.
pub proof fn law_reads_only_add_to_what_waits(m: StreamModel, raw: Seq<u8>)
    requires
        m.phase == PhaseModel::Reading,
    ensures
        m.pending.is_prefix_of(received(m, raw).pending),
        joined(received(m, raw).pending) + received(m, raw).held == joined(m.pending) + m.held
            + raw,
        received(m, raw).telemetry == m.telemetry,
        received(m, raw).blocked == m.blocked,
        received(m, raw).phase == m.phase,
        ended(m).telemetry == m.telemetry,
        ended(m).blocked == m.blocked,
        ended(m).phase == PhaseModel::Ended,
        m.held.len() == 0 ==> ended(m).pending == m.pending,
        m.held.len() > 0 ==> ended(m).pending == m.pending.push(m.held),
        failed(m).telemetry == m.telemetry,
{
    law_no_byte_is_lost(m.held + raw);
    lemma_joined_concatenation(m.pending, events_of(m.held + raw));
    assert(m.pending =~= received(m, raw).pending.subrange(0, m.pending.len() as int));
    assert(joined(m.pending) + joined(events_of(m.held + raw)) + rest_of(m.held + raw) =~= joined(
        m.pending,
    ) + (joined(events_of(m.held + raw)) + rest_of(m.held + raw)));
    assert(joined(m.pending) + (m.held + raw) =~= joined(m.pending) + m.held + raw);
}

/// Law: a streamed event that invokes a blocked tool never reaches the client,
/// wherever among its tools it stands.
pub proof fn law_blocked_tools_never_reach_the_client(
    m: StreamModel,
    budget: RegistryModel,
    cost: ChunkCostModel,
    now_ms: i64,
    i: int,
)
    requires
        0 <= i < cost.tool_calls.len(),
        m.blocked.contains(cost.tool_calls[i]),
    ensures
        !(output(m, budget, cost, now_ms) is Forward),
{
    super::law_every_tool_is_checked(cost.tool_calls, m.blocked);
}

/// Law: a streamed event reaches the client exactly if it invokes no blocked
/// tool and its tenant, what it had used and what the event costs taken
/// together, is within its ceiling. (As long as no 32-bit count is exhausted.)
pub proof fn law_events_reach_the_client_within_the_ceiling(
    m: StreamModel,
    budget: RegistryModel,
    cost: ChunkCostModel,
    now_ms: i64,
    charge: int,
    other: Seq<char>,
)
    requires
        m.phase == PhaseModel::Reading || m.phase == PhaseModel::Ended,
        m.pending.len() > 0,
        allowed(cost.tool_calls, m.blocked),
        charge == match cost.authoritative_total {
            Some(total) => if total > m.telemetry.recorded_so_far {
                total - m.telemetry.recorded_so_far
            } else {
                0
            },
            None => cost.estimated_tokens as int,
        },
        budget.config.limits.contains_key(m.telemetry.tenant),
        counter_of(budget, m.telemetry.tenant).latest_ms <= now_ms,
        usage(budget, m.telemetry.tenant, now_ms) + charge <= u32::MAX,
        other != m.telemetry.tenant,
    ensures
        usage(budget_after(m, budget, cost, now_ms), m.telemetry.tenant, now_ms) == usage(
            budget,
            m.telemetry.tenant,
            now_ms,
        ) + charge,
        usage(budget_after(m, budget, cost, now_ms), other, now_ms) == usage(
            budget,
            other,
            now_ms,
        ),
        output(m, budget, cost, now_ms) == StepModel::Forward(m.pending[0]) <==> usage(
            budget,
            m.telemetry.tenant,
            now_ms,
        ) + charge <= budget.config.limits[m.telemetry.tenant].max_tokens,
{
    super::law_events_are_charged_before_they_go_on(
        m.telemetry,
        m.blocked,
        budget,
        cost,
        now_ms,
        charge,
        other,
    );
}

/// Law: it is the event that waits first that is priced, and an adapter is not
/// asked while nothing waits.
pub proof fn law_the_first_event_is_priced<A: ProviderAdapter>(
    adapter: A,
    m: StreamModel,
    cost: ChunkCostModel,
    after: A,
)
    requires
        may_cost(adapter, m, cost, after),
    ensures
        (m.phase == PhaseModel::Reading || m.phase == PhaseModel::Ended) && m.pending.len() > 0
            ==> adapter.prices_event(m.pending[0], cost, after),
        m.phase is Closing || m.phase is Finished || m.pending.len() == 0 ==> after == adapter,
{
}

/// Law: what is logged is the next event of the log, with the next id, and
/// where nothing is logged the log stays as it is.
pub proof fn law_logging_appends_one_event(log: LogModel, event: EventModel)
    requires
        log_ok(log),
        log.next_id < u64::MAX,
    ensures
        log_after(log, None) == log,
        log_after(log, Some(event)).next_id == log.next_id + 1,
        log_after(log, Some(event)).events.len() > 0,
        log_after(log, Some(event)).events.last() == (EventModel { id: log.next_id, ..event }),
{
}

/// Law: a step carries the bytes or the error that its model shows.
pub proof fn law_steps_show_what_they_carry(step: Step)
    ensures
        step matches Step::Forward(bytes) ==> step@ == StepModel::Forward(bytes@),
        step matches Step::Trip(bytes) ==> step@ == StepModel::Trip(bytes@),
        step matches Step::Fail(e) ==> step@ == StepModel::Fail(e),
        step is AwaitUpstream ==> step@ == StepModel::AwaitUpstream,
        step is Finished ==> step@ == StepModel::Finished,
{
}

/// Law: an event of an OpenAI stream in which any call of any choice of any
/// payload names a blocked tool never reaches the client and costs nothing.
pub proof fn law_openai_streams_call_no_blocked_tool(
    m: StreamModel,
    budget: RegistryModel,
    vocabulary: Vocabulary,
    payloads: Seq<OpenAiPayload>,
    now_ms: i64,
    i: int,
    j: int,
    k: int,
)
    requires
        0 <= i < payloads.len(),
        0 <= j < payloads[i].choices@.len(),
        0 <= k < payloads[i].choices@[j].tool_names@.len(),
        payloads[i].choices@[j].tool_names@[k] is Some,
        m.blocked.contains(payloads[i].choices@[j].tool_names@[k]->0@),
    ensures
        !(output(m, budget, openai_cost(vocabulary, payloads), now_ms) is Forward),
        budget_after(m, budget, openai_cost(vocabulary, payloads), now_ms) == budget,
{
    let tool = payloads[i].choices@[j].tool_names@[k]->0@;
    let called = openai_cost(vocabulary, payloads).tool_calls;
    crate::provider::openai::law_no_tool_call_is_overlooked(vocabulary, payloads, i, j, k);
    let n = choose|n: int| 0 <= n < called.len() && called[n] == tool;
    assert(m.blocked.contains(called[n]));
    super::law_every_tool_is_checked(called, m.blocked);
}

/// Law: an event of an Anthropic stream that begins to call a blocked tool never
/// reaches the client and costs nothing.
pub proof fn law_anthropic_streams_call_no_blocked_tool(
    m: StreamModel,
    budget: RegistryModel,
    vocabulary: Vocabulary,
    input_tokens: u64,
    lines: Seq<AnthropicEvent>,
    now_ms: i64,
    i: int,
    name: String,
)
    requires
        0 <= i < lines.len(),
        lines[i] == (AnthropicEvent::ContentBlockStart { tool_name: Some(name) }),
        m.blocked.contains(name@),
    ensures
        !(output(m, budget, anthropic_cost(vocabulary, input_tokens, lines), now_ms) is Forward),
        budget_after(m, budget, anthropic_cost(vocabulary, input_tokens, lines), now_ms) == budget,
{
    let called = anthropic_cost(vocabulary, input_tokens, lines).tool_calls;
    crate::provider::anthropic::law_no_tool_call_is_overlooked(
        vocabulary,
        input_tokens,
        lines,
        i,
        name,
    );
    let n = choose|n: int| 0 <= n < called.len() && called[n] == name@;
    assert(m.blocked.contains(called[n]));
    super::law_every_tool_is_checked(called, m.blocked);
}

/// Law: what a read completes are whole events: each ends in two line feeds and
/// has no two in a row before; and what is kept back has no two in a row.
pub proof fn law_only_whole_events_wait(m: StreamModel, raw: Seq<u8>, i: int, j: int)
    requires
        m.phase == PhaseModel::Reading,
    ensures
        m.pending.len() <= i < received(m, raw).pending.len() ==> ({
            let event = received(m, raw).pending[i];
            let n = event.len();
            &&& n >= 2
            &&& event[n - 2] == 10
            &&& event[n - 1] == 10
            &&& 0 <= j < n - 2 ==> !(event[j] == 10 && event[j + 1] == 10)
        }),
        0 <= j < received(m, raw).held.len() - 1 ==> !(received(m, raw).held[j] == 10 && received(
            m,
            raw,
        ).held[j + 1] == 10),
{
    law_events_end_at_the_first_blank_line(m.held + raw, i - m.pending.len(), j);
}

/// Law: once the upstream provider has sent everything, or failed, or the stream
/// was cut off, nothing that comes in changes it.
pub proof fn law_nothing_comes_in_after_the_end(m: StreamModel, raw: Seq<u8>)
    requires
        m.phase != PhaseModel::Reading,
    ensures
        received(m, raw) == m,
        ended(m) == m,
        failed(m) == m,
{
}

/// Law: a stream that was cut off, or failed, is over at the next step; one that
/// is over stays as it is; and neither charges anyone.
pub proof fn law_closing_streams_finish(
    m: StreamModel,
    budget: RegistryModel,
    cost: ChunkCostModel,
    now_ms: i64,
)
    ensures
        m.phase is Closing || m.phase is Finished ==> {
            &&& output(m, budget, cost, now_ms) == StepModel::Finished
            &&& stepped(m, budget, cost, now_ms).phase == PhaseModel::Finished
            &&& budget_after(m, budget, cost, now_ms) == budget
        },
        m.phase is Finished ==> stepped(m, budget, cost, now_ms) == m,
        m.phase is Closing ==> stepped(m, budget, cost, now_ms) == finished(m),
        finished(m).phase == PhaseModel::Finished,
        finished(m).telemetry == (TelemetryModel { emitted: true, ..m.telemetry }),
        finished(m).blocked == m.blocked,
        finished(m).pending == m.pending,
        finished(m).held == m.held,
{
}

} // verus!
