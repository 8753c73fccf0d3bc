//! What happens to a request between the client and the upstream provider.

use vstd::prelude::*;
use vstd::string::*;

use crate::budget::sliding_window::{added, law_total_lies_between_counts};
use crate::budget::{
    counter_of, law_asking_changes_no_usage, law_recording_charges_in_full, recorded, usage,
    with_counter, BudgetRegistry, RegistryModel,
};
use crate::config::no_restrictions;
use crate::enforcer::stream::{law_exactly_one_event, left_in_log, log_after, opened, Move};
use crate::enforcer::{
    allowed, any_blocked, blocked_tool_rule, first_blocked, law_every_tool_is_checked,
    lemma_first_blocked, rule_for_tool,
};
use crate::error::WeirError;
use crate::provider::payload::starts_with;
use crate::provider::{
    AnthropicAdapter, AnthropicMessage, NonStreamingCost, NonStreamingModel, OpenAiAdapter,
    OpenAiPayload, PayloadDecoder, Provider, ProviderAdapter,
};
use crate::telemetry::{
    event_models, page, pushed, EventLog, EventModel, EventsResponse, UsageEvent, UsageOutcome,
};
use crate::text::{
    contains_text, copy_optional, from_chars, optional_text, same_text, texts, to_chars,
};

verus! {

/// The header by which a request names its tenant.
pub const TENANT_HEADER: &'static str = "x-weir-tenant";

/// A header that concerns one connection only, or the length of a body that is
/// streamed anew.
pub open spec fn hop_by_hop(name: Seq<char>) -> bool {
    ||| name == "connection"@
    ||| name == "keep-alive"@
    ||| name == "proxy-authenticate"@
    ||| name == "proxy-authorization"@
    ||| name == "te"@
    ||| name == "trailers"@
    ||| name == "transfer-encoding"@
    ||| name == "upgrade"@
    ||| name == "content-length"@
}

/// A request header that goes on to the upstream provider.
pub open spec fn goes_upstream(name: Seq<char>) -> bool {
    &&& name != TENANT_HEADER@
    &&& name != "host"@
    &&& name != "accept-encoding"@
    &&& !hop_by_hop(name)
}

/// Whether a header must not be passed on, in either direction: it concerns
/// one connection only, or the length of a body that is streamed anew. Names
/// are in lower case.
pub fn is_hop_by_hop(name: &str) -> (hop: bool)
    ensures
        hop == hop_by_hop(name@),
{
    same_text(name, "connection") || same_text(name, "keep-alive") || same_text(
        name,
        "proxy-authenticate",
    ) || same_text(name, "proxy-authorization") || same_text(name, "te") || same_text(
        name,
        "trailers",
    ) || same_text(name, "transfer-encoding") || same_text(name, "upgrade") || same_text(
        name,
        "content-length",
    )
}

/// Whether a request header goes on to the upstream provider. The tenant header
/// does not, nor `host`, which belongs to the upstream URL, nor
/// `accept-encoding`: a compressed response could not be read, and would cost
/// next to nothing. Names are in lower case.
pub fn should_forward_request_header(name: &str) -> (forward: bool)
    ensures
        forward == goes_upstream(name@),
{
    !same_text(name, TENANT_HEADER) && !same_text(name, "host") && !same_text(
        name,
        "accept-encoding",
    ) && !is_hop_by_hop(name)
}

/// One header of a request or a response. Its name is in lower case.
#[derive(Debug)]
pub struct Header {
    pub name: String,
    pub value: Vec<u8>,
}

/// The contents of a header.
#[verifier::ext_equal]
pub struct HeaderModel {
    pub name: Seq<char>,
    pub value: Seq<u8>,
}

impl View for Header {
    type V = HeaderModel;

    open spec fn view(&self) -> HeaderModel {
        HeaderModel { name: self.name@, value: self.value@ }
    }
}

/// The contents of a list of headers.
pub open spec fn header_models(headers: Seq<Header>) -> Seq<HeaderModel> {
    headers.map_values(|h: Header| h@)
}

/// The headers that go on to the upstream provider.
pub open spec fn upstream_headers(headers: Seq<HeaderModel>) -> Seq<HeaderModel> {
    headers.filter(|h: HeaderModel| goes_upstream(h.name))
}

/// The header that has the client close the connection.
pub open spec fn connection_close() -> HeaderModel {
    HeaderModel { name: "connection"@, value: vstd::utf8::encode_utf8("close"@) }
}

/// The headers that go back to the client.
pub open spec fn client_headers(headers: Seq<HeaderModel>) -> Seq<HeaderModel> {
    headers.filter(|h: HeaderModel| !hop_by_hop(h.name)).push(connection_close())
}

/// The headers that go on to the upstream provider, unmodified and in order.
pub fn request_headers(headers: Vec<Header>) -> (forwarded: Vec<Header>)
    ensures
        header_models(forwarded@) == upstream_headers(header_models(headers@)),
{
    let ghost all = header_models(headers@);
    let ghost keep = |h: HeaderModel| goes_upstream(h.name);
    let mut forwarded: Vec<Header> = Vec::new();
    assert(all.take(0) =~= Seq::empty());
    proof {
        reveal(Seq::filter);
    }
    assert(header_models(forwarded@) =~= all.take(0).filter(keep));
    for header in it: headers
        invariant
            header_models(it.seq()) == all,
            keep == (|h: HeaderModel| goes_upstream(h.name)),
            header_models(forwarded@) == all.take(it.index() as int).filter(keep),
    {
        let ghost i = it.index() as int;
        proof {
            reveal(Seq::filter);
            assert(all[i] == header@);
            assert(all.take(i + 1).drop_last() =~= all.take(i));
        }
        if should_forward_request_header(header.name.as_str()) {
            let ghost before = forwarded@;
            forwarded.push(header);
            assert(header_models(forwarded@) =~= header_models(before).push(header@));
        }
    }
    assert(all.take(all.len() as int) =~= all);
    forwarded
}

/// The headers that go back to the client: those of the upstream response,
/// unmodified and in order, but for the ones that concern the upstream
/// connection; and one that closes the connection to the client.
pub fn response_headers(headers: Vec<Header>) -> (forwarded: Vec<Header>)
    ensures
        header_models(forwarded@) == client_headers(header_models(headers@)),
{
    let ghost all = header_models(headers@);
    let ghost keep = |h: HeaderModel| !hop_by_hop(h.name);
    let mut forwarded: Vec<Header> = Vec::new();
    assert(all.take(0) =~= Seq::empty());
    proof {
        reveal(Seq::filter);
    }
    assert(header_models(forwarded@) =~= all.take(0).filter(keep));
    for header in it: headers
        invariant
            header_models(it.seq()) == all,
            keep == (|h: HeaderModel| !hop_by_hop(h.name)),
            header_models(forwarded@) == all.take(it.index() as int).filter(keep),
    {
        let ghost i = it.index() as int;
        proof {
            reveal(Seq::filter);
            assert(all[i] == header@);
            assert(all.take(i + 1).drop_last() =~= all.take(i));
        }
        if !is_hop_by_hop(header.name.as_str()) {
            let ghost before = forwarded@;
            forwarded.push(header);
            assert(header_models(forwarded@) =~= header_models(before).push(header@));
        }
    }
    assert(all.take(all.len() as int) =~= all);
    let close = Header {
        name: "connection".to_string(),
        value: vstd::slice::slice_to_vec("close".as_bytes()),
    };
    let ghost before = forwarded@;
    forwarded.push(close);
    assert(header_models(forwarded@) =~= header_models(before).push(close@));
    forwarded
}

proof fn lemma_kept_headers(
    headers: Seq<HeaderModel>,
    keep: spec_fn(HeaderModel) -> bool,
    h: HeaderModel,
)
    ensures
        headers.filter(keep).contains(h) <==> headers.contains(h) && keep(h),
    decreases headers.len(),
{
    reveal(Seq::filter);
    if headers.len() > 0 {
        let rest = headers.drop_last();
        lemma_kept_headers(rest, keep, h);
        assert(headers =~= rest.push(headers.last()));
        assert(headers.contains(h) <==> rest.contains(h) || h == headers.last()) by {
            broadcast use vstd::seq_lib::group_seq_properties;

        }
        assert(rest.filter(keep).push(headers.last()).contains(h) <==> rest.filter(keep).contains(h)
            || h == headers.last()) by {
            broadcast use vstd::seq_lib::group_seq_properties;

        }
    }
}

/// Law: the tenant header, the client's host and its wish for compression never
/// reach the upstream provider, and every other header of the request does, as
/// it came in, unless it concerns the client's connection only.
pub proof fn law_upstream_gets_the_clients_headers(headers: Seq<HeaderModel>, h: HeaderModel)
    ensures
        upstream_headers(headers).contains(h) <==> headers.contains(h) && goes_upstream(h.name),
{
    lemma_kept_headers(headers, |h: HeaderModel| goes_upstream(h.name), h);
}

/// Law: a response tells the client exactly once what becomes of the
/// connection: it is closed.
pub proof fn law_responses_close_the_connection(headers: Seq<HeaderModel>, i: int)
    requires
        0 <= i < client_headers(headers).len(),
    ensures
        client_headers(headers)[i].name == "connection"@ ==> i == client_headers(headers).len() - 1
            && client_headers(headers)[i] == connection_close(),
        client_headers(headers).last() == connection_close(),
{
    let keep = |h: HeaderModel| !hop_by_hop(h.name);
    let kept = headers.filter(keep);
    if i < kept.len() {
        assert(kept.contains(kept[i]));
        lemma_kept_headers(headers, keep, kept[i]);
    }
}

/// Where the upstream providers are.
#[derive(Debug)]
pub struct Upstreams {
    pub openai_base: String,
    pub anthropic_base: String,
}

/// The base URL of a provider.
pub open spec fn base_of(upstreams: Upstreams, provider: Provider) -> Seq<char> {
    match provider {
        Provider::OpenAi => upstreams.openai_base@,
        Provider::Anthropic => upstreams.anthropic_base@,
    }
}

impl Upstreams {
    /// The upstream URL of a request for `rest`, the path and query behind the
    /// provider's prefix.
    pub fn url(&self, provider: Provider, rest: &str) -> (url: String)
        ensures
            url@ == base_of(*self, provider) + "/"@ + rest@,
    {
        let base = match provider {
            Provider::OpenAi => &self.openai_base,
            Provider::Anthropic => &self.anthropic_base,
        };
        let mut url = String::new();
        url.append(base.as_str());
        url.append("/");
        url.append(rest);
        assert(url@ =~= base_of(*self, provider) + "/"@ + rest@);
        url
    }
}

/// What follows the first slash; nothing, if there is none.
pub open spec fn after_slash(s: Seq<char>) -> Seq<char>
    decreases s.len(),
{
    if s.len() == 0 {
        s
    } else if s[0] == '/' {
        s.skip(1)
    } else {
        after_slash(s.skip(1))
    }
}

/// Where what follows the first slash from `from` on begins; the end, if there
/// is none.
fn find_slash(chars: &Vec<char>, from: usize) -> (behind: usize)
    requires
        from <= chars.len(),
    ensures
        from <= behind <= chars.len(),
        chars@.skip(behind as int) == after_slash(chars@.skip(from as int)),
{
    let mut i: usize = from;
    while i < chars.len()
        invariant
            from <= i <= chars.len(),
            after_slash(chars@.skip(i as int)) == after_slash(chars@.skip(from as int)),
        decreases chars.len() - i,
    {
        assert(chars@.skip(i as int).skip(1) =~= chars@.skip(i + 1));
        if chars[i] == '/' {
            return i + 1;
        }
        i += 1;
    }
    i
}

/// The path and query behind the provider's prefix, as the client sent them:
/// what follows the second slash of the request target.
pub fn behind_prefix(target: &str) -> (rest: String)
    ensures
        rest@ == after_slash(after_slash(target@)),
{
    let chars = to_chars(target);
    assert(chars@.skip(0) =~= chars@);
    let first: usize = find_slash(&chars, 0);
    let second: usize = find_slash(&chars, first);
    assert(chars@.subrange(second as int, chars@.len() as int) =~= chars@.skip(second as int));
    from_chars(&chars, second, chars.len())
}

/// A content type of streamed responses.
pub open spec fn streams(content_type: Option<Seq<char>>) -> bool {
    content_type matches Some(content_type) && "text/event-stream"@.is_prefix_of(content_type)
}

/// Whether a response with this content type is streamed. One without a content
/// type is not.
pub fn is_streaming(content_type: Option<&str>) -> (streaming: bool)
    ensures
        streaming == streams(
            match content_type {
                Some(content_type) => Some(content_type@),
                None => None,
            },
        ),
{
    match content_type {
        Some(content_type) => {
            let chars = to_chars(content_type);
            let streamed = to_chars("text/event-stream");
            assert(chars@.subrange(0, chars@.len() as int) =~= content_type@);
            starts_with(&chars, 0, chars.len(), &streamed)
        },
        None => false,
    }
}

/// The rule that a blocked model breaks, as the event log names it.
pub open spec fn blocked_model_rule(model: Seq<char>) -> Seq<char> {
    "blocked_model:"@ + model
}

fn rule_for_model(model: &str) -> (rule: String)
    ensures
        rule@ == blocked_model_rule(model@),
{
    let mut rule = String::new();
    rule.append("blocked_model:");
    rule.append(model);
    assert(rule@ =~= blocked_model_rule(model@));
    rule
}

/// Why a request is turned away, and whether the connection is closed with it.
#[derive(Debug)]
pub struct Rejection {
    pub error: WeirError,
    pub close_connection: bool,
}

/// A request that may go on to the upstream provider.
#[derive(Debug)]
pub struct Admitted {
    pub tenant: String,
    pub provider: Provider,
    /// The model that the request names.
    pub model: Option<String>,
    /// The tools that the response may not invoke.
    pub blocked_tools: Vec<String>,
}

/// The contents of an admitted request.
#[verifier::ext_equal]
pub struct AdmittedModel {
    pub tenant: Seq<char>,
    pub provider: Provider,
    pub model: Option<Seq<char>>,
    pub blocked_tools: Seq<Seq<char>>,
}

impl View for Admitted {
    type V = AdmittedModel;

    open spec fn view(&self) -> AdmittedModel {
        AdmittedModel {
            tenant: self.tenant@,
            provider: self.provider,
            model: optional_text(self.model),
            blocked_tools: texts(self.blocked_tools@),
        }
    }
}

/// Whether a request may go on.
#[verifier::ext_equal]
pub enum Admission {
    /// It may.
    Admit,
    /// It names no tenant.
    NoTenant,
    /// Its tenant is not configured.
    UnknownTenant,
    /// Its tenant has used up its budget.
    OverBudget,
    /// Its tenant may not use this model.
    BlockedModel(Seq<char>),
}

/// Whether a request may go on.
pub open spec fn admission(
    tenant: Option<Seq<char>>,
    model: Option<Seq<char>>,
    budget: RegistryModel,
    now_ms: i64,
) -> Admission {
    match tenant {
        None => Admission::NoTenant,
        Some(tenant) => if !budget.config.limits.contains_key(tenant) {
            Admission::UnknownTenant
        } else if usage(budget, tenant, now_ms) >= budget.config.limits[tenant].max_tokens {
            Admission::OverBudget
        } else if !budget.config.policies.contains_key(tenant) {
            Admission::UnknownTenant
        } else {
            match model {
                Some(model) => if budget.config.policies[tenant].blocked_models.contains(model) {
                    Admission::BlockedModel(model)
                } else {
                    Admission::Admit
                },
                None => Admission::Admit,
            }
        },
    }
}

/// The budgets once a tenant was asked for: a tenant that has a budget has a
/// counter.
pub open spec fn asked_for(budget: RegistryModel, tenant: Option<Seq<char>>) -> RegistryModel {
    match tenant {
        Some(tenant) if budget.config.limits.contains_key(tenant) => with_counter(
            budget,
            tenant,
            counter_of(budget, tenant),
        ),
        _ => budget,
    }
}

/// An event of a request that never reached the upstream provider, or to which
/// it gave no answer.
pub open spec fn bare_event(
    tenant: Seq<char>,
    provider: Provider,
    model: Option<Seq<char>>,
    outcome: UsageOutcome,
    rule: Option<Seq<char>>,
    now_ms: i64,
) -> EventModel {
    EventModel {
        id: 0,
        tenant,
        provider,
        model,
        tools_called: Seq::empty(),
        tokens: 0,
        outcome,
        rule,
        timestamp_ms: now_ms,
    }
}

/// The event of a request that was turned away. One that is let in is logged
/// when its response is over. A request that names no tenant is logged under the
/// empty name.
pub open spec fn admission_event(
    tenant: Option<Seq<char>>,
    provider: Provider,
    model: Option<Seq<char>>,
    decision: Admission,
    now_ms: i64,
) -> Option<EventModel> {
    let name = match tenant {
        Some(tenant) => tenant,
        None => Seq::empty(),
    };
    match decision {
        Admission::Admit => None,
        Admission::NoTenant | Admission::UnknownTenant => Some(
            bare_event(name, provider, model, UsageOutcome::UpstreamError, None, now_ms),
        ),
        Admission::OverBudget => Some(
            bare_event(name, provider, model, UsageOutcome::BudgetBlocked, None, now_ms),
        ),
        Admission::BlockedModel(blocked) => Some(
            bare_event(
                name,
                provider,
                model,
                UsageOutcome::PolicyBlocked,
                Some(blocked_model_rule(blocked)),
                now_ms,
            ),
        ),
    }
}

/// The request that is let in: it carries the policy of its tenant.
pub open spec fn admitted_request(
    tenant: Option<Seq<char>>,
    provider: Provider,
    model: Option<Seq<char>>,
    budget: RegistryModel,
) -> AdmittedModel {
    AdmittedModel {
        tenant: tenant->0,
        provider,
        model,
        blocked_tools: budget.config.policies[tenant->0].blocked_tools,
    }
}

/// `result` is what a client is told of the decision.
pub open spec fn admission_is(
    result: Result<Admitted, Rejection>,
    tenant: Option<Seq<char>>,
    provider: Provider,
    model: Option<Seq<char>>,
    budget: RegistryModel,
    decision: Admission,
) -> bool {
    match decision {
        Admission::Admit => result matches Ok(admitted) && admitted@ == admitted_request(
            tenant,
            provider,
            model,
            budget,
        ),
        Admission::NoTenant => result matches Err(rejection) && rejection.error
            == WeirError::UnknownTenant && !rejection.close_connection,
        Admission::UnknownTenant => result matches Err(rejection) && rejection.error
            == WeirError::UnknownTenant && rejection.close_connection,
        Admission::OverBudget => result matches Err(rejection) && over_budget(
            rejection,
            tenant->0,
        ),
        Admission::BlockedModel(name) => result matches Err(rejection) && against_policy(
            rejection,
            tenant->0,
            blocked_model_rule(name),
        ),
    }
}

/// `rejection` says that the tenant has used up its budget.
pub open spec fn over_budget(rejection: Rejection, tenant: Seq<char>) -> bool {
    &&& rejection.error matches WeirError::BudgetExceeded(name)
    &&& name@ == tenant
    &&& rejection.close_connection
}

/// `rejection` says that the tenant's policy forbids it.
pub open spec fn against_policy(rejection: Rejection, tenant: Seq<char>, rule: Seq<char>) -> bool {
    &&& rejection.error matches WeirError::PolicyViolation { tenant: name, reason }
    &&& name@ == tenant
    &&& reason@ == rule
    &&& rejection.close_connection
}

fn note(
    log: &mut EventLog,
    tenant: &String,
    provider: Provider,
    model: &Option<String>,
    outcome: UsageOutcome,
    rule: Option<String>,
    now_ms: i64,
)
    requires
        old(log).wf(),
        old(log).has_room(),
    ensures
        final(log).wf(),
        final(log)@ == pushed(
            old(log)@,
            bare_event(
                tenant@,
                provider,
                optional_text(*model),
                outcome,
                optional_text(rule),
                now_ms,
            ),
        ),
{
    let event = UsageEvent {
        id: 0,
        tenant: tenant.clone(),
        provider,
        model: copy_optional(model),
        tools_called: Vec::new(),
        tokens: 0,
        outcome,
        rule,
        timestamp_ms: now_ms,
    };
    assert(event@.tools_called =~= Seq::empty());
    log.push(event);
}

/// Decides whether a request goes on to the upstream provider: its tenant must
/// be configured and below its ceiling, and the model that it names must not be
/// blocked. A request that is turned away leaves one event in the log.
pub fn consider(
    tenant: Option<String>,
    provider: Provider,
    model: Option<String>,
    budget: &mut BudgetRegistry,
    log: &mut EventLog,
    now_ms: i64,
) -> (result: Result<Admitted, Rejection>)
    requires
        old(log).wf(),
        admission(optional_text(tenant), optional_text(model), old(budget)@, now_ms)
            != Admission::Admit ==> old(log).has_room(),
    ensures
        final(log).wf(),
        admission_is(
            result,
            optional_text(tenant),
            provider,
            optional_text(model),
            old(budget)@,
            admission(optional_text(tenant), optional_text(model), old(budget)@, now_ms),
        ),
        final(budget)@ == asked_for(old(budget)@, optional_text(tenant)),
        final(log)@ == log_after(
            old(log)@,
            admission_event(
                optional_text(tenant),
                provider,
                optional_text(model),
                admission(optional_text(tenant), optional_text(model), old(budget)@, now_ms),
                now_ms,
            ),
        ),
{
    let tenant = match tenant {
        Some(tenant) => tenant,
        None => {
            let nobody = String::new();
            assert(nobody@ =~= Seq::empty());
            note(log, &nobody, provider, &model, UsageOutcome::UpstreamError, None, now_ms);
            return Err(Rejection { error: WeirError::UnknownTenant, close_connection: false });
        },
    };
    match budget.is_within_budget(tenant.as_str(), now_ms) {
        Ok(true) => {},
        Ok(false) => {
            note(log, &tenant, provider, &model, UsageOutcome::BudgetBlocked, None, now_ms);
            return Err(
                Rejection { error: WeirError::BudgetExceeded(tenant), close_connection: true },
            );
        },
        Err(error) => {
            note(log, &tenant, provider, &model, UsageOutcome::UpstreamError, None, now_ms);
            return Err(Rejection { error, close_connection: true });
        },
    }
    let policy = match budget.policy_for(tenant.as_str()) {
        Ok(policy) => policy,
        Err(error) => {
            note(log, &tenant, provider, &model, UsageOutcome::UpstreamError, None, now_ms);
            return Err(Rejection { error, close_connection: true });
        },
    };
    if let Some(name) = &model {
        if contains_text(&policy.blocked_models, name.as_str()) {
            let reason = rule_for_model(name.as_str());
            note(
                log,
                &tenant,
                provider,
                &model,
                UsageOutcome::PolicyBlocked,
                Some(reason.clone()),
                now_ms,
            );
            return Err(
                Rejection {
                    error: WeirError::PolicyViolation { tenant, reason },
                    close_connection: true,
                },
            );
        }
    }
    Ok(Admitted { tenant, provider, model, blocked_tools: policy.blocked_tools })
}

/// The event of a request that the upstream provider failed to answer.
pub open spec fn failure_event(request: AdmittedModel, now_ms: i64) -> EventModel {
    bare_event(
        request.tenant,
        request.provider,
        request.model,
        UsageOutcome::UpstreamError,
        None,
        now_ms,
    )
}

/// Logs that the upstream provider could not be reached, or broke off, and says
/// so to the client.
pub fn upstream_failed(admitted: Admitted, cause: String, log: &mut EventLog, now_ms: i64) -> (
    rejection: Rejection)
    requires
        old(log).wf(),
        old(log).has_room(),
    ensures
        final(log).wf(),
        rejection == (Rejection { error: WeirError::Upstream(cause), close_connection: true }),
        final(log)@ == pushed(old(log)@, failure_event(admitted@, now_ms)),
{
    note(
        log,
        &admitted.tenant,
        admitted.provider,
        &admitted.model,
        UsageOutcome::UpstreamError,
        None,
        now_ms,
    );
    Rejection { error: WeirError::Upstream(cause), close_connection: true }
}

/// What becomes of a complete response.
#[verifier::ext_equal]
pub enum Delivery {
    /// It goes to the client.
    Deliver,
    /// It invokes this blocked tool.
    BlockedTool(Seq<char>),
    /// With it the tenant is over its ceiling.
    OverBudget,
    /// The tenant is no longer configured.
    UnknownTenant,
}

/// The budgets after a complete response that costs `cost`. One that invokes a
/// blocked tool, or that does not say what it cost, costs nothing.
pub open spec fn settled(
    request: AdmittedModel,
    budget: RegistryModel,
    cost: NonStreamingModel,
    now_ms: i64,
) -> RegistryModel {
    match cost.total_tokens {
        Some(total) if !any_blocked(cost.tool_calls, request.blocked_tools) => recorded(
            budget,
            request.tenant,
            total,
            now_ms,
        ),
        _ => budget,
    }
}

/// What becomes of a complete response that costs `cost`.
pub open spec fn delivery(
    request: AdmittedModel,
    budget: RegistryModel,
    cost: NonStreamingModel,
    now_ms: i64,
) -> Delivery {
    if any_blocked(cost.tool_calls, request.blocked_tools) {
        Delivery::BlockedTool(
            cost.tool_calls[first_blocked(cost.tool_calls, request.blocked_tools) as int],
        )
    } else if cost.total_tokens is None {
        Delivery::Deliver
    } else if !budget.config.limits.contains_key(request.tenant) {
        Delivery::UnknownTenant
    } else if usage(settled(request, budget, cost, now_ms), request.tenant, now_ms)
        <= budget.config.limits[request.tenant].max_tokens {
        Delivery::Deliver
    } else {
        Delivery::OverBudget
    }
}

/// The one event that a complete response leaves in the log.
pub open spec fn delivery_event(
    request: AdmittedModel,
    cost: NonStreamingModel,
    delivery: Delivery,
    now_ms: i64,
) -> EventModel {
    EventModel {
        id: 0,
        tenant: request.tenant,
        provider: request.provider,
        model: request.model,
        tools_called: cost.tool_calls,
        tokens: match cost.total_tokens {
            Some(total) => total,
            None => 0,
        },
        outcome: match delivery {
            Delivery::Deliver => UsageOutcome::Completed,
            Delivery::BlockedTool(_) => UsageOutcome::PolicyBlocked,
            Delivery::OverBudget => UsageOutcome::BudgetBlocked,
            Delivery::UnknownTenant => UsageOutcome::UpstreamError,
        },
        rule: match delivery {
            Delivery::BlockedTool(tool) => Some(blocked_tool_rule(tool)),
            _ => None,
        },
        timestamp_ms: now_ms,
    }
}

/// `result` is what a client is told of the delivery.
pub open spec fn delivery_is(
    result: Result<(), Rejection>,
    tenant: Seq<char>,
    delivery: Delivery,
) -> bool {
    match delivery {
        Delivery::Deliver => result is Ok,
        Delivery::BlockedTool(tool) => result matches Err(rejection) && against_policy(
            rejection,
            tenant,
            blocked_tool_rule(tool),
        ),
        Delivery::OverBudget => result matches Err(rejection) && over_budget(rejection, tenant),
        Delivery::UnknownTenant => result matches Err(rejection) && rejection.error
            == WeirError::UnknownTenant && rejection.close_connection,
    }
}

/// The first of `tools` that is blocked.
fn find_blocked(tools: &Vec<String>, blocked_tools: &Vec<String>) -> (hit: Option<String>)
    ensures
        match hit {
            Some(tool) => any_blocked(texts(tools@), texts(blocked_tools@)) && tool@ == texts(
                tools@,
            )[first_blocked(texts(tools@), texts(blocked_tools@)) as int],
            None => !any_blocked(texts(tools@), texts(blocked_tools@)),
        },
{
    let ghost all = texts(tools@);
    let ghost blocked = texts(blocked_tools@);
    let mut i: usize = 0;
    while i < tools.len()
        invariant
            i <= tools.len(),
            all == texts(tools@),
            blocked == texts(blocked_tools@),
            forall|j: int| 0 <= j < i ==> !blocked.contains(#[trigger] all[j]),
        decreases tools.len() - i,
    {
        let tool = &tools[i];
        assert(all[i as int] == tool@);
        if contains_text(blocked_tools, tool.as_str()) {
            proof {
                lemma_first_blocked(all, blocked, i as nat);
            }
            return Some(tool.clone());
        }
        i += 1;
    }
    proof {
        lemma_first_blocked(all, blocked, i as nat);
    }
    None
}

/// Decides whether a complete response goes to the client, given what it costs.
/// Nothing of it has reached the client before: its tools are checked against
/// the policy, its tokens are recorded, and it is delivered only if it passes
/// both. Either way one event is left in the log.
pub fn settle_response(
    request: Admitted,
    cost: NonStreamingCost,
    budget: &mut BudgetRegistry,
    log: &mut EventLog,
    now_ms: i64,
) -> (result: Result<(), Rejection>)
    requires
        old(log).wf(),
        old(log).has_room(),
    ensures
        final(log).wf(),
        delivery_is(
            result,
            request@.tenant,
            delivery(request@, old(budget)@, cost@, now_ms),
        ),
        final(budget)@ == settled(request@, old(budget)@, cost@, now_ms),
        final(log)@ == pushed(
            old(log)@,
            delivery_event(
                request@,
                cost@,
                delivery(request@, old(budget)@, cost@, now_ms),
                now_ms,
            ),
        ),
{
    let hit = find_blocked(&cost.tool_calls, &request.blocked_tools);
    let mut outcome = UsageOutcome::Completed;
    let mut rule: Option<String> = None;
    let mut result: Result<(), Rejection> = Ok(());
    if let Some(tool) = hit {
        let reason = rule_for_tool(tool.as_str());
        outcome = UsageOutcome::PolicyBlocked;
        rule = Some(reason.clone());
        result = Err(
            Rejection {
                error: WeirError::PolicyViolation { tenant: request.tenant.clone(), reason },
                close_connection: true,
            },
        );
    } else if let Some(total) = cost.total_tokens {
        match budget.record(request.tenant.as_str(), total, now_ms) {
            Ok(true) => {},
            Ok(false) => {
                outcome = UsageOutcome::BudgetBlocked;
                result = Err(
                    Rejection {
                        error: WeirError::BudgetExceeded(request.tenant.clone()),
                        close_connection: true,
                    },
                );
            },
            Err(error) => {
                outcome = UsageOutcome::UpstreamError;
                result = Err(Rejection { error, close_connection: true });
            },
        }
    }
    let tokens: u64 = match cost.total_tokens {
        Some(total) => total,
        None => 0,
    };
    log.push(
        UsageEvent {
            id: 0,
            tenant: request.tenant,
            provider: request.provider,
            model: request.model,
            tools_called: cost.tool_calls,
            tokens,
            outcome,
            rule,
            timestamp_ms: now_ms,
        },
    );
    result
}

/// `cost` is what `adapter` may say that a complete response costs.
pub open spec fn may_cost<A: ProviderAdapter>(
    adapter: A,
    body: Seq<u8>,
    cost: NonStreamingModel,
) -> bool {
    adapter.prices_body(body, cost)
}

/// Decides whether the complete response `body` goes to the client.
pub fn deliver<A: ProviderAdapter>(
    request: Admitted,
    adapter: &A,
    body: &[u8],
    budget: &mut BudgetRegistry,
    log: &mut EventLog,
    now_ms: i64,
) -> (result: Result<(), Rejection>)
    requires
        old(log).wf(),
        old(log).has_room(),
    ensures
        final(log).wf(),
        exists|cost: NonStreamingModel|
            {
                &&& #[trigger] may_cost(*adapter, body@, cost)
                &&& delivery_is(
                    result,
                    request@.tenant,
                    delivery(request@, old(budget)@, cost, now_ms),
                )
                &&& final(budget)@ == settled(request@, old(budget)@, cost, now_ms)
                &&& final(log)@ == pushed(
                    old(log)@,
                    delivery_event(
                        request@,
                        cost,
                        delivery(request@, old(budget)@, cost, now_ms),
                        now_ms,
                    ),
                )
            },
{
    let cost = adapter.non_streaming_cost(body);
    assert(may_cost(*adapter, body@, cost@));
    settle_response(request, cost, budget, log, now_ms)
}

/// How many events a page holds: what was asked for, 100 if nothing was, and
/// never more than 1000.
pub open spec fn page_length(limit: Option<usize>) -> usize {
    match limit {
        Some(limit) => if limit <= 1000 { limit } else { 1000 },
        None => 100,
    }
}

/// The page of the event log behind `since`, or from the start.
pub fn events_page(
    log: &EventLog,
    generation: &String,
    since: Option<u64>,
    limit: Option<usize>,
) -> (response: EventsResponse)
    ensures
        response.generation@ == generation@,
        event_models(response.events@) == page(
            log@.events,
            match since {
                Some(since) => since,
                None => 0,
            },
            page_length(limit),
        ),
{
    let since: u64 = match since {
        Some(since) => since,
        None => 0,
    };
    let limit: usize = match limit {
        Some(limit) => if limit <= 1000 {
            limit
        } else {
            1000
        },
        None => 100,
    };
    EventsResponse { generation: generation.clone(), events: log.since(since, limit) }
}

/// Law: a tenant that has reached its ceiling is turned away, whatever it asks
/// for, before anything is sent upstream.
pub proof fn law_a_used_up_budget_admits_nothing(
    tenant: Seq<char>,
    model: Option<Seq<char>>,
    budget: RegistryModel,
    now_ms: i64,
)
    requires
        budget.config.limits.contains_key(tenant),
        usage(budget, tenant, now_ms) >= budget.config.limits[tenant].max_tokens,
    ensures
        admission(Some(tenant), model, budget, now_ms) == Admission::OverBudget,
{
}

/// Law: what is admitted names no blocked model.
pub proof fn law_blocked_models_are_not_admitted(
    tenant: Option<Seq<char>>,
    model: Seq<char>,
    budget: RegistryModel,
    now_ms: i64,
)
    requires
        tenant matches Some(tenant) && budget.config.policies.contains_key(tenant)
            && budget.config.policies[tenant].blocked_models.contains(model),
    ensures
        admission(tenant, Some(model), budget, now_ms) != Admission::Admit,
{
}

/// Law: without policies anything goes that the budget allows.
pub proof fn law_unrestricted_tenants_are_held_to_their_budget_alone(
    tenant: Seq<char>,
    model: Option<Seq<char>>,
    budget: RegistryModel,
    now_ms: i64,
)
    requires
        budget.config.limits.contains_key(tenant),
        budget.config.policies.contains_key(tenant),
        budget.config.policies[tenant] == no_restrictions(),
    ensures
        admission(Some(tenant), model, budget, now_ms) == Admission::Admit <==> usage(
            budget,
            tenant,
            now_ms,
        ) < budget.config.limits[tenant].max_tokens,
{
}

/// How an admitted request goes on.
pub enum Ending {
    /// The upstream provider fails to answer.
    Failed { now_ms: i64 },
    /// The response comes whole.
    Complete { budget: RegistryModel, cost: NonStreamingModel, now_ms: i64 },
    /// The response is streamed, these things happen to the stream, and then it
    /// is given up.
    Streamed { moves: Seq<Move>, now_ms: i64 },
}

/// The events that an admitted request leaves in the log.
pub open spec fn ending_events(request: AdmittedModel, ending: Ending) -> Seq<EventModel> {
    match ending {
        Ending::Failed { now_ms } => seq![failure_event(request, now_ms)],
        Ending::Complete { budget, cost, now_ms } => seq![
            delivery_event(request, cost, delivery(request, budget, cost, now_ms), now_ms),
        ],
        Ending::Streamed { moves, now_ms } => left_in_log(
            opened(request.tenant, request.provider, request.model, request.blocked_tools),
            moves.push(Move::Close { now_ms }),
        ),
    }
}

/// The events that a request leaves in the log, all in all.
pub open spec fn request_events(
    tenant: Option<Seq<char>>,
    provider: Provider,
    model: Option<Seq<char>>,
    budget: RegistryModel,
    now_ms: i64,
    ending: Ending,
) -> Seq<EventModel> {
    match admission_event(
        tenant,
        provider,
        model,
        admission(tenant, model, budget, now_ms),
        now_ms,
    ) {
        Some(event) => seq![event],
        None => ending_events(
            admitted_request(tenant, provider, model, budget),
            ending,
        ),
    }
}

/// Law: every request leaves exactly one event in the log, whether it is turned
/// away, not answered, answered whole or answered by a stream, and whatever
/// becomes of the stream.
pub proof fn law_every_request_is_logged_once(
    tenant: Option<Seq<char>>,
    provider: Provider,
    model: Option<Seq<char>>,
    budget: RegistryModel,
    now_ms: i64,
    ending: Ending,
)
    ensures
        request_events(tenant, provider, model, budget, now_ms, ending).len() == 1,
{
    if let Ending::Streamed { moves, now_ms } = ending {
        let request = admitted_request(tenant, provider, model, budget);
        law_exactly_one_event(
            request.tenant,
            request.provider,
            request.model,
            request.blocked_tools,
            moves,
            now_ms,
        );
    }
}

/// Law: a complete response is delivered only if it invokes no blocked tool
/// and, where it says what it cost, leaves its tenant within its ceiling.
pub proof fn law_delivered_responses_keep_the_rules(
    request: AdmittedModel,
    budget: RegistryModel,
    cost: NonStreamingModel,
    now_ms: i64,
)
    requires
        delivery(request, budget, cost, now_ms) == Delivery::Deliver,
    ensures
        !any_blocked(cost.tool_calls, request.blocked_tools),
        cost.total_tokens is Some ==> budget.config.limits.contains_key(request.tenant) && usage(
            settled(request, budget, cost, now_ms),
            request.tenant,
            now_ms,
        ) <= budget.config.limits[request.tenant].max_tokens,
{
}

/// Law: the headers that concern one connection only, or the length of a body,
/// are these nine; upstream, the tenant header, the client's host and its wish
/// for compression are held back too, and no other header is.
pub proof fn law_these_headers_are_held_back(name: Seq<char>)
    ensures
        hop_by_hop(name) <==> name == "connection"@ || name == "keep-alive"@ || name
            == "proxy-authenticate"@ || name == "proxy-authorization"@ || name == "te"@ || name
            == "trailers"@ || name == "transfer-encoding"@ || name == "upgrade"@ || name
            == "content-length"@,
        !goes_upstream(name) <==> name == "connection"@ || name == "keep-alive"@ || name
            == "proxy-authenticate"@ || name == "proxy-authorization"@ || name == "te"@ || name
            == "trailers"@ || name == "transfer-encoding"@ || name == "upgrade"@ || name
            == "content-length"@ || name == "host"@ || name == "accept-encoding"@ || name
            == "x-weir-tenant"@,
{
}

/// Law: headers are passed on or held back one by one, each as it came and in
/// order, whatever stands beside them.
pub proof fn law_headers_are_passed_on_one_by_one(
    a: Seq<HeaderModel>,
    b: Seq<HeaderModel>,
    h: HeaderModel,
)
    ensures
        upstream_headers(Seq::empty()).len() == 0,
        upstream_headers(a + b) == upstream_headers(a) + upstream_headers(b),
        goes_upstream(h.name) ==> upstream_headers(seq![h]) == seq![h],
        !goes_upstream(h.name) ==> upstream_headers(seq![h]).len() == 0,
        client_headers(Seq::empty()) == seq![
            HeaderModel { name: "connection"@, value: vstd::utf8::encode_utf8("close"@) },
        ],
        client_headers(a + b) == client_headers(a).drop_last() + client_headers(b),
        hop_by_hop(h.name) ==> client_headers(seq![h]) == client_headers(Seq::empty()),
        !hop_by_hop(h.name) ==> client_headers(seq![h]) == seq![h] + client_headers(Seq::empty()),
{
    reveal(Seq::filter);
    let up = |h: HeaderModel| goes_upstream(h.name);
    let back = |h: HeaderModel| !hop_by_hop(h.name);
    Seq::filter_distributes_over_add(a, b, up);
    Seq::filter_distributes_over_add(a, b, back);
    let one = seq![h];
    assert(one.drop_last() =~= Seq::empty());
    assert(one.last() == h);
    assert(one.drop_last().filter(up) =~= Seq::empty());
    assert(one.drop_last().filter(back) =~= Seq::empty());
    assert(Seq::<HeaderModel>::empty().filter(back) =~= Seq::empty());
    assert(client_headers(a).drop_last() =~= a.filter(back));
    assert(client_headers(a + b) =~= client_headers(a).drop_last() + client_headers(b));
    if up(h) {
        assert(upstream_headers(one) =~= seq![h]);
    }
    if back(h) {
        assert(client_headers(one) =~= seq![h] + client_headers(Seq::empty()));
    }
    assert(client_headers(Seq::empty()) =~= seq![connection_close()]);
}

/// Law: a list of headers shows the name and the value of each.
pub proof fn law_headers_show_their_fields(headers: Seq<Header>, i: int)
    ensures
        header_models(headers).len() == headers.len(),
        0 <= i < headers.len() ==> header_models(headers)[i].name == headers[i].name@,
        0 <= i < headers.len() ==> header_models(headers)[i].value == headers[i].value@,
{
}

/// Law: each provider has its own base URL.
pub proof fn law_providers_have_their_bases(upstreams: Upstreams)
    ensures
        base_of(upstreams, Provider::OpenAi) == upstreams.openai_base@,
        base_of(upstreams, Provider::Anthropic) == upstreams.anthropic_base@,
{
}

proof fn lemma_after_slash(before: Seq<char>, after: Seq<char>)
    requires
        !before.contains('/'),
    ensures
        after_slash(before + seq!['/'] + after) == after,
        after_slash(before).len() == 0,
    decreases before.len(),
{
    let whole = before + seq!['/'] + after;
    if before.len() == 0 {
        assert(whole[0] == '/');
        assert(whole.skip(1) =~= after);
    } else {
        assert(before.contains(before[0]));
        let rest = before.skip(1);
        assert(!rest.contains('/')) by {
            if rest.contains('/') {
                let i = choose|i: int| 0 <= i < rest.len() && rest[i] == '/';
                assert(before[i + 1] == '/');
            }
        }
        lemma_after_slash(rest, after);
        assert(whole.skip(1) =~= rest + seq!['/'] + after);
        assert(whole[0] == before[0]);
    }
}

/// Law: of a request target, what follows the prefix goes upstream, untouched:
/// the prefix is what stands between the first two slashes.
pub proof fn law_the_prefix_is_taken_off(scheme: Seq<char>, prefix: Seq<char>, rest: Seq<char>)
    requires
        !scheme.contains('/'),
        !prefix.contains('/'),
    ensures
        after_slash(after_slash(scheme + seq!['/'] + (prefix + seq!['/'] + rest))) == rest,
        after_slash(after_slash(scheme + seq!['/'] + prefix)).len() == 0,
        after_slash(after_slash(scheme)).len() == 0,
{
    lemma_after_slash(scheme, prefix + seq!['/'] + rest);
    lemma_after_slash(prefix, rest);
    lemma_after_slash(scheme, prefix);
    lemma_after_slash(after_slash(scheme), rest);
}

/// Law: a response is streamed exactly if its content type begins with that of
/// an event stream, whatever parameters follow.
pub proof fn law_event_streams_are_streamed(content_type: Seq<char>, parameters: Seq<char>)
    ensures
        streams(Some("text/event-stream"@ + parameters)),
        streams(Some(content_type)) ==> content_type == "text/event-stream"@ + content_type.skip(
            "text/event-stream"@.len() as int,
        ),
        !streams(None),
{
    let kind = "text/event-stream"@;
    let whole = kind + parameters;
    assert(whole.subrange(0, kind.len() as int) =~= kind);
    if streams(Some(content_type)) {
        assert(content_type =~= kind + content_type.skip(kind.len() as int));
    }
}

/// Law: a request is held to its tenant's budget and policy, and to nothing
/// else. It is let in exactly if its tenant has a budget and a policy, has used
/// less than its ceiling, and the model that it names, if any, is not itself on
/// the tenant's list. A used-up budget comes before everything but an unknown
/// tenant.
pub proof fn law_requests_are_held_to_budget_and_policy(
    tenant: Seq<char>,
    model: Option<Seq<char>>,
    budget: RegistryModel,
    now_ms: i64,
)
    ensures
        ({
            let decision = admission(Some(tenant), model, budget, now_ms);
            let limits = budget.config.limits;
            let policies = budget.config.policies;
            let used = usage(budget, tenant, now_ms);
            &&& decision == Admission::Admit <==> limits.contains_key(tenant)
                && policies.contains_key(tenant) && used < limits[tenant].max_tokens && (model
                is None || !policies[tenant].blocked_models.contains(model->0))
            &&& decision == Admission::OverBudget <==> limits.contains_key(tenant) && used
                >= limits[tenant].max_tokens
            &&& decision == Admission::UnknownTenant <==> !limits.contains_key(tenant) || (used
                < limits[tenant].max_tokens && !policies.contains_key(tenant))
            &&& decision is BlockedModel <==> limits.contains_key(tenant) && policies.contains_key(
                tenant,
            ) && used < limits[tenant].max_tokens && model is Some
                && policies[tenant].blocked_models.contains(model->0)
            &&& decision matches Admission::BlockedModel(name) ==> model == Some(name)
            &&& decision != Admission::NoTenant
        }),
        admission(None, model, budget, now_ms) == Admission::NoTenant,
{
}

/// Law: a model is blocked only if the tenant's list names it, letter for
/// letter: no other model is, however much alike their names are.
pub proof fn law_only_listed_models_are_blocked(
    tenant: Option<Seq<char>>,
    model: Option<Seq<char>>,
    blocked: Seq<char>,
    budget: RegistryModel,
    now_ms: i64,
)
    requires
        admission(tenant, model, budget, now_ms) == Admission::BlockedModel(blocked),
    ensures
        tenant is Some,
        model == Some(blocked),
        exists|i: int|
            0 <= i < budget.config.policies[tenant->0].blocked_models.len()
                && #[trigger] budget.config.policies[tenant->0].blocked_models[i] == blocked,
{
}

/// Law: what a client is told. A request that is let in carries its tenant, its
/// provider, its model and the tenant's blocked tools; one that is turned away
/// says why, and the connection is closed unless no tenant was named.
pub proof fn law_requests_are_answered_for_what_they_are(
    result: Result<Admitted, Rejection>,
    tenant: Option<Seq<char>>,
    provider: Provider,
    model: Option<Seq<char>>,
    budget: RegistryModel,
    now_ms: i64,
)
    requires
        admission_is(
            result,
            tenant,
            provider,
            model,
            budget,
            admission(tenant, model, budget, now_ms),
        ),
    ensures
        tenant is None ==> {
            &&& result matches Err(rejection)
            &&& rejection.error == WeirError::UnknownTenant
            &&& !rejection.close_connection
        },
        tenant matches Some(tenant) ==> {
            let limits = budget.config.limits;
            let policies = budget.config.policies;
            let used = usage(budget, tenant, now_ms);
            if !limits.contains_key(tenant) {
                &&& result matches Err(rejection)
                &&& rejection.error == WeirError::UnknownTenant
                &&& rejection.close_connection
            } else if used >= limits[tenant].max_tokens {
                &&& result matches Err(rejection)
                &&& rejection.error matches WeirError::BudgetExceeded(name)
                &&& name@ == tenant
                &&& rejection.close_connection
            } else if !policies.contains_key(tenant) {
                &&& result matches Err(rejection)
                &&& rejection.error == WeirError::UnknownTenant
                &&& rejection.close_connection
            } else if model is Some && policies[tenant].blocked_models.contains(model->0) {
                &&& result matches Err(rejection)
                &&& rejection.error matches WeirError::PolicyViolation { tenant: name, reason }
                &&& name@ == tenant
                &&& reason@ == "blocked_model:"@ + model->0
                &&& rejection.close_connection
            } else {
                &&& result matches Ok(admitted)
                &&& admitted.tenant@ == tenant
                &&& admitted.provider == provider
                &&& optional_text(admitted.model) == model
                &&& texts(admitted.blocked_tools@) == policies[tenant].blocked_tools
            }
        },
{
}

/// Law: asking whether a request may go on charges nobody, and leaves budgets
/// and policies as they are.
pub proof fn law_considering_a_request_is_free(
    budget: RegistryModel,
    tenant: Option<Seq<char>>,
    anyone: Seq<char>,
    now_ms: i64,
)
    ensures
        usage(asked_for(budget, tenant), anyone, now_ms) == usage(budget, anyone, now_ms),
        asked_for(budget, tenant).config == budget.config,
{
    if let Some(tenant) = tenant {
        law_asking_changes_no_usage(budget, tenant, anyone, now_ms);
    }
}

/// Law: a request that is turned away is logged at once, under the tenant that
/// it names or the empty name, with its provider and model, no tools and no
/// tokens: as blocked by the budget, as blocked by the policy with the rule that
/// names the model, or else as an error. One that is let in is not logged yet.
pub proof fn law_refusals_are_logged_for_what_they_are(
    tenant: Option<Seq<char>>,
    provider: Provider,
    model: Option<Seq<char>>,
    decision: Admission,
    now_ms: i64,
)
    ensures
        admission_event(tenant, provider, model, decision, now_ms) is None <==> decision
            == Admission::Admit,
        admission_event(tenant, provider, model, decision, now_ms) matches Some(event) ==> {
            &&& tenant matches Some(tenant) ==> event.tenant == tenant
            &&& tenant is None ==> event.tenant.len() == 0
            &&& event.provider == provider
            &&& event.model == model
            &&& event.tools_called.len() == 0
            &&& event.tokens == 0
            &&& event.timestamp_ms == now_ms
            &&& event.outcome == UsageOutcome::BudgetBlocked <==> decision == Admission::OverBudget
            &&& event.outcome == UsageOutcome::PolicyBlocked <==> decision is BlockedModel
            &&& event.outcome == UsageOutcome::UpstreamError <==> decision == Admission::NoTenant
                || decision == Admission::UnknownTenant
            &&& decision matches Admission::BlockedModel(name) ==> event.rule == Some(
                "blocked_model:"@ + name,
            )
            &&& !(decision is BlockedModel) ==> event.rule is None
        },
{
}

/// Law: a request that the upstream provider failed to answer is logged as an
/// error of its tenant, with its provider and model, no tools and no tokens.
pub proof fn law_failures_are_logged_for_what_they_are(request: AdmittedModel, now_ms: i64)
    ensures
        ({
            let event = failure_event(request, now_ms);
            &&& event.tenant == request.tenant
            &&& event.provider == request.provider
            &&& event.model == request.model
            &&& event.tools_called.len() == 0
            &&& event.tokens == 0
            &&& event.outcome == UsageOutcome::UpstreamError
            &&& event.rule is None
            &&& event.timestamp_ms == now_ms
        }),
{
}

/// Law: a response that invokes a blocked tool is not delivered and costs
/// nothing, and the first such tool is the one that is named.
pub proof fn law_blocked_tools_hold_a_response_back(
    request: AdmittedModel,
    budget: RegistryModel,
    cost: NonStreamingModel,
    now_ms: i64,
    k: int,
)
    requires
        0 <= k < cost.tool_calls.len(),
        request.blocked_tools.contains(cost.tool_calls[k]),
        forall|j: int|
            0 <= j < k ==> !request.blocked_tools.contains(#[trigger] cost.tool_calls[j]),
    ensures
        delivery(request, budget, cost, now_ms) == Delivery::BlockedTool(cost.tool_calls[k]),
        settled(request, budget, cost, now_ms) == budget,
{
    lemma_first_blocked(cost.tool_calls, request.blocked_tools, k as nat);
}

/// Law: a response that invokes no blocked tool is charged to its tenant in
/// full, and to nobody else, and is delivered exactly if the tenant is then
/// still within its ceiling. (As long as no 32-bit count is exhausted.)
pub proof fn law_responses_are_charged_before_they_are_delivered(
    request: AdmittedModel,
    budget: RegistryModel,
    cost: NonStreamingModel,
    now_ms: i64,
    total: u64,
    other: Seq<char>,
)
    requires
        allowed(cost.tool_calls, request.blocked_tools),
        cost.total_tokens == Some(total),
        budget.config.limits.contains_key(request.tenant),
        counter_of(budget, request.tenant).latest_ms <= now_ms,
        usage(budget, request.tenant, now_ms) + total <= u32::MAX,
        other != request.tenant,
    ensures
        usage(settled(request, budget, cost, now_ms), request.tenant, now_ms) == usage(
            budget,
            request.tenant,
            now_ms,
        ) + total,
        usage(settled(request, budget, cost, now_ms), other, now_ms) == usage(
            budget,
            other,
            now_ms,
        ),
        delivery(request, budget, cost, now_ms) == if usage(budget, request.tenant, now_ms) + total
            <= budget.config.limits[request.tenant].max_tokens {
            Delivery::Deliver
        } else {
            Delivery::OverBudget
        },
{
    lemma_first_blocked(cost.tool_calls, request.blocked_tools, cost.tool_calls.len());
    law_recording_charges_in_full(budget, request.tenant, other, total, now_ms);
}

/// Law: no response is too large to be charged for, as far as a 32-bit count can
/// show, and however large it is, it is delivered exactly if its tenant is
/// within its ceiling once it is charged.
pub proof fn law_large_responses_are_not_waved_through(
    request: AdmittedModel,
    budget: RegistryModel,
    cost: NonStreamingModel,
    now_ms: i64,
    total: u64,
)
    requires
        allowed(cost.tool_calls, request.blocked_tools),
        cost.total_tokens == Some(total),
        budget.config.limits.contains_key(request.tenant),
        counter_of(budget, request.tenant).latest_ms <= now_ms,
    ensures
        usage(settled(request, budget, cost, now_ms), request.tenant, now_ms) >= if total
            <= u32::MAX {
            total as int
        } else {
            u32::MAX as int
        },
        delivery(request, budget, cost, now_ms) == if usage(
            settled(request, budget, cost, now_ms),
            request.tenant,
            now_ms,
        ) <= budget.config.limits[request.tenant].max_tokens {
            Delivery::Deliver
        } else {
            Delivery::OverBudget
        },
{
    lemma_first_blocked(cost.tool_calls, request.blocked_tools, cost.tool_calls.len());
    let counter = counter_of(budget, request.tenant);
    let after = added(counter, total, now_ms as int);
    vstd::arithmetic::div_mod::lemma_div_is_ordered(
        counter.latest_ms,
        now_ms as int,
        counter.window_ms,
    );
    law_total_lies_between_counts(after, now_ms as int);
}

/// Law: a response that invokes no blocked tool and does not say what it cost
/// is delivered and charged to nobody; one that does say so, of a tenant that
/// is no longer configured, is held back and charged to nobody.
pub proof fn law_responses_without_a_price_or_a_tenant(
    request: AdmittedModel,
    budget: RegistryModel,
    cost: NonStreamingModel,
    now_ms: i64,
)
    requires
        allowed(cost.tool_calls, request.blocked_tools),
    ensures
        cost.total_tokens is None ==> delivery(request, budget, cost, now_ms) == Delivery::Deliver
            && settled(request, budget, cost, now_ms) == budget,
        cost.total_tokens is Some && !budget.config.limits.contains_key(request.tenant)
            ==> delivery(request, budget, cost, now_ms) == Delivery::UnknownTenant && settled(
            request,
            budget,
            cost,
            now_ms,
        ) == budget,
{
    lemma_first_blocked(cost.tool_calls, request.blocked_tools, cost.tool_calls.len());
}

/// Law: what a client is told of a response: nothing but the response if it is
/// delivered, and else why it is held back, and the connection is closed.
pub proof fn law_responses_are_answered_for_what_they_are(
    result: Result<(), Rejection>,
    tenant: Seq<char>,
    delivery: Delivery,
)
    requires
        delivery_is(result, tenant, delivery),
    ensures
        result is Ok <==> delivery == Delivery::Deliver,
        result matches Err(rejection) ==> rejection.close_connection,
        delivery matches Delivery::BlockedTool(tool) ==> {
            &&& result matches Err(rejection)
            &&& rejection.error matches WeirError::PolicyViolation { tenant: name, reason }
            &&& name@ == tenant
            &&& reason@ == "blocked_tool:"@ + tool
        },
        delivery == Delivery::OverBudget ==> {
            &&& result matches Err(rejection)
            &&& rejection.error matches WeirError::BudgetExceeded(name)
            &&& name@ == tenant
        },
        delivery == Delivery::UnknownTenant ==> {
            &&& result matches Err(rejection)
            &&& rejection.error == WeirError::UnknownTenant
        },
{
}

/// Law: a complete response is logged with all the tools that it invokes and
/// what it says that it cost, as completed if it is delivered, and else for what
/// held it back.
pub proof fn law_responses_are_logged_for_what_they_are(
    request: AdmittedModel,
    cost: NonStreamingModel,
    delivery: Delivery,
    now_ms: i64,
)
    ensures
        ({
            let event = delivery_event(request, cost, delivery, now_ms);
            &&& event.tenant == request.tenant
            &&& event.provider == request.provider
            &&& event.model == request.model
            &&& event.tools_called == cost.tool_calls
            &&& cost.total_tokens matches Some(total) ==> event.tokens == total
            &&& cost.total_tokens is None ==> event.tokens == 0
            &&& event.timestamp_ms == now_ms
            &&& event.outcome == UsageOutcome::Completed <==> delivery == Delivery::Deliver
            &&& event.outcome == UsageOutcome::PolicyBlocked <==> delivery is BlockedTool
            &&& event.outcome == UsageOutcome::BudgetBlocked <==> delivery == Delivery::OverBudget
            &&& event.outcome == UsageOutcome::UpstreamError <==> delivery
                == Delivery::UnknownTenant
            &&& delivery matches Delivery::BlockedTool(tool) ==> event.rule == Some(
                "blocked_tool:"@ + tool,
            )
            &&& !(delivery is BlockedTool) ==> event.rule is None
        }),
{
}

proof fn lemma_blocked_call_is_held_back(
    request: AdmittedModel,
    budget: RegistryModel,
    cost: NonStreamingModel,
    now_ms: i64,
    tool: Seq<char>,
)
    requires
        cost.tool_calls.contains(tool),
        request.blocked_tools.contains(tool),
    ensures
        delivery(request, budget, cost, now_ms) is BlockedTool,
        settled(request, budget, cost, now_ms) == budget,
{
    law_every_tool_is_checked(cost.tool_calls, request.blocked_tools);
    let i = choose|i: int| 0 <= i < cost.tool_calls.len() && cost.tool_calls[i] == tool;
    assert(request.blocked_tools.contains(cost.tool_calls[i]));
}

/// Law: an OpenAI response in which any call of any choice names a blocked tool
/// is not delivered, is refused by policy, and costs its tenant nothing, where
/// the decoder reads the body as this payload.
pub proof fn law_openai_responses_call_no_blocked_tool<D: PayloadDecoder>(
    adapter: OpenAiAdapter<D>,
    body: Seq<u8>,
    payload: OpenAiPayload,
    cost: NonStreamingModel,
    request: AdmittedModel,
    budget: RegistryModel,
    now_ms: i64,
    result: Result<(), Rejection>,
    j: int,
    k: int,
)
    requires
        forall|bytes: &[u8], read: Option<OpenAiPayload>|
            bytes@ == body && #[trigger] call_ensures(
                D::openai_body,
                (&adapter.decoder(), bytes),
                read,
            ) ==> read == Some(payload),
        may_cost(adapter, body, cost),
        delivery_is(result, request.tenant, delivery(request, budget, cost, now_ms)),
        0 <= j < payload.choices@.len(),
        0 <= k < payload.choices@[j].tool_names@.len(),
        payload.choices@[j].tool_names@[k] is Some,
        request.blocked_tools.contains(payload.choices@[j].tool_names@[k]->0@),
    ensures
        result is Err,
        result->Err_0.error is PolicyViolation,
        settled(request, budget, cost, now_ms) == budget,
{
    crate::provider::openai::law_responses_cost_what_is_read(adapter, body, cost, Some(payload));
    crate::provider::openai::law_no_tool_call_is_overlooked(
        adapter.vocabulary(),
        seq![payload],
        0,
        j,
        k,
    );
    lemma_blocked_call_is_held_back(
        request,
        budget,
        cost,
        now_ms,
        payload.choices@[j].tool_names@[k]->0@,
    );
}

/// Law: an Anthropic response in which any content block names a blocked tool is
/// not delivered, is refused by policy, and costs its tenant nothing, where the
/// decoder reads the body as this message.
pub proof fn law_anthropic_responses_call_no_blocked_tool<D: PayloadDecoder>(
    adapter: AnthropicAdapter<D>,
    body: Seq<u8>,
    message: AnthropicMessage,
    cost: NonStreamingModel,
    request: AdmittedModel,
    budget: RegistryModel,
    now_ms: i64,
    result: Result<(), Rejection>,
    k: int,
)
    requires
        forall|bytes: &[u8], read: Option<AnthropicMessage>|
            bytes@ == body && #[trigger] call_ensures(
                D::anthropic_body,
                (&adapter.decoder(), bytes),
                read,
            ) ==> read == Some(message),
        may_cost(adapter, body, cost),
        delivery_is(result, request.tenant, delivery(request, budget, cost, now_ms)),
        0 <= k < message.tool_names@.len(),
        message.tool_names@[k] is Some,
        request.blocked_tools.contains(message.tool_names@[k]->0@),
    ensures
        result is Err,
        result->Err_0.error is PolicyViolation,
        settled(request, budget, cost, now_ms) == budget,
{
    crate::provider::anthropic::law_responses_cost_what_is_read(
        adapter,
        body,
        cost,
        Some(message),
    );
    crate::provider::anthropic::law_a_response_costs_what_it_states(message, k);
    lemma_blocked_call_is_held_back(
        request,
        budget,
        cost,
        now_ms,
        message.tool_names@[k]->0@,
    );
}

/// Law: a response costs what the adapter may say that its body costs.
pub proof fn law_the_body_is_priced<A: ProviderAdapter>(
    adapter: A,
    body: Seq<u8>,
    cost: NonStreamingModel,
)
    ensures
        may_cost(adapter, body, cost) == adapter.prices_body(body, cost),
{
}

/// Law: a page holds as many events as were asked for, up to a thousand, and a
/// hundred if nothing was asked for.
pub proof fn law_pages_have_the_length_asked_for(limit: usize)
    ensures
        limit <= 1000 ==> page_length(Some(limit)) == limit,
        limit > 1000 ==> page_length(Some(limit)) == 1000,
        page_length(None) == 100,
{
}

/// Law: an admitted request shows its fields.
pub proof fn law_admitted_requests_show_their_fields(admitted: Admitted)
    ensures
        admitted@.tenant == admitted.tenant@,
        admitted@.provider == admitted.provider,
        admitted@.model == optional_text(admitted.model),
        admitted@.blocked_tools == texts(admitted.blocked_tools@),
{
}

/// Law: whenever a response comes in that invokes no blocked tool and says what
/// it cost, even behind the clock, that is recorded for its tenant, and it is
/// delivered exactly if the tenant has a budget and is then within it.
pub proof fn law_every_response_is_recorded(
    request: AdmittedModel,
    budget: RegistryModel,
    cost: NonStreamingModel,
    now_ms: i64,
    total: u64,
)
    requires
        allowed(cost.tool_calls, request.blocked_tools),
        cost.total_tokens == Some(total),
    ensures
        ({
            let after = recorded(budget, request.tenant, total, now_ms);
            &&& settled(request, budget, cost, now_ms) == after
            &&& delivery(request, budget, cost, now_ms) == Delivery::Deliver
                <==> budget.config.limits.contains_key(request.tenant) && usage(
                after,
                request.tenant,
                now_ms,
            ) <= budget.config.limits[request.tenant].max_tokens
        }),
{
    lemma_first_blocked(cost.tool_calls, request.blocked_tools, cost.tool_calls.len());
}

} // verus!
