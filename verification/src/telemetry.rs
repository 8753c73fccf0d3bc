//! A bounded log of what became of each request.

use std::collections::VecDeque;

use vstd::prelude::*;

use crate::provider::Provider;
use crate::text::{copy_optional, copy_texts, optional_text, texts};

verus! {

/// How a request ended.
#[derive(Debug, Clone, Copy, PartialEq, Eq, Structural)]
pub enum UsageOutcome {
    /// The response was delivered in full.
    Completed,
    /// The tenant's budget did not allow it.
    BudgetBlocked,
    /// The tenant's policy did not allow it.
    PolicyBlocked,
    /// The upstream provider failed, or the request belonged to no configured
    /// tenant.
    UpstreamError,
    /// The client went away before the response was complete.
    Incomplete,
}

/// The name of an outcome in the event log's JSON.
pub open spec fn outcome_name(outcome: UsageOutcome) -> Seq<char> {
    match outcome {
        UsageOutcome::Completed => "completed"@,
        UsageOutcome::BudgetBlocked => "budget_blocked"@,
        UsageOutcome::PolicyBlocked => "policy_blocked"@,
        UsageOutcome::UpstreamError => "upstream_error"@,
        UsageOutcome::Incomplete => "incomplete"@,
    }
}

impl UsageOutcome {
    /// The name of the outcome in the event log's JSON.
    pub fn as_str(&self) -> (name: &'static str)
        ensures
            name@ == outcome_name(*self),
    {
        match self {
            UsageOutcome::Completed => "completed",
            UsageOutcome::BudgetBlocked => "budget_blocked",
            UsageOutcome::PolicyBlocked => "policy_blocked",
            UsageOutcome::UpstreamError => "upstream_error",
            UsageOutcome::Incomplete => "incomplete",
        }
    }
}

/// What became of one request. It never holds prompt or response content, and
/// of a tool call only the tool's name.
#[derive(Debug)]
pub struct UsageEvent {
    pub id: u64,
    pub tenant: String,
    pub provider: Provider,
    pub model: Option<String>,
    pub tools_called: Vec<String>,
    pub tokens: u64,
    pub outcome: UsageOutcome,
    /// The rule that fired, if the tenant's policy blocked the request.
    pub rule: Option<String>,
    pub timestamp_ms: i64,
}

/// The contents of an event.
#[verifier::ext_equal]
pub struct EventModel {
    pub id: u64,
    pub tenant: Seq<char>,
    pub provider: Provider,
    pub model: Option<Seq<char>>,
    pub tools_called: Seq<Seq<char>>,
    pub tokens: u64,
    pub outcome: UsageOutcome,
    pub rule: Option<Seq<char>>,
    pub timestamp_ms: i64,
}

impl View for UsageEvent {
    type V = EventModel;

    open spec fn view(&self) -> EventModel {
        EventModel {
            id: self.id,
            tenant: self.tenant@,
            provider: self.provider,
            model: optional_text(self.model),
            tools_called: texts(self.tools_called@),
            tokens: self.tokens,
            outcome: self.outcome,
            rule: optional_text(self.rule),
            timestamp_ms: self.timestamp_ms,
        }
    }
}

impl Clone for UsageEvent {
    fn clone(&self) -> (copy: Self)
        ensures
            copy@ == self@,
    {
        UsageEvent {
            id: self.id,
            tenant: self.tenant.clone(),
            provider: self.provider,
            model: copy_optional(&self.model),
            tools_called: copy_texts(&self.tools_called),
            tokens: self.tokens,
            outcome: self.outcome,
            rule: copy_optional(&self.rule),
            timestamp_ms: self.timestamp_ms,
        }
    }
}

/// A page of the event log, and which process it comes from: ids start anew
/// with each process.
#[derive(Debug)]
pub struct EventsResponse {
    pub generation: String,
    pub events: Vec<UsageEvent>,
}

/// The contents of a sequence of events.
pub open spec fn event_models(events: Seq<UsageEvent>) -> Seq<EventModel> {
    events.map_values(|e: UsageEvent| e@)
}

/// What a log holds: the retained events, oldest first, the id of the next
/// event, and how many events it retains.
#[verifier::ext_equal]
pub struct LogModel {
    pub events: Seq<EventModel>,
    pub next_id: u64,
    pub capacity: usize,
}

/// The last `capacity` events.
pub open spec fn retained(events: Seq<EventModel>, capacity: usize) -> Seq<EventModel> {
    if events.len() <= capacity { events } else { events.skip(events.len() - capacity) }
}

/// The log after one more event: it gets the next id, whatever id it came
/// with, and the oldest events give way if there are too many.
pub open spec fn pushed(log: LogModel, event: EventModel) -> LogModel {
    LogModel {
        events: retained(log.events.push(EventModel { id: log.next_id, ..event }), log.capacity),
        next_id: (log.next_id + 1) as u64,
        capacity: log.capacity,
    }
}

/// The events with an id above `since`.
pub open spec fn newer(events: Seq<EventModel>, since: u64) -> Seq<EventModel> {
    events.filter(|e: EventModel| e.id > since)
}

/// The first `limit` events with an id above `since`.
pub open spec fn page(events: Seq<EventModel>, since: u64, limit: usize) -> Seq<EventModel> {
    let found = newer(events, since);
    if found.len() <= limit { found } else { found.take(limit as int) }
}

/// A log holds at least one event's place and no more events than that, and
/// their ids run without a gap up to the last one given out.
pub open spec fn log_ok(log: LogModel) -> bool {
    &&& 1 <= log.capacity
    &&& log.events.len() <= log.capacity
    &&& log.events.len() < log.next_id
    &&& forall|i: int|
        0 <= i < log.events.len() ==> (#[trigger] log.events[i]).id == log.next_id
            - log.events.len() + i
}

/// A bounded buffer of the most recent events.
pub struct EventLog {
    events: VecDeque<UsageEvent>,
    next_id: u64,
    capacity: usize,
}

impl View for EventLog {
    type V = LogModel;

    closed spec fn view(&self) -> LogModel {
        LogModel {
            events: event_models(self.events@),
            next_id: self.next_id,
            capacity: self.capacity,
        }
    }
}

impl EventLog {
    /// The log is as its operations keep it.
    pub open spec fn wf(&self) -> bool {
        log_ok(self@)
    }

    /// There is an id left for another event.
    pub open spec fn has_room(&self) -> bool {
        self@.next_id < u64::MAX
    }

    /// An empty log that retains `capacity` events, but at least one.
    pub fn new(capacity: usize) -> (log: Self)
        ensures
            log.wf(),
            log.has_room(),
            log@ == (LogModel {
                events: Seq::empty(),
                next_id: 1,
                capacity: if capacity == 0 { 1 } else { capacity },
            }),
    {
        let log = EventLog {
            events: VecDeque::new(),
            next_id: 1,
            capacity: if capacity == 0 { 1 } else { capacity },
        };
        assert(log@.events =~= Seq::empty());
        log
    }

    /// Whether there is an id left for another event.
    pub fn can_push(&self) -> (room: bool)
        ensures
            room == self.has_room(),
    {
        self.next_id < u64::MAX
    }

    /// Gives the event the next id, whatever id it came with, and appends it;
    /// the oldest events are evicted if the log is over its capacity.
    pub fn push(&mut self, event: UsageEvent)
        requires
            old(self).wf(),
            old(self).has_room(),
        ensures
            final(self).wf(),
            final(self)@ == pushed(old(self)@, event@),
    {
        let mut event = event;
        event.id = self.next_id;
        self.next_id = self.next_id + 1;
        self.events.push_back(event);
        let ghost all = self.events@;
        assert(event_models(all) =~= old(self)@.events.push(event@));
        assert(all.skip(0) =~= all);
        let ghost dropped: int = 0;
        while self.events.len() > self.capacity
            invariant
                1 <= self.capacity,
                self.capacity == old(self)@.capacity,
                self.next_id == old(self)@.next_id + 1,
                0 <= dropped <= all.len(),
                self.events@ == all.skip(dropped),
                all.len() - dropped > self.capacity || dropped == 0 || all.len() - dropped
                    == self.capacity,
            decreases self.events.len(),
        {
            let _ = self.events.pop_front();
            assert(self.events@ =~= all.skip(dropped + 1));
            proof {
                dropped = dropped + 1;
            }
        }
        assert(event_models(self.events@) =~= event_models(all).skip(dropped));
        assert(event_models(all).skip(0) =~= event_models(all));
    }

    /// The events with an id above `since`, oldest first, at most `limit` of
    /// them.
    pub fn since(&self, since: u64, limit: usize) -> (found: Vec<UsageEvent>)
        ensures
            event_models(found@) == page(self@.events, since, limit),
    {
        let mut found: Vec<UsageEvent> = Vec::new();
        let ghost all = self@.events;
        let ghost keep = |e: EventModel| e.id > since;
        let mut i: usize = 0;
        assert(all.take(0) =~= Seq::empty());
        assert(event_models(found@) =~= Seq::empty());
        proof {
            reveal(Seq::filter);
        }
        while i < self.events.len() && found.len() < limit
            invariant
                i <= self.events.len(),
                all == event_models(self.events@),
                keep == (|e: EventModel| e.id > since),
                found.len() <= limit,
                event_models(found@) == all.take(i as int).filter(keep),
            decreases self.events.len() - i,
        {
            let event = &self.events[i];
            assert(all[i as int] == event@);
            proof {
                reveal(Seq::filter);
                assert(all.take(i + 1).drop_last() =~= all.take(i as int));
            }
            if event.id > since {
                let ghost before = found@;
                found.push(event.clone());
                assert(event_models(found@) =~= event_models(before).push(event@));
            }
            i += 1;
        }
        proof {
            assert(all =~= all.take(i as int) + all.skip(i as int));
            Seq::filter_distributes_over_add(all.take(i as int), all.skip(i as int), keep);
            if i == self.events.len() {
                assert(all.take(i as int) =~= all);
            }
            assert(event_models(found@) =~= page(all, since, limit));
        }
        found
    }
}

/// How many of `count` consecutive ids from `first` on are at most `since`.
spec fn skipped(first: int, count: nat, since: u64) -> int {
    if since < first {
        0
    } else if since - first + 1 >= count {
        count as int
    } else {
        since - first + 1
    }
}

proof fn lemma_newer_is_a_suffix(events: Seq<EventModel>, first: int, since: u64)
    requires
        forall|i: int| 0 <= i < events.len() ==> (#[trigger] events[i]).id == first + i,
    ensures
        newer(events, since) == events.skip(skipped(first, events.len(), since)),
    decreases events.len(),
{
    reveal(Seq::filter);
    let keep = |e: EventModel| e.id > since;
    if events.len() > 0 {
        let rest = events.drop_last();
        assert forall|i: int| 0 <= i < rest.len() implies (#[trigger] rest[i]).id == first + i by {
            assert(rest[i] == events[i]);
        }
        lemma_newer_is_a_suffix(rest, first, since);
        assert(events.last().id == first + events.len() - 1);
        let k = skipped(first, rest.len(), since);
        if keep(events.last()) {
            assert(newer(events, since) =~= rest.skip(k).push(events.last()));
            assert(rest.skip(k).push(events.last()) =~= events.skip(k));
        } else {
            assert(newer(events, since) =~= newer(rest, since));
            assert(rest.skip(k) =~= events.skip(skipped(first, events.len(), since)));
        }
    } else {
        assert(events.skip(0) =~= events);
        assert(newer(events, since) =~= events);
    }
}

/// Law: an event that was pushed is read back, with its new id, by a reader
/// that has seen everything before it, and nothing else is.
pub proof fn law_a_pushed_event_is_read_back(log: LogModel, event: EventModel, limit: usize)
    requires
        log_ok(log),
        log.next_id < u64::MAX,
        1 <= limit,
    ensures
        page(pushed(log, event).events, (log.next_id - 1) as u64, limit) == seq![
            EventModel { id: log.next_id, ..event },
        ],
{
    let after = pushed(log, event);
    lemma_pushed_is_ok(log, event);
    lemma_newer_is_a_suffix(
        after.events,
        after.next_id - after.events.len(),
        (log.next_id - 1) as u64,
    );
    assert(after.events.last() == (EventModel { id: log.next_id, ..event }));
    assert(newer(after.events, (log.next_id - 1) as u64) =~= seq![after.events.last()]);
}

proof fn lemma_pushed_is_ok(log: LogModel, event: EventModel)
    requires
        log_ok(log),
        log.next_id < u64::MAX,
    ensures
        log_ok(pushed(log, event)),
        pushed(log, event).events.len() > 0,
        pushed(log, event).events.last() == (EventModel { id: log.next_id, ..event }),
{
}

/// Law: ids grow with every event and are never given out twice.
pub proof fn law_ids_strictly_increase(log: LogModel, i: int, j: int)
    requires
        log_ok(log),
        0 <= i < j < log.events.len(),
    ensures
        log.events[i].id < log.events[j].id < log.next_id,
{
}

/// Law: reading on from the last event of a page loses and repeats nothing: two
/// pages in a row are one page of both their lengths.
pub proof fn law_paging_loses_nothing(log: LogModel, since: u64, first: usize, second: usize)
    requires
        log_ok(log),
        page(log.events, since, first).len() > 0,
        first + second <= usize::MAX,
    ensures
        page(log.events, since, first) + page(
            log.events,
            page(log.events, since, first).last().id,
            second,
        ) == page(log.events, since, (first + second) as usize),
{
    let start = log.next_id - log.events.len();
    let cursor = page(log.events, since, first).last().id;
    lemma_newer_is_a_suffix(log.events, start, since);
    lemma_newer_is_a_suffix(log.events, start, cursor);
    let k = skipped(start, log.events.len(), since);
    let n = page(log.events, since, first).len() as int;
    assert(page(log.events, since, first).last() == log.events[k + n - 1]);
    assert(skipped(start, log.events.len(), cursor) == k + n);
    assert(page(log.events, since, first) + page(log.events, cursor, second) =~= page(
        log.events,
        since,
        (first + second) as usize,
    ));
}

/// A log after a sequence of events.
pub open spec fn pushed_all(log: LogModel, events: Seq<EventModel>) -> LogModel
    decreases events.len(),
{
    if events.len() == 0 {
        log
    } else {
        pushed(pushed_all(log, events.drop_last()), events.last())
    }
}

/// The events with the ids that they get, counted from 1.
pub open spec fn numbered(events: Seq<EventModel>) -> Seq<EventModel> {
    events.map(|i: int, e: EventModel| EventModel { id: (i + 1) as u64, ..e })
}

/// Law: a log holds exactly the most recent events, as many as its capacity
/// allows, in the order they came in.
pub proof fn law_log_keeps_the_most_recent(capacity: usize, events: Seq<EventModel>)
    requires
        1 <= capacity,
        events.len() < u64::MAX,
    ensures
        pushed_all(LogModel { events: Seq::empty(), next_id: 1, capacity }, events) == (LogModel {
            events: retained(numbered(events), capacity),
            next_id: (events.len() + 1) as u64,
            capacity,
        }),
    decreases events.len(),
{
    let empty = LogModel { events: Seq::empty(), next_id: 1, capacity };
    if events.len() > 0 {
        law_log_keeps_the_most_recent(capacity, events.drop_last());
        let before = pushed_all(empty, events.drop_last());
        let last = EventModel { id: events.len() as u64, ..events.last() };
        assert(numbered(events) =~= numbered(events.drop_last()).push(last));
        assert(retained(before.events.push(last), capacity) =~= retained(
            numbered(events),
            capacity,
        ));
    } else {
        assert(numbered(events) =~= Seq::empty());
        assert(pushed_all(empty, events) == empty);
    }
}

/// Law: a log that has seen these events holds the last of them, as many as its
/// capacity allows, each with its number as its id and otherwise as it came.
pub proof fn law_the_log_is_a_suffix(capacity: usize, events: Seq<EventModel>, i: int)
    requires
        1 <= capacity,
        events.len() < u64::MAX,
    ensures
        ({
            let log = pushed_all(LogModel { events: Seq::empty(), next_id: 1, capacity }, events);
            let kept = if events.len() <= capacity { events.len() as int } else {
                capacity as int
            };
            let first = events.len() - kept;
            &&& log.events.len() == kept
            &&& log.next_id == events.len() + 1
            &&& log.capacity == capacity
            &&& 0 <= i < kept ==> log.events[i] == (EventModel {
                id: (first + i + 1) as u64,
                ..events[first + i]
            })
        }),
{
    law_log_keeps_the_most_recent(capacity, events);
}

/// Law: pushing an event keeps the others as they are and in order, but for the
/// oldest, which gives way if the log is full.
pub proof fn law_pushing_keeps_the_others(log: LogModel, event: EventModel, i: int)
    requires
        log_ok(log),
        log.next_id < u64::MAX,
    ensures
        ({
            let after = pushed(log, event);
            let gone: int = if log.events.len() == log.capacity { 1 } else { 0 };
            &&& after.capacity == log.capacity
            &&& after.next_id == log.next_id + 1
            &&& after.events.len() == log.events.len() + 1 - gone
            &&& after.events.last() == (EventModel { id: log.next_id, ..event })
            &&& 0 <= i < after.events.len() - 1 ==> after.events[i] == log.events[i + gone]
        }),
{
}

/// Law: a page holds the events with the ids right behind `since`, or from the
/// oldest on that the log still holds, without a gap, as many as there are up
/// to `limit`, each as the log holds it.
pub proof fn law_pages_are_exact(log: LogModel, since: u64, limit: usize, j: int)
    requires
        log_ok(log),
    ensures
        ({
            let oldest = log.next_id - log.events.len();
            let first = if since + 1 > oldest { since + 1 } else { oldest };
            let there = if first < log.next_id { log.next_id - first } else { 0 };
            let found = page(log.events, since, limit);
            &&& found.len() == if there <= limit { there } else { limit as int }
            &&& 0 <= j < found.len() ==> found[j].id == first + j && found[j] == log.events[first
                - oldest + j]
        }),
{
    let oldest = log.next_id - log.events.len();
    lemma_newer_is_a_suffix(log.events, oldest, since);
}

/// Law: each outcome has its name in the log's JSON.
pub proof fn law_outcomes_have_their_names()
    ensures
        outcome_name(UsageOutcome::Completed) == "completed"@,
        outcome_name(UsageOutcome::BudgetBlocked) == "budget_blocked"@,
        outcome_name(UsageOutcome::PolicyBlocked) == "policy_blocked"@,
        outcome_name(UsageOutcome::UpstreamError) == "upstream_error"@,
        outcome_name(UsageOutcome::Incomplete) == "incomplete"@,
{
}

/// Law: the contents of an event are those of its fields.
pub proof fn law_events_show_their_fields(e: UsageEvent, events: Seq<UsageEvent>, i: int)
    ensures
        e@.id == e.id,
        e@.tenant == e.tenant@,
        e@.provider == e.provider,
        e@.model == optional_text(e.model),
        e@.tools_called == texts(e.tools_called@),
        e@.tokens == e.tokens,
        e@.outcome == e.outcome,
        e@.rule == optional_text(e.rule),
        e@.timestamp_ms == e.timestamp_ms,
        event_models(events).len() == events.len(),
        0 <= i < events.len() ==> event_models(events)[i] == events[i]@,
{
}

} // verus!
