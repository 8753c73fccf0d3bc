//! Rolling token budgets, one per tenant.

pub mod sliding_window;

use dashmap::DashMap;
use vstd::prelude::*;

use crate::config::{BudgetLimit, ConfigModel, ParsedConfig, PolicyConfig};
use crate::error::WeirError;

use sliding_window::{
    added, bucket_at, counted, law_a_new_window_keeps_what_it_covers,
    law_accepted_tokens_stay_within_ceiling, law_gap_resets_to_zero,
    law_recorded_tokens_count_in_full, law_rolling_total_is_exact, law_total_lies_between_counts,
    newest, rewindowed, rolling_total, run, tokens_between, tokens_in, unused, window_length,
    CounterModel, SlidingWindowCounter,
};

verus! {

/// `dashmap::DashMap`, a hash map.
#[verifier::external_type_specification]
#[verifier::external_body]
#[verifier::reject_recursive_types(K)]
#[verifier::reject_recursive_types(V)]
#[verifier::reject_recursive_types(S)]
pub struct ExDashMap<K, V, S>(dashmap::DashMap<K, V, S>);

/// The counter that a map of counters holds for each tenant.
pub uninterp spec fn counters_in(held: DashMap<String, SlidingWindowCounter>) -> Map<
    Seq<char>,
    SlidingWindowCounter,
>;

/// Calls `DashMap::new`: the map is empty.
#[verifier::external_body]
fn no_counters() -> (held: DashMap<String, SlidingWindowCounter>)
    ensures
        counters_in(held).dom() == Set::<Seq<char>>::empty(),
{
    DashMap::new()
}

/// Calls `DashMap::entry` and `Entry::or_insert`: a tenant that has a counter
/// keeps it, one that has none gets `fresh`; the tenant's counter is returned
/// and no other entry changes.
#[verifier::external_body]
fn counter_or_insert(
    held: &mut DashMap<String, SlidingWindowCounter>,
    tenant: &str,
    fresh: SlidingWindowCounter,
) -> (counter: SlidingWindowCounter)
    ensures
        counters_in(*final(held)) == if counters_in(*old(held)).contains_key(tenant@) {
            counters_in(*old(held))
        } else {
            counters_in(*old(held)).insert(tenant@, fresh)
        },
        counter == counters_in(*final(held))[tenant@],
{
    *held.entry(tenant.to_string()).or_insert(fresh)
}

/// Calls `DashMap::insert`: the tenant's counter is now `counter`, and no other
/// entry changes.
#[verifier::external_body]
fn put_counter(
    held: &mut DashMap<String, SlidingWindowCounter>,
    tenant: &str,
    counter: SlidingWindowCounter,
)
    ensures
        counters_in(*final(held)) == counters_in(*old(held)).insert(tenant@, counter),
{
    held.insert(tenant.to_string(), counter);
}

/// The budgets in force and what each tenant has used.
#[verifier::ext_equal]
pub struct RegistryModel {
    pub config: ConfigModel,
    pub counters: Map<Seq<char>, CounterModel>,
}

/// The window of the budget in force for a tenant.
pub open spec fn window_of(m: RegistryModel, tenant: Seq<char>) -> int {
    window_length(m.config.limits[tenant].window_ms)
}

/// The counter of a tenant, with the window of the budget in force: the one it
/// has, brought over to that window if it was made for another, or a new one.
pub open spec fn counter_of(m: RegistryModel, tenant: Seq<char>) -> CounterModel {
    if !m.counters.contains_key(tenant) {
        unused(window_of(m, tenant))
    } else if m.counters[tenant].window_ms == window_of(m, tenant) {
        m.counters[tenant]
    } else {
        rewindowed(m.counters[tenant], window_of(m, tenant))
    }
}

/// The registry with the counter of one tenant replaced.
pub open spec fn with_counter(
    m: RegistryModel,
    tenant: Seq<char>,
    counter: CounterModel,
) -> RegistryModel {
    RegistryModel { counters: m.counters.insert(tenant, counter), ..m }
}

/// The registry after `amount` tokens of a tenant are recorded at `now_ms`. A
/// tenant that is not configured changes nothing.
pub open spec fn recorded(m: RegistryModel, tenant: Seq<char>, amount: u64, now_ms: i64) -> RegistryModel {
    if m.config.limits.contains_key(tenant) {
        with_counter(m, tenant, added(counter_of(m, tenant), amount, now_ms as int))
    } else {
        m
    }
}

/// The rolling total that a tenant is at.
pub open spec fn usage(m: RegistryModel, tenant: Seq<char>, now_ms: i64) -> int {
    rolling_total(counter_of(m, tenant), now_ms as int)
}

/// Maps each tenant to its rolling budget and its usage.
pub struct BudgetRegistry {
    config: ParsedConfig,
    counters: DashMap<String, SlidingWindowCounter>,
}

impl View for BudgetRegistry {
    type V = RegistryModel;

    closed spec fn view(&self) -> RegistryModel {
        RegistryModel {
            config: self.config@,
            counters: counters_in(self.counters).map_values(|c: SlidingWindowCounter| c@),
        }
    }
}

impl BudgetRegistry {
    /// A registry in which nobody has used anything.
    pub fn new(config: ParsedConfig) -> (registry: Self)
        ensures
            registry@ == (RegistryModel { config: config@, counters: Map::empty() }),
    {
        let registry = BudgetRegistry { config, counters: no_counters() };
        assert(registry@.counters =~= Map::empty());
        registry
    }

    fn limit_for(&self, tenant: &str) -> (limit: Result<BudgetLimit, WeirError>)
        ensures
            match limit {
                Ok(limit) => self@.config.limits.contains_key(tenant@) && limit
                    == self@.config.limits[tenant@],
                Err(e) => !self@.config.limits.contains_key(tenant@) && e
                    == WeirError::UnknownTenant,
            },
    {
        match self.config.limit(tenant) {
            Some(limit) => Ok(limit),
            None => Err(WeirError::UnknownTenant),
        }
    }

    fn counter_for(&mut self, tenant: &str, limit: BudgetLimit) -> (counter: SlidingWindowCounter)
        requires
            old(self)@.config.limits.contains_key(tenant@),
            limit == old(self)@.config.limits[tenant@],
        ensures
            counter@ == counter_of(old(self)@, tenant@),
            final(self)@ == with_counter(old(self)@, tenant@, counter@),
    {
        let fresh = SlidingWindowCounter::new(limit.window_ms);
        let held = counter_or_insert(&mut self.counters, tenant, fresh);
        let counter = held.with_window_of(&fresh);
        put_counter(&mut self.counters, tenant, counter);
        assert(self@.counters =~= old(self)@.counters.insert(tenant@, counter@));
        counter
    }

    /// Whether a tenant may start another request: its usage at `now_ms` is
    /// below its ceiling.
    pub fn is_within_budget(&mut self, tenant: &str, now_ms: i64) -> (within: Result<
        bool,
        WeirError,
    >)
        ensures
            match within {
                Ok(within) => {
                    &&& old(self)@.config.limits.contains_key(tenant@)
                    &&& within <==> usage(old(self)@, tenant@, now_ms)
                        < old(self)@.config.limits[tenant@].max_tokens
                    &&& final(self)@ == with_counter(
                        old(self)@,
                        tenant@,
                        counter_of(old(self)@, tenant@),
                    )
                },
                Err(e) => {
                    &&& !old(self)@.config.limits.contains_key(tenant@)
                    &&& e == WeirError::UnknownTenant
                    &&& final(self)@ == old(self)@
                },
            },
    {
        let limit = match self.limit_for(tenant) {
            Ok(limit) => limit,
            Err(e) => return Err(e),
        };
        let counter = self.counter_for(tenant, limit);
        Ok(counter.estimate(now_ms) < limit.max_tokens)
    }

    /// Records `amount` tokens of a tenant at `now_ms` and says whether its
    /// usage, these tokens included, is still within its ceiling.
    pub fn record(&mut self, tenant: &str, amount: u64, now_ms: i64) -> (within: Result<
        bool,
        WeirError,
    >)
        ensures
            final(self)@ == recorded(old(self)@, tenant@, amount, now_ms),
            match within {
                Ok(within) => {
                    &&& old(self)@.config.limits.contains_key(tenant@)
                    &&& within <==> usage(final(self)@, tenant@, now_ms)
                        <= old(self)@.config.limits[tenant@].max_tokens
                },
                Err(e) => {
                    &&& !old(self)@.config.limits.contains_key(tenant@)
                    &&& e == WeirError::UnknownTenant
                },
            },
    {
        let limit = match self.limit_for(tenant) {
            Ok(limit) => limit,
            Err(e) => return Err(e),
        };
        let mut counter = self.counter_for(tenant, limit);
        let ghost opened = self@;
        let total: u64 = counter.add(amount, now_ms);
        put_counter(&mut self.counters, tenant, counter);
        assert(self@.counters =~= opened.counters.insert(tenant@, counter@));
        assert(self@.counters =~= old(self)@.counters.insert(tenant@, counter@));
        Ok(total <= limit.max_tokens)
    }

    /// The policy of a tenant. A tenant without one is unknown, not
    /// unrestricted.
    pub fn policy_for(&self, tenant: &str) -> (policy: Result<PolicyConfig, WeirError>)
        ensures
            match policy {
                Ok(policy) => self@.config.policies.contains_key(tenant@) && policy@
                    == self@.config.policies[tenant@],
                Err(e) => !self@.config.policies.contains_key(tenant@) && e
                    == WeirError::UnknownTenant,
            },
    {
        match self.config.policy(tenant) {
            Some(policy) => Ok(policy),
            None => Err(WeirError::UnknownTenant),
        }
    }

    /// Takes over a configuration that was loaded again. One that failed to
    /// load leaves the one in force untouched and is handed back as the error.
    /// What tenants have used is kept either way.
    pub fn reload(&mut self, loaded: Result<ParsedConfig, WeirError>) -> (outcome: Result<
        (),
        WeirError,
    >)
        ensures
            match loaded {
                Ok(config) => outcome is Ok && final(self)@ == (RegistryModel {
                    config: config@,
                    ..old(self)@
                }),
                Err(e) => outcome == Err::<(), WeirError>(e) && final(self)@ == old(self)@,
            },
    {
        match loaded {
            Ok(config) => {
                self.config = config;
                Ok(())
            },
            Err(e) => Err(e),
        }
    }
}

/// Law: what one tenant uses is not held against another.
pub proof fn law_tenants_do_not_share_usage(
    m: RegistryModel,
    tenant: Seq<char>,
    other: Seq<char>,
    amount: u64,
    now_ms: i64,
)
    requires
        tenant != other,
    ensures
        counter_of(recorded(m, tenant, amount, now_ms), other) == counter_of(m, other),
{
}

/// Law: loading a configuration again changes ceilings at once, but neither
/// forgets nor changes what a tenant has used in a window that stays as long as
/// it was.
pub proof fn law_reload_keeps_usage(m: RegistryModel, config: ConfigModel, tenant: Seq<char>)
    requires
        window_of(RegistryModel { config, ..m }, tenant) == window_of(m, tenant),
    ensures
        counter_of(RegistryModel { config, ..m }, tenant) == counter_of(m, tenant),
{
}

/// Law: loading a configuration again changes windows at once. A tenant whose
/// window has changed is held to the new one, in which its usage at the instant
/// that it was last recorded at is what it was (unless a 32-bit count is
/// exhausted), and is forgotten two windows later.
pub proof fn law_reload_changes_windows_at_once(
    m: RegistryModel,
    config: ConfigModel,
    tenant: Seq<char>,
    now_ms: i64,
)
    requires
        m.counters.contains_key(tenant),
        m.counters[tenant].window_ms > 0,
        rolling_total(m.counters[tenant], m.counters[tenant].latest_ms) <= u32::MAX,
    ensures
        ({
            let reloaded = RegistryModel { config, ..m };
            let window_ms = window_of(reloaded, tenant);
            let then_ms = m.counters[tenant].latest_ms;
            &&& counter_of(reloaded, tenant).window_ms == window_ms
            &&& rolling_total(counter_of(reloaded, tenant), then_ms) == rolling_total(
                m.counters[tenant],
                then_ms,
            )
            &&& then_ms + 2 * window_ms <= now_ms ==> usage(reloaded, tenant, now_ms) == 0
        }),
{
    let reloaded = RegistryModel { config, ..m };
    let window_ms = window_of(reloaded, tenant);
    law_a_new_window_keeps_what_it_covers(m.counters[tenant], window_ms, now_ms as int);
    if m.counters[tenant].latest_ms + 2 * window_ms <= now_ms {
        law_gap_resets_to_zero(counter_of(reloaded, tenant), now_ms as int);
    }
}

/// Law: a tenant whose current window alone reaches the ceiling is refused
/// until that window is over.
pub proof fn law_exhausted_window_stays_closed(m: RegistryModel, tenant: Seq<char>, now_ms: i64)
    requires
        counter_of(m, tenant).window_ms > 0,
        counter_of(m, tenant).current >= m.config.limits[tenant].max_tokens,
        bucket_at(counter_of(m, tenant).window_ms, now_ms as int) == newest(counter_of(m, tenant)),
    ensures
        !(usage(m, tenant, now_ms) < m.config.limits[tenant].max_tokens),
{
    law_total_lies_between_counts(counter_of(m, tenant), now_ms as int);
}

/// The registry after a sequence of amounts of one tenant, each recorded at
/// its instant.
pub open spec fn recorded_all(
    m: RegistryModel,
    tenant: Seq<char>,
    adds: Seq<(u64, i64)>,
) -> RegistryModel
    decreases adds.len(),
{
    if adds.len() == 0 {
        m
    } else {
        recorded(recorded_all(m, tenant, adds.drop_last()), tenant, adds.last().0, adds.last().1)
    }
}

/// The amounts with their instants as integers.
pub open spec fn instants(adds: Seq<(u64, i64)>) -> Seq<(u64, int)> {
    adds.map_values(|add: (u64, i64)| (add.0, add.1 as int))
}

/// Law: however many requests of a tenant record tokens in one window, as long
/// as the last one was told that it is within budget the tokens of all of them
/// together are within the ceiling. (A ceiling of `u32::MAX` or more is beyond
/// what the counters can show.)
pub proof fn law_accepted_usage_stays_within_ceiling(
    m: RegistryModel,
    tenant: Seq<char>,
    adds: Seq<(u64, i64)>,
    now_ms: i64,
)
    requires
        m.config.limits.contains_key(tenant),
        counter_of(m, tenant).window_ms > 0,
        bucket_at(counter_of(m, tenant).window_ms, now_ms as int) >= newest(counter_of(m, tenant)),
        forall|i: int|
            0 <= i < adds.len() ==> bucket_at(
                counter_of(m, tenant).window_ms,
                (#[trigger] adds[i]).1 as int,
            ) == bucket_at(counter_of(m, tenant).window_ms, now_ms as int),
        usage(recorded_all(m, tenant, adds), tenant, now_ms)
            <= m.config.limits[tenant].max_tokens < u32::MAX,
    ensures
        ({
            let counter = counter_of(m, tenant);
            let index = bucket_at(counter.window_ms, now_ms as int);
            counted(counter, index) + tokens_in(counter.window_ms, instants(adds), index)
                <= m.config.limits[tenant].max_tokens
        }),
{
    lemma_records_run_the_counter(m, tenant, adds);
    assert forall|i: int| 0 <= i < instants(adds).len() implies bucket_at(
        counter_of(m, tenant).window_ms,
        (#[trigger] instants(adds)[i]).1,
    ) == bucket_at(counter_of(m, tenant).window_ms, now_ms as int) by {
        assert(adds[i].1 as int == instants(adds)[i].1);
    }
    law_accepted_tokens_stay_within_ceiling(
        counter_of(m, tenant),
        instants(adds),
        now_ms as int,
        m.config.limits[tenant].max_tokens,
    );
}

pub(crate) proof fn lemma_records_run_the_counter(
    m: RegistryModel,
    tenant: Seq<char>,
    adds: Seq<(u64, i64)>,
)
    requires
        m.config.limits.contains_key(tenant),
    ensures
        recorded_all(m, tenant, adds).config == m.config,
        counter_of(recorded_all(m, tenant, adds), tenant) == run(
            counter_of(m, tenant),
            instants(adds),
        ),
    decreases adds.len(),
{
    if adds.len() > 0 {
        lemma_records_run_the_counter(m, tenant, adds.drop_last());
        assert(instants(adds).drop_last() =~= instants(adds.drop_last()));
        assert(instants(adds).last() == (adds.last().0, adds.last().1 as int));
    }
}

/// Law: a tenant that nothing was recorded for has used nothing.
pub proof fn law_nobody_starts_with_usage(m: RegistryModel, tenant: Seq<char>, now_ms: i64)
    requires
        !m.counters.contains_key(tenant),
    ensures
        usage(m, tenant, now_ms) == 0,
{
    law_total_lies_between_counts(counter_of(m, tenant), now_ms as int);
}

/// Law: what is recorded for a tenant is charged to it in full and at once, and
/// to no other tenant, unless a 32-bit count is exhausted.
pub proof fn law_recording_charges_in_full(
    m: RegistryModel,
    tenant: Seq<char>,
    other: Seq<char>,
    amount: u64,
    now_ms: i64,
)
    requires
        m.config.limits.contains_key(tenant),
        counter_of(m, tenant).latest_ms <= now_ms,
        usage(m, tenant, now_ms) + amount <= u32::MAX,
        other != tenant,
    ensures
        usage(recorded(m, tenant, amount, now_ms), tenant, now_ms) == usage(m, tenant, now_ms)
            + amount,
        usage(recorded(m, tenant, amount, now_ms), other, now_ms) == usage(m, other, now_ms),
        recorded(m, tenant, amount, now_ms).config == m.config,
{
    let counter = counter_of(m, tenant);
    vstd::arithmetic::div_mod::lemma_div_is_ordered(
        counter.latest_ms,
        now_ms as int,
        counter.window_ms,
    );
    law_total_lies_between_counts(counter, now_ms as int);
    law_recorded_tokens_count_in_full(counter, amount, now_ms as int);
}

/// Law: tokens recorded at an instant of a window of the configured length still
/// count in full at every later instant of that window, as far as a 32-bit
/// count can show.
pub proof fn law_recorded_tokens_last_the_window(
    m: RegistryModel,
    tenant: Seq<char>,
    amount: u64,
    then_ms: i64,
    now_ms: i64,
)
    requires
        m.config.limits.contains_key(tenant),
        1 <= m.config.limits[tenant].window_ms <= i64::MAX,
        counter_of(m, tenant).latest_ms <= then_ms <= now_ms,
        then_ms as int / m.config.limits[tenant].window_ms as int == now_ms as int
            / m.config.limits[tenant].window_ms as int,
    ensures
        usage(recorded(m, tenant, amount, then_ms), tenant, now_ms) >= if amount <= u32::MAX {
            amount as int
        } else {
            u32::MAX as int
        },
{
    let counter = counter_of(m, tenant);
    let after = added(counter, amount, then_ms as int);
    vstd::arithmetic::div_mod::lemma_div_is_ordered(
        counter.latest_ms,
        then_ms as int,
        counter.window_ms,
    );
    law_total_lies_between_counts(after, now_ms as int);
}

/// Law: the usage of a tenant is exact. Where nothing else was recorded for it,
/// it is the tokens of the window of `now_ms`, of the configured length, plus
/// those of the window before it in the proportion of what is left of the
/// window of `now_ms`, rounded to the nearest integer. (Each window counts up
/// to `u32::MAX` tokens.)
pub proof fn law_usage_is_exact(
    m: RegistryModel,
    tenant: Seq<char>,
    adds: Seq<(u64, i64)>,
    now_ms: i64,
)
    requires
        m.config.limits.contains_key(tenant),
        !m.counters.contains_key(tenant),
        1 <= m.config.limits[tenant].window_ms <= i64::MAX,
        forall|i: int|
            0 <= i < adds.len() ==> (#[trigger] adds[i]).1 as int
                / m.config.limits[tenant].window_ms as int <= now_ms as int
                / m.config.limits[tenant].window_ms as int,
    ensures
        ({
            let w = m.config.limits[tenant].window_ms as int;
            let start = now_ms - now_ms as int % w;
            let here = tokens_between(instants(adds), start, start + w);
            let before = tokens_between(instants(adds), start - w, start);
            let here = if here <= u32::MAX { here as int } else { u32::MAX as int };
            let before = if before <= u32::MAX { before as int } else { u32::MAX as int };
            let weighted = usage(recorded_all(m, tenant, adds), tenant, now_ms) - here;
            &&& 2 * w * weighted <= 2 * (before * (start + w - now_ms)) + w
            &&& 2 * (before * (start + w - now_ms)) + w < 2 * w * weighted + 2 * w
        }),
{
    let w = m.config.limits[tenant].window_ms;
    lemma_records_run_the_counter(m, tenant, adds);
    assert forall|i: int| 0 <= i < instants(adds).len() implies i64::MIN <= (
    #[trigger] instants(adds)[i]).1 && instants(adds)[i].1 / w as int <= now_ms as int / w as int by {
        assert(adds[i].1 as int == instants(adds)[i].1);
    }
    law_rolling_total_is_exact(w, instants(adds), now_ms as int);
}

/// Law: making a counter ready for a tenant changes nobody's usage.
pub proof fn law_asking_changes_no_usage(
    m: RegistryModel,
    tenant: Seq<char>,
    anyone: Seq<char>,
    now_ms: i64,
)
    ensures
        usage(with_counter(m, tenant, counter_of(m, tenant)), anyone, now_ms) == usage(
            m,
            anyone,
            now_ms,
        ),
{
}

/// Law: whatever happened before, the counter of a tenant has the window that
/// is configured for it now.
pub proof fn law_counters_have_the_configured_window(m: RegistryModel, tenant: Seq<char>)
    ensures
        1 <= m.config.limits[tenant].window_ms <= i64::MAX ==> counter_of(m, tenant).window_ms
            == m.config.limits[tenant].window_ms,
        counter_of(m, tenant).window_ms > 0,
{
}

/// Law: what is recorded for a configured tenant goes to its counter, at the
/// instant that it is recorded at, early or late; what is recorded for anyone
/// else changes nothing.
pub proof fn law_records_go_to_the_tenants_counter(
    m: RegistryModel,
    tenant: Seq<char>,
    other: Seq<char>,
    amount: u64,
    now_ms: i64,
)
    ensures
        m.config.limits.contains_key(tenant) ==> counter_of(
            recorded(m, tenant, amount, now_ms),
            tenant,
        ) == added(counter_of(m, tenant), amount, now_ms as int),
        !m.config.limits.contains_key(tenant) ==> recorded(m, tenant, amount, now_ms) == m,
        other != tenant ==> counter_of(recorded(m, tenant, amount, now_ms), other) == counter_of(
            m,
            other,
        ),
        recorded(m, tenant, amount, now_ms).config == m.config,
{
}

} // verus!
