//! Tenant budgets and policies.

use vstd::hash_map::StringHashMap;
use vstd::prelude::*;

use crate::text::{copy_texts, texts};

verus! {

/// A token ceiling over a rolling window.
#[derive(Debug, Clone, Copy)]
pub struct BudgetLimit {
    pub max_tokens: u64,
    pub window_ms: u64,
}

/// What a tenant may not use. Anything not listed is allowed.
#[derive(Debug)]
pub struct PolicyConfig {
    pub blocked_models: Vec<String>,
    pub blocked_tools: Vec<String>,
}

/// The names in a policy.
pub struct PolicyModel {
    pub blocked_models: Seq<Seq<char>>,
    pub blocked_tools: Seq<Seq<char>>,
}

impl View for PolicyConfig {
    type V = PolicyModel;

    open spec fn view(&self) -> PolicyModel {
        PolicyModel {
            blocked_models: texts(self.blocked_models@),
            blocked_tools: texts(self.blocked_tools@),
        }
    }
}

/// The policy that restricts nothing.
pub open spec fn no_restrictions() -> PolicyModel {
    PolicyModel { blocked_models: Seq::empty(), blocked_tools: Seq::empty() }
}

impl Default for PolicyConfig {
    fn default() -> (policy: Self)
        ensures
            policy@ == no_restrictions(),
    {
        let policy = PolicyConfig { blocked_models: Vec::new(), blocked_tools: Vec::new() };
        assert(policy@.blocked_models =~= Seq::empty());
        assert(policy@.blocked_tools =~= Seq::empty());
        policy
    }
}

impl Clone for PolicyConfig {
    fn clone(&self) -> (copy: Self)
        ensures
            copy@ == self@,
    {
        PolicyConfig {
            blocked_models: copy_texts(&self.blocked_models),
            blocked_tools: copy_texts(&self.blocked_tools),
        }
    }
}

/// One `[tenants.<id>]` table of the configuration file. A tenant without a
/// policy table has no policy here.
#[derive(Debug)]
pub struct TenantSettings {
    pub id: String,
    pub max_tokens: u64,
    pub window_seconds: u64,
    pub policy: Option<PolicyConfig>,
}

/// The configuration in force: a budget and a policy for each tenant.
pub struct ParsedConfig {
    limits: StringHashMap<BudgetLimit>,
    policies: StringHashMap<PolicyConfig>,
}

/// What a configuration says: the budget and the policy of each tenant.
#[verifier::ext_equal]
pub struct ConfigModel {
    pub limits: Map<Seq<char>, BudgetLimit>,
    pub policies: Map<Seq<char>, PolicyModel>,
}

impl View for ParsedConfig {
    type V = ConfigModel;

    closed spec fn view(&self) -> ConfigModel {
        ConfigModel {
            limits: self.limits@,
            policies: self.policies@.map_values(|p: PolicyConfig| p@),
        }
    }
}

/// The window of so many seconds in milliseconds, at most `u64::MAX`.
pub open spec fn seconds_to_ms(seconds: u64) -> u64 {
    if seconds * 1000 > u64::MAX { u64::MAX } else { (seconds * 1000) as u64 }
}

/// The budget that a tenant's table sets.
pub open spec fn limit_of(settings: TenantSettings) -> BudgetLimit {
    BudgetLimit {
        max_tokens: settings.max_tokens,
        window_ms: seconds_to_ms(settings.window_seconds),
    }
}

/// The policy that a tenant's table sets: none means no restrictions.
pub open spec fn policy_of(settings: TenantSettings) -> PolicyModel {
    match settings.policy {
        Some(policy) => policy@,
        None => no_restrictions(),
    }
}

/// The configuration that a list of tenant tables makes up.
pub open spec fn config_of(tenants: Seq<TenantSettings>) -> ConfigModel
    decreases tenants.len(),
{
    if tenants.len() == 0 {
        ConfigModel { limits: Map::empty(), policies: Map::empty() }
    } else {
        let rest = config_of(tenants.drop_last());
        let last = tenants.last();
        ConfigModel {
            limits: rest.limits.insert(last.id@, limit_of(last)),
            policies: rest.policies.insert(last.id@, policy_of(last)),
        }
    }
}

impl ParsedConfig {
    /// A configuration without tenants.
    pub fn new() -> (config: Self)
        ensures
            config@ == config_of(Seq::empty()),
    {
        let config = ParsedConfig { limits: StringHashMap::new(), policies: StringHashMap::new() };
        assert(config@.policies =~= Map::empty());
        config
    }

    /// Sets a tenant's budget.
    pub fn set_limit(&mut self, tenant: String, limit: BudgetLimit)
        ensures
            final(self)@.limits == old(self)@.limits.insert(tenant@, limit),
            final(self)@.policies == old(self)@.policies,
    {
        self.limits.insert(tenant, limit);
    }

    /// Sets a tenant's policy.
    pub fn set_policy(&mut self, tenant: String, policy: PolicyConfig)
        ensures
            final(self)@.policies == old(self)@.policies.insert(tenant@, policy@),
            final(self)@.limits == old(self)@.limits,
    {
        self.policies.insert(tenant, policy);
        assert(self@.policies =~= old(self)@.policies.insert(tenant@, policy@));
    }

    /// The budget of a tenant, if it has one.
    pub fn limit(&self, tenant: &str) -> (limit: Option<BudgetLimit>)
        ensures
            limit is Some <==> self@.limits.contains_key(tenant@),
            limit matches Some(limit) ==> limit == self@.limits[tenant@],
    {
        match self.limits.get(tenant) {
            Some(limit) => Some(*limit),
            None => None,
        }
    }

    /// The policy of a tenant, if it has one.
    pub fn policy(&self, tenant: &str) -> (policy: Option<PolicyConfig>)
        ensures
            policy is Some <==> self@.policies.contains_key(tenant@),
            policy matches Some(policy) ==> policy@ == self@.policies[tenant@],
    {
        match self.policies.get(tenant) {
            Some(policy) => Some(policy.clone()),
            None => None,
        }
    }

    /// The configuration that a list of tenant tables makes up. Each tenant
    /// gets a budget and a policy; where two tables name the same tenant, the
    /// last one counts.
    pub fn from_tenants(tenants: Vec<TenantSettings>) -> (config: Self)
        ensures
            config@ == config_of(tenants@),
    {
        let mut config = ParsedConfig::new();
        let mut i: usize = 0;
        assert(tenants@.take(0) =~= Seq::empty());
        while i < tenants.len()
            invariant
                i <= tenants.len(),
                config@ == config_of(tenants@.take(i as int)),
            decreases tenants.len() - i,
        {
            let settings = &tenants[i];
            let limit = BudgetLimit {
                max_tokens: settings.max_tokens,
                window_ms: match settings.window_seconds.checked_mul(1000) {
                    Some(ms) => ms,
                    None => u64::MAX,
                },
            };
            let policy = match &settings.policy {
                Some(policy) => policy.clone(),
                None => PolicyConfig::default(),
            };
            config.set_limit(settings.id.clone(), limit);
            config.set_policy(settings.id.clone(), policy);
            assert(tenants@.take(i + 1).drop_last() =~= tenants@.take(i as int));
            i += 1;
        }
        assert(tenants@.take(i as int) =~= tenants@);
        config
    }
}

/// Law: every tenant that a configuration file gives a budget has a policy
/// too, and no other tenant has one.
pub proof fn law_every_tenant_has_a_policy(tenants: Seq<TenantSettings>)
    ensures
        config_of(tenants).policies.dom() == config_of(tenants).limits.dom(),
    decreases tenants.len(),
{
    if tenants.len() > 0 {
        law_every_tenant_has_a_policy(tenants.drop_last());
    }
    assert(config_of(tenants).policies.dom() =~= config_of(tenants).limits.dom());
}

/// Law: a tenant's table sets exactly its ceiling, its window of so many seconds
/// (as far as milliseconds can show), and its policy, none meaning that nothing
/// is blocked. The last table of a tenant counts.
pub proof fn law_tables_are_taken_as_they_are(tenants: Seq<TenantSettings>, i: int)
    requires
        0 <= i < tenants.len(),
        forall|j: int| i < j < tenants.len() ==> (#[trigger] tenants[j]).id@ != tenants[i].id@,
    ensures
        ({
            let config = config_of(tenants);
            let table = tenants[i];
            &&& config.limits.contains_key(table.id@)
            &&& config.limits[table.id@].max_tokens == table.max_tokens
            &&& config.limits[table.id@].window_ms == if table.window_seconds * 1000 <= u64::MAX {
                table.window_seconds * 1000
            } else {
                u64::MAX as int
            }
            &&& config.policies.contains_key(table.id@)
            &&& table.policy matches Some(policy) ==> {
                &&& config.policies[table.id@].blocked_models == texts(policy.blocked_models@)
                &&& config.policies[table.id@].blocked_tools == texts(policy.blocked_tools@)
            }
            &&& table.policy is None ==> {
                &&& config.policies[table.id@].blocked_models.len() == 0
                &&& config.policies[table.id@].blocked_tools.len() == 0
            }
        }),
    decreases tenants.len(),
{
    if i < tenants.len() - 1 {
        let rest = tenants.drop_last();
        assert forall|j: int| i < j < rest.len() implies (#[trigger] rest[j]).id@
            != rest[i].id@ by {
            assert(rest[j] == tenants[j]);
        }
        law_tables_are_taken_as_they_are(rest, i);
        assert(tenants[tenants.len() - 1].id@ != tenants[i].id@);
    }
}

/// Law: a tenant without a table has neither a budget nor a policy.
pub proof fn law_only_tables_make_tenants(tenants: Seq<TenantSettings>, tenant: Seq<char>)
    requires
        forall|j: int| 0 <= j < tenants.len() ==> (#[trigger] tenants[j]).id@ != tenant,
    ensures
        !config_of(tenants).limits.contains_key(tenant),
        !config_of(tenants).policies.contains_key(tenant),
    decreases tenants.len(),
{
    if tenants.len() > 0 {
        let rest = tenants.drop_last();
        assert forall|j: int| 0 <= j < rest.len() implies (#[trigger] rest[j]).id@ != tenant by {
            assert(rest[j] == tenants[j]);
        }
        law_only_tables_make_tenants(rest, tenant);
        assert(tenants[tenants.len() - 1].id@ != tenant);
    }
}

/// Law: the names in a policy are those of its lists, and the policy without
/// restrictions has none.
pub proof fn law_policies_show_their_lists(policy: PolicyConfig)
    ensures
        policy@.blocked_models == texts(policy.blocked_models@),
        policy@.blocked_tools == texts(policy.blocked_tools@),
        no_restrictions().blocked_models.len() == 0,
        no_restrictions().blocked_tools.len() == 0,
{
}

} // verus!
