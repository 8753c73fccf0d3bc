//! The errors a request can end in, and how a client sees them.

use vstd::prelude::*;
use vstd::string::*;

verus! {

#[derive(Debug)]
pub enum WeirError {
    /// The tenant has exceeded its token budget.
    BudgetExceeded(String),
    /// The tenant is not configured, or the request names none.
    UnknownTenant,
    /// The upstream provider failed; holds what went wrong.
    Upstream(String),
    /// The configuration is invalid; holds what is wrong with it.
    Config(String),
    /// The tenant's policy forbids the model or tool named in `reason`.
    PolicyViolation { tenant: String, reason: String },
}

/// The HTTP answer to a request that ended in an error: the status and the
/// two fields of the JSON body.
#[derive(Debug)]
pub struct ErrorResponse {
    pub status: u16,
    pub error: &'static str,
    pub message: String,
}

/// The HTTP status of an error.
pub open spec fn status_of(e: WeirError) -> u16 {
    match e {
        WeirError::BudgetExceeded(_) => 429,
        WeirError::UnknownTenant => 401,
        WeirError::Upstream(_) => 502,
        WeirError::Config(_) => 500,
        WeirError::PolicyViolation { .. } => 403,
    }
}

/// The machine-readable code of an error.
pub open spec fn code_of(e: WeirError) -> Seq<char> {
    match e {
        WeirError::BudgetExceeded(_) => "budget_exceeded"@,
        WeirError::UnknownTenant => "unknown_tenant"@,
        WeirError::Upstream(_) => "upstream_error"@,
        WeirError::Config(_) => "config_error"@,
        WeirError::PolicyViolation { .. } => "policy_violation"@,
    }
}

/// The sentence that tells a person what went wrong.
pub open spec fn message_of(e: WeirError) -> Seq<char> {
    match e {
        WeirError::BudgetExceeded(tenant) => "tenant '"@ + tenant@
            + "' has exceeded its token budget"@,
        WeirError::UnknownTenant => "unknown tenant or missing X-Weir-Tenant header"@,
        WeirError::Upstream(cause) => "upstream provider request failed: "@ + cause@,
        WeirError::Config(cause) => "invalid configuration: "@ + cause@,
        WeirError::PolicyViolation { tenant, reason } => "tenant '"@ + tenant@
            + "' was refused by policy: "@ + reason@,
    }
}

/// `response` is the answer that an error gives.
pub open spec fn answers(response: ErrorResponse, e: WeirError) -> bool {
    &&& response.status == status_of(e)
    &&& response.error@ == code_of(e)
    &&& response.message@ == message_of(e)
}

impl WeirError {
    /// The sentence that tells a person what went wrong.
    pub fn message(&self) -> (message: String)
        ensures
            message@ == message_of(*self),
    {
        let mut message = String::new();
        match self {
            WeirError::BudgetExceeded(tenant) => {
                message.append("tenant '");
                message.append(tenant.as_str());
                message.append("' has exceeded its token budget");
            },
            WeirError::UnknownTenant => {
                message.append("unknown tenant or missing X-Weir-Tenant header");
            },
            WeirError::Upstream(cause) => {
                message.append("upstream provider request failed: ");
                message.append(cause.as_str());
            },
            WeirError::Config(cause) => {
                message.append("invalid configuration: ");
                message.append(cause.as_str());
            },
            WeirError::PolicyViolation { tenant, reason } => {
                message.append("tenant '");
                message.append(tenant.as_str());
                message.append("' was refused by policy: ");
                message.append(reason.as_str());
            },
        }
        assert(message@ =~= message_of(*self));
        message
    }

    /// The HTTP answer for this error.
    pub fn into_response(self) -> (response: ErrorResponse)
        ensures
            answers(response, self),
    {
        let message = self.message();
        let (status, error): (u16, &'static str) = match &self {
            WeirError::BudgetExceeded(_) => (429, "budget_exceeded"),
            WeirError::UnknownTenant => (401, "unknown_tenant"),
            WeirError::Upstream(_) => (502, "upstream_error"),
            WeirError::Config(_) => (500, "config_error"),
            WeirError::PolicyViolation { .. } => (403, "policy_violation"),
        };
        ErrorResponse { status, error, message }
    }
}

/// Law: a used-up budget is answered with 429, an unknown tenant with 401, an
/// upstream failure with 502, a bad configuration with 500 and a breach of
/// policy with 403, each with its code and a sentence that names the tenant or
/// the cause.
pub proof fn law_errors_have_their_answers(response: ErrorResponse, e: WeirError)
    requires
        answers(response, e),
    ensures
        e matches WeirError::BudgetExceeded(tenant) ==> {
            &&& response.status == 429
            &&& response.error@ == "budget_exceeded"@
            &&& response.message@ == "tenant '"@ + tenant@ + "' has exceeded its token budget"@
        },
        e is UnknownTenant ==> {
            &&& response.status == 401
            &&& response.error@ == "unknown_tenant"@
            &&& response.message@ == "unknown tenant or missing X-Weir-Tenant header"@
        },
        e matches WeirError::Upstream(cause) ==> {
            &&& response.status == 502
            &&& response.error@ == "upstream_error"@
            &&& response.message@ == "upstream provider request failed: "@ + cause@
        },
        e matches WeirError::Config(cause) ==> {
            &&& response.status == 500
            &&& response.error@ == "config_error"@
            &&& response.message@ == "invalid configuration: "@ + cause@
        },
        e matches WeirError::PolicyViolation { tenant, reason } ==> {
            &&& response.status == 403
            &&& response.error@ == "policy_violation"@
            &&& response.message@ == "tenant '"@ + tenant@ + "' was refused by policy: "@ + reason@
        },
{
}

} // verus!
