//! Issuance plans: what certificate would be signed for an allowed request,
//! and the audit receipt that records it.
use std::time::{SystemTime, UNIX_EPOCH};
use vstd::prelude::*;
use vstd::string::*;

use crate::evaluator::{spec_safe_name, spec_summary, Decision, DecisionModel, Request};
use crate::policy::{ids_of_principals, ids_of_resources, first_index, PolicyError, PolicyFault, PolicyFile};
use crate::text::{decimal_chars, push_decimal, spec_sanitize};

verus! {

/// Why no plan could be made.
#[derive(Debug)]
pub enum PlanError {
    NotAllowed(String),
    UnknownPrincipal(String),
    UnknownResource(String),
    Policy(PolicyError),
}

/// The mathematical value of a [`PlanError`].
pub enum PlanFault {
    NotAllowed(Seq<char>),
    UnknownPrincipal(Seq<char>),
    UnknownResource(Seq<char>),
    Policy(PolicyFault),
}

impl View for PlanError {
    type V = PlanFault;

    open spec fn view(&self) -> PlanFault {
        match self {
            PlanError::NotAllowed(s) => PlanFault::NotAllowed(s@),
            PlanError::UnknownPrincipal(s) => PlanFault::UnknownPrincipal(s@),
            PlanError::UnknownResource(s) => PlanFault::UnknownResource(s@),
            PlanError::Policy(e) => PlanFault::Policy(e@),
        }
    }
}

/// A certificate issuance that an operator may carry out: who, where, as
/// whom, for how long, and the `ssh-keygen` command that would sign it.
#[derive(Debug, Clone)]
pub struct IssuancePlan {
    pub plan_id: String,
    pub principal: String,
    pub action: String,
    pub resource: String,
    pub host: String,
    pub ssh_principal: String,
    pub ttl_seconds: u64,
    pub matched_rule: String,
    pub trusted_ca_path: String,
    pub issue_command: String,
    pub created_at_unix: u64,
}

/// The mathematical value of an [`IssuancePlan`].
pub struct PlanModel {
    pub plan_id: Seq<char>,
    pub principal: Seq<char>,
    pub action: Seq<char>,
    pub resource: Seq<char>,
    pub host: Seq<char>,
    pub ssh_principal: Seq<char>,
    pub ttl_seconds: u64,
    pub matched_rule: Seq<char>,
    pub trusted_ca_path: Seq<char>,
    pub issue_command: Seq<char>,
    pub created_at_unix: u64,
}

impl View for IssuancePlan {
    type V = PlanModel;

    open spec fn view(&self) -> PlanModel {
        PlanModel {
            plan_id: self.plan_id@,
            principal: self.principal@,
            action: self.action@,
            resource: self.resource@,
            host: self.host@,
            ssh_principal: self.ssh_principal@,
            ttl_seconds: self.ttl_seconds,
            matched_rule: self.matched_rule@,
            trusted_ca_path: self.trusted_ca_path@,
            issue_command: self.issue_command@,
            created_at_unix: self.created_at_unix,
        }
    }
}

/// The record of a planned issuance.
#[derive(Debug, Clone)]
pub struct AuditReceipt {
    pub event: &'static str,
    pub decision: &'static str,
    pub plan_id: String,
    pub principal: String,
    pub action: String,
    pub resource: String,
    pub ssh_principal: String,
    pub ttl_seconds: u64,
    pub matched_rule: String,
    pub created_at_unix: u64,
}

/// A result with its value and error taken by their views.
pub open spec fn plan_result(r: Result<IssuancePlan, PlanError>) -> Result<PlanModel, PlanFault> {
    match r {
        Ok(p) => Ok(p@),
        Err(e) => Err(e@),
    }
}

/// The `ssh-keygen` command that signs `/path/to/user.pub` with
/// `/path/to/ca_key` for the given identity, SSH principal and lifetime.
pub open spec fn spec_issue_command(cert_identity: Seq<char>, ssh_principal: Seq<char>, ttl: u64) -> Seq<
    char,
> {
    "ssh-keygen -s /path/to/ca_key -I "@ + cert_identity + " -n "@ + ssh_principal + " -V +"@
        + decimal_chars(ttl as nat) + "s /path/to/user.pub"@
}

/// The SSH principal a plan is for: the requested one, or else the first
/// one the principal may use.
pub open spec fn planned_ssh_principal(p: PolicyFile, request: Request, k: int) -> Option<
    Seq<char>,
> {
    match request.ssh_principal {
        Some(s) => Some(s@),
        None => if p.principals@[k].ssh_principals@.len() > 0 {
            Some(p.principals@[k].ssh_principals@[0]@)
        } else {
            None
        },
    }
}

/// The plan for `request` under `decision`, made at `created_at_unix`: only
/// an allow decision is planned, for a known principal and resource and an
/// SSH principal the request names or the principal's first.
pub open spec fn spec_build_plan(
    p: PolicyFile,
    request: Request,
    decision: DecisionModel,
    created_at_unix: u64,
) -> Result<PlanModel, PlanFault> {
    match decision {
        DecisionModel::Allow { rule, ttl_seconds } => match first_index(
            ids_of_principals(p.principals@),
            request.principal@,
        ) {
            None => Err(PlanFault::UnknownPrincipal(request.principal@)),
            Some(k) => match first_index(ids_of_resources(p.resources@), request.resource@) {
                None => Err(PlanFault::UnknownResource(request.resource@)),
                Some(j) => match planned_ssh_principal(p, request, k) {
                    None => Err(PlanFault::UnknownPrincipal(request.principal@)),
                    Some(s) => {
                        let plan_id = spec_safe_name(request) + "-"@ + spec_sanitize(s);
                        Ok(
                            PlanModel {
                                plan_id,
                                principal: request.principal@,
                                action: request.action@,
                                resource: request.resource@,
                                host: p.resources@[j].host@,
                                ssh_principal: s,
                                ttl_seconds,
                                matched_rule: rule,
                                trusted_ca_path: p.resources@[j].trusted_ca_path@,
                                issue_command: spec_issue_command(
                                    "accessc-"@ + plan_id,
                                    s,
                                    ttl_seconds,
                                ),
                                created_at_unix,
                            },
                        )
                    },
                },
            },
        },
        _ => Err(PlanFault::NotAllowed(spec_summary(decision))),
    }
}

/// Reads the system clock (`std::time::SystemTime::now`) and gives the
/// whole seconds since the Unix epoch, or `None` where the clock reads a
/// time before it. Nothing is stated of the value: it is the machine's time.
#[verifier::external_body]
fn unix_time_seconds() -> (r: Option<u64>) {
    match SystemTime::now().duration_since(UNIX_EPOCH) {
        Ok(elapsed) => Some(elapsed.as_secs()),
        Err(_) => None,
    }
}

/// Plans the issuance for an allowed request, stamped with the current
/// time (0 where the clock reads a time before the Unix epoch).
pub fn build_plan(policy: &PolicyFile, request: &Request, decision: &Decision) -> (r: Result<
    IssuancePlan,
    PlanError,
>)
    ensures
        r is Ok <==> spec_build_plan(*policy, *request, decision@, 0) is Ok,
        r matches Ok(plan) ==> spec_build_plan(*policy, *request, decision@, plan.created_at_unix)
            == Ok::<PlanModel, PlanFault>(plan@),
        r matches Err(e) ==> spec_build_plan(*policy, *request, decision@, 0) == Err::<
            PlanModel,
            PlanFault,
        >(e@),
{
    let created_at_unix = match unix_time_seconds() {
        Some(t) => t,
        None => 0,
    };
    build_plan_at(policy, request, decision, created_at_unix)
}

/// Plans the issuance for an allowed request, stamped with `created_at_unix`.
pub fn build_plan_at(
    policy: &PolicyFile,
    request: &Request,
    decision: &Decision,
    created_at_unix: u64,
) -> (r: Result<IssuancePlan, PlanError>)
    ensures
        plan_result(r) == spec_build_plan(*policy, *request, decision@, created_at_unix),
{
    let (matched_rule, ttl_seconds) = match decision {
        Decision::Allow { rule, ttl_seconds } => (rule.clone(), *ttl_seconds),
        other => return Err(PlanError::NotAllowed(other.summary())),
    };
    let principal = match policy.principal(request.principal.as_str()) {
        Some(p) => p,
        None => return Err(PlanError::UnknownPrincipal(request.principal.clone())),
    };
    let resource = match policy.resource(request.resource.as_str()) {
        Some(r) => r,
        None => return Err(PlanError::UnknownResource(request.resource.clone())),
    };
    let ssh_principal = match &request.ssh_principal {
        Some(value) => value.clone(),
        None => {
            if principal.ssh_principals.len() > 0 {
                principal.ssh_principals[0].clone()
            } else {
                return Err(PlanError::UnknownPrincipal(request.principal.clone()));
            }
        },
    };
    let plan_id = request.safe_name_for_ssh_principal(ssh_principal.as_str());
    let mut cert_identity = "accessc-".to_owned();
    cert_identity.append(plan_id.as_str());
    let mut issue_command = "ssh-keygen -s /path/to/ca_key -I ".to_owned();
    issue_command.append(cert_identity.as_str());
    issue_command.append(" -n ");
    issue_command.append(ssh_principal.as_str());
    issue_command.append(" -V +");
    push_decimal(&mut issue_command, ttl_seconds);
    issue_command.append("s /path/to/user.pub");
    Ok(
        IssuancePlan {
            plan_id,
            principal: request.principal.clone(),
            action: request.action.clone(),
            resource: request.resource.clone(),
            host: resource.host.clone(),
            ssh_principal,
            ttl_seconds,
            matched_rule,
            trusted_ca_path: resource.trusted_ca_path.clone(),
            issue_command,
            created_at_unix,
        },
    )
}

impl IssuancePlan {
    /// The audit record of this plan: an `allow` decision, event
    /// `certificate_issuance_planned`, and the plan's own fields.
    pub fn audit_receipt(&self) -> (r: AuditReceipt)
        ensures
            r.event@ == "certificate_issuance_planned"@,
            r.decision@ == "allow"@,
            r.plan_id@ == self.plan_id@,
            r.principal@ == self.principal@,
            r.action@ == self.action@,
            r.resource@ == self.resource@,
            r.ssh_principal@ == self.ssh_principal@,
            r.ttl_seconds == self.ttl_seconds,
            r.matched_rule@ == self.matched_rule@,
            r.created_at_unix == self.created_at_unix,
    {
        AuditReceipt {
            event: "certificate_issuance_planned",
            decision: "allow",
            plan_id: self.plan_id.clone(),
            principal: self.principal.clone(),
            action: self.action.clone(),
            resource: self.resource.clone(),
            ssh_principal: self.ssh_principal.clone(),
            ttl_seconds: self.ttl_seconds,
            matched_rule: self.matched_rule.clone(),
            created_at_unix: self.created_at_unix,
        }
    }
}

} // verus!
