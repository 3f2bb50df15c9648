//! Access requests and their evaluation against a policy.
use vstd::prelude::*;
use vstd::string::*;

use crate::policy::{
    and_check, ids_of_principals, first_index, opt_str, parse_duration_seconds,
    spec_parse_duration, spec_validate_atom, validate_atom, Effect, PolicyError, PolicyFault,
    PolicyFile, PrincipalConfig, RuleConfig, ANY,
};
use crate::text::{decimal_chars, push_decimal, sanitize, spec_sanitize, str_eq};

verus! {

/// Why a request could not be decided.
#[derive(Debug)]
pub enum EvalError {
    Policy(PolicyError),
    TtlTooLong { max_seconds: u64 },
    SshPrincipalNotAllowed { principal: String, ssh_principal: String },
}

/// The mathematical value of an [`EvalError`].
pub enum EvalFault {
    Policy(PolicyFault),
    TtlTooLong { max_seconds: u64 },
    SshPrincipalNotAllowed { principal: Seq<char>, ssh_principal: Seq<char> },
}

impl View for EvalError {
    type V = EvalFault;

    open spec fn view(&self) -> EvalFault {
        match self {
            EvalError::Policy(e) => EvalFault::Policy(e@),
            EvalError::TtlTooLong { max_seconds } => EvalFault::TtlTooLong {
                max_seconds: *max_seconds,
            },
            EvalError::SshPrincipalNotAllowed { principal, ssh_principal } =>
                EvalFault::SshPrincipalNotAllowed {
                principal: principal@,
                ssh_principal: ssh_principal@,
            },
        }
    }
}

/// A request for SSH access: who asks, for what action on which resource,
/// as which SSH principal, and for how long.
#[derive(Debug, Clone, PartialEq, Eq)]
pub struct Request {
    pub principal: String,
    pub action: String,
    pub resource: String,
    pub ssh_principal: Option<String>,
    pub requested_ttl_seconds: u64,
}

/// The answer to a request.
#[derive(Debug, Clone, PartialEq, Eq)]
pub enum Decision {
    Allow { rule: String, ttl_seconds: u64 },
    Deny { rule: String },
    NoMatch,
}

/// The mathematical value of a [`Decision`].
pub enum DecisionModel {
    Allow { rule: Seq<char>, ttl_seconds: u64 },
    Deny { rule: Seq<char> },
    NoMatch,
}

impl View for Decision {
    type V = DecisionModel;

    open spec fn view(&self) -> DecisionModel {
        match self {
            Decision::Allow { rule, ttl_seconds } => DecisionModel::Allow {
                rule: rule@,
                ttl_seconds: *ttl_seconds,
            },
            Decision::Deny { rule } => DecisionModel::Deny { rule: rule@ },
            Decision::NoMatch => DecisionModel::NoMatch,
        }
    }
}

/// A result with its value and error taken by their views.
pub open spec fn eval_result(r: Result<Decision, EvalError>) -> Result<DecisionModel, EvalFault> {
    match r {
        Ok(d) => Ok(d@),
        Err(e) => Err(e@),
    }
}

/// The characters of an optional string.
pub open spec fn opt_view(o: Option<String>) -> Option<Seq<char>> {
    match o {
        Some(s) => Some(s@),
        None => None,
    }
}

/// The characters of an optional string slice.
pub open spec fn opt_str_view(o: Option<&str>) -> Option<Seq<char>> {
    match o {
        Some(s) => Some(s@),
        None => None,
    }
}

// ---------------------------------------------------------------------------
// Requests
// ---------------------------------------------------------------------------

/// What `Request::from_cli` checks, in order: the principal, action,
/// resource and SSH principal are atoms, and the lifetime is a duration.
/// On success, the requested lifetime in seconds. `None` where the
/// duration cannot be computed (see [`spec_parse_duration`]).
pub open spec fn spec_from_cli(
    principal: Seq<char>,
    action: Seq<char>,
    resource: Seq<char>,
    ssh_principal: Option<Seq<char>>,
    ttl: Seq<char>,
) -> Option<Result<u64, EvalFault>> {
    match and_check(
        spec_validate_atom(principal),
        and_check(
            spec_validate_atom(action),
            and_check(
                spec_validate_atom(resource),
                match ssh_principal {
                    Some(s) => spec_validate_atom(s),
                    None => Ok(()),
                },
            ),
        ),
    ) {
        Err(e) => Some(Err(EvalFault::Policy(e))),
        Ok(_) => match spec_parse_duration(ttl) {
            None => None,
            Some(Err(e)) => Some(Err(EvalFault::Policy(e))),
            Some(Ok(t)) => Some(Ok(t)),
        },
    }
}

/// The file-name-safe form of a request: its sanitized principal and
/// resource joined by `-`.
pub open spec fn spec_safe_name(r: Request) -> Seq<char> {
    spec_sanitize(r.principal@) + "-"@ + spec_sanitize(r.resource@)
}

impl Request {
    /// Builds a request from command-line text, checking that each name is
    /// an atom and reading the lifetime as a duration.
    pub fn from_cli(
        principal: &str,
        action: &str,
        resource: &str,
        ssh_principal: Option<&str>,
        ttl: &str,
    ) -> (r: Result<Self, EvalError>)
        requires
            spec_from_cli(principal@, action@, resource@, opt_str_view(ssh_principal), ttl@) is Some,
        ensures
            match (
                r,
                spec_from_cli(principal@, action@, resource@, opt_str_view(ssh_principal), ttl@).unwrap(),
            ) {
                (Ok(req), Ok(t)) => {
                    &&& req.principal@ == principal@
                    &&& req.action@ == action@
                    &&& req.resource@ == resource@
                    &&& opt_view(req.ssh_principal) == opt_str_view(ssh_principal)
                    &&& req.requested_ttl_seconds == t
                },
                (Err(e), Err(f)) => e@ == f,
                _ => false,
            },
    {
        if let Err(e) = validate_atom(principal) {
            return Err(EvalError::Policy(e));
        }
        if let Err(e) = validate_atom(action) {
            return Err(EvalError::Policy(e));
        }
        if let Err(e) = validate_atom(resource) {
            return Err(EvalError::Policy(e));
        }
        if let Some(ssh_principal) = ssh_principal {
            if let Err(e) = validate_atom(ssh_principal) {
                return Err(EvalError::Policy(e));
            }
        }
        let requested_ttl_seconds = match parse_duration_seconds(ttl) {
            Ok(t) => t,
            Err(e) => return Err(EvalError::Policy(e)),
        };
        let ssh = match ssh_principal {
            Some(s) => Some(s.to_owned()),
            None => None,
        };
        Ok(
            Request {
                principal: principal.to_owned(),
                action: action.to_owned(),
                resource: resource.to_owned(),
                ssh_principal: ssh,
                requested_ttl_seconds,
            },
        )
    }

    /// The request's principal and resource, sanitized for file names and
    /// joined by `-`.
    pub fn safe_name(&self) -> (r: String)
        ensures
            r@ == spec_safe_name(*self),
    {
        let mut out = sanitize(self.principal.as_str());
        out.append("-");
        let resource = sanitize(self.resource.as_str());
        out.append(resource.as_str());
        out
    }

    /// [`Request::safe_name`] followed by `-` and the sanitized SSH
    /// principal.
    pub fn safe_name_for_ssh_principal(&self, ssh_principal: &str) -> (r: String)
        ensures
            r@ == spec_safe_name(*self) + "-"@ + spec_sanitize(ssh_principal@),
    {
        let mut out = self.safe_name();
        out.append("-");
        let tail = sanitize(ssh_principal);
        out.append(tail.as_str());
        out
    }
}

// ---------------------------------------------------------------------------
// Decisions
// ---------------------------------------------------------------------------

/// The one-line text that describes a decision.
pub open spec fn spec_summary(d: DecisionModel) -> Seq<char> {
    match d {
        DecisionModel::Allow { rule, ttl_seconds } => "allow: rule="@ + rule + " ttl="@
            + decimal_chars(ttl_seconds as nat) + "s"@,
        DecisionModel::Deny { rule } => "deny: rule="@ + rule,
        DecisionModel::NoMatch => "no-match: no allow rule matched"@,
    }
}

impl Decision {
    /// A one-line description, such as `allow: rule=allow-alice-prod ttl=300s`.
    pub fn summary(&self) -> (r: String)
        ensures
            r@ == spec_summary(self@),
    {
        match self {
            Decision::Allow { rule, ttl_seconds } => {
                let mut out = "allow: rule=".to_owned();
                out.append(rule.as_str());
                out.append(" ttl=");
                push_decimal(&mut out, *ttl_seconds);
                out.append("s");
                out
            },
            Decision::Deny { rule } => {
                let mut out = "deny: rule=".to_owned();
                out.append(rule.as_str());
                out
            },
            Decision::NoMatch => "no-match: no allow rule matched".to_owned(),
        }
    }

    /// Whether access is granted.
    pub fn is_allow(&self) -> (r: bool)
        ensures
            r == (self@ is Allow),
    {
        match self {
            Decision::Allow { .. } => true,
            _ => false,
        }
    }

    /// The rule that decided, if one did.
    pub fn rule_name(&self) -> (r: Option<&str>)
        ensures
            match self@ {
                DecisionModel::Allow { rule, .. } => r matches Some(s) && s@ == rule,
                DecisionModel::Deny { rule } => r matches Some(s) && s@ == rule,
                DecisionModel::NoMatch => r is None,
            },
    {
        match self {
            Decision::Allow { rule, .. } => Some(rule.as_str()),
            Decision::Deny { rule } => Some(rule.as_str()),
            Decision::NoMatch => None,
        }
    }

    /// The granted lifetime, for an allow decision.
    pub fn ttl_seconds(&self) -> (r: Option<u64>)
        ensures
            match self@ {
                DecisionModel::Allow { ttl_seconds, .. } => r == Some(ttl_seconds),
                _ => r is None,
            },
    {
        match self {
            Decision::Allow { ttl_seconds, .. } => Some(*ttl_seconds),
            _ => None,
        }
    }
}

// ---------------------------------------------------------------------------
// Evaluation
// ---------------------------------------------------------------------------

/// A selector admits a candidate when it is `any` or names the candidate.
pub open spec fn spec_selector_matches(selector: Seq<char>, candidate: Seq<char>) -> bool {
    selector == ANY@ || selector == candidate
}

/// A rule's optional SSH principal admits a request's optional SSH
/// principal when the rule names none, or the request names the same one.
pub open spec fn spec_ssh_principal_matches(
    selector: Option<Seq<char>>,
    candidate: Option<Seq<char>>,
) -> bool {
    match selector {
        Some(expected) => candidate == Some(expected),
        None => true,
    }
}

/// Whether `rule` applies to `request`: its principal, action and resource
/// selectors admit the request's, and so does its SSH principal. The
/// selectors are read in that order and reading stops at the first that
/// does not admit; `None` where a selector read is missing.
pub open spec fn rule_match_outcome(rule: RuleConfig, request: Request) -> Option<bool> {
    match rule.principal {
        None => None,
        Some(p) => if !spec_selector_matches(p@, request.principal@) {
            Some(false)
        } else {
            match rule.action {
                None => None,
                Some(a) => if !spec_selector_matches(a@, request.action@) {
                    Some(false)
                } else {
                    match rule.resource {
                        None => None,
                        Some(r) => if !spec_selector_matches(r@, request.resource@) {
                            Some(false)
                        } else {
                            Some(
                                spec_ssh_principal_matches(
                                    opt_view(rule.ssh_principal),
                                    opt_view(request.ssh_principal),
                                ),
                            )
                        },
                    }
                },
            }
        },
    }
}

/// The first pass of evaluation over the first `n` rules: the position of
/// the first deny rule that applies, if any; `None` where a rule's
/// selector read is missing.
pub open spec fn deny_scan(rules: Seq<RuleConfig>, request: Request, n: int) -> Option<Option<int>>
    decreases n,
{
    if n <= 0 {
        Some(None)
    } else {
        match deny_scan(rules, request, n - 1) {
            Some(None) => if rules[n - 1].effect == Effect::Deny {
                match rule_match_outcome(rules[n - 1], request) {
                    None => None,
                    Some(true) => Some(Some(n - 1)),
                    Some(false) => Some(None),
                }
            } else {
                Some(None)
            },
            other => other,
        }
    }
}

/// The state of the second pass of evaluation.
pub enum ScanState {
    /// The pass cannot finish: a selector or a duration it reads is missing
    /// or cannot be computed.
    Stuck,
    /// The pass returned this answer.
    Done(Result<DecisionModel, EvalFault>),
    /// The pass goes on; the first allow decision found so far, if any.
    Going(Option<DecisionModel>),
}

/// The lifetime an allow rule grants at most: its own `max_ttl`, or the
/// CA's default.
pub open spec fn rule_ttl(p: PolicyFile, rule: RuleConfig) -> Option<Result<u64, PolicyFault>> {
    match rule.max_ttl {
        Some(m) => spec_parse_duration(m@),
        None => spec_parse_duration(p.ca.default_ttl@),
    }
}

/// The smallest of three numbers.
pub open spec fn min3(a: u64, b: u64, c: u64) -> u64 {
    let ab = if a <= b {
        a
    } else {
        b
    };
    if ab <= c {
        ab
    } else {
        c
    }
}

/// One step of the second pass, over `rule`.
pub open spec fn allow_step(
    p: PolicyFile,
    request: Request,
    ca_max: u64,
    st: ScanState,
    rule: RuleConfig,
) -> ScanState {
    match st {
        ScanState::Going(first_allow) => match rule_match_outcome(rule, request) {
            None => ScanState::Stuck,
            Some(false) => st,
            Some(true) => match rule.effect {
                Effect::Deny => ScanState::Done(Ok(DecisionModel::Deny { rule: rule.name@ })),
                Effect::Allow => if first_allow is Some {
                    st
                } else {
                    match rule_ttl(p, rule) {
                        None => ScanState::Stuck,
                        Some(Err(e)) => ScanState::Done(Err(EvalFault::Policy(e))),
                        Some(Ok(t)) => if request.requested_ttl_seconds > t {
                            ScanState::Done(Err(EvalFault::TtlTooLong { max_seconds: t }))
                        } else {
                            ScanState::Going(
                                Some(
                                    DecisionModel::Allow {
                                        rule: rule.name@,
                                        ttl_seconds: min3(
                                            request.requested_ttl_seconds,
                                            t,
                                            ca_max,
                                        ),
                                    },
                                ),
                            )
                        },
                    }
                },
            },
        },
        _ => st,
    }
}

/// The state of the second pass after the first `n` rules.
pub open spec fn allow_scan(p: PolicyFile, request: Request, ca_max: u64, n: int) -> ScanState
    decreases n,
{
    if n <= 0 {
        ScanState::Going(None)
    } else {
        allow_step(p, request, ca_max, allow_scan(p, request, ca_max, n - 1), p.rules@[n - 1])
    }
}

/// The SSH principals that a principal may log in as.
pub open spec fn ssh_principal_views(pc: PrincipalConfig) -> Seq<Seq<char>> {
    pc.ssh_principals@.map_values(|s: String| s@)
}

/// The request names an SSH principal that its principal may not use.
pub open spec fn ssh_principal_rejected(pc: PrincipalConfig, request: Request) -> bool {
    match request.ssh_principal {
        Some(s) => !ssh_principal_views(pc).contains(s@),
        None => false,
    }
}

/// What `evaluate` answers; `None` where it cannot finish (a selector it
/// reads is missing, or a duration it reads cannot be computed).
///
/// In order: the requested lifetime must fit the CA's maximum; a deny rule
/// that applies decides; a request whose principal is unknown matches
/// nothing; a requested SSH principal must be one the principal may use;
/// then the rules are read in order: a deny rule that applies decides, and
/// the first allow rule that applies grants the request if its lifetime fits.
pub open spec fn spec_evaluate(p: PolicyFile, request: Request) -> Option<
    Result<DecisionModel, EvalFault>,
> {
    match spec_parse_duration(p.ca.max_ttl@) {
        None => None,
        Some(Err(e)) => Some(Err(EvalFault::Policy(e))),
        Some(Ok(ca_max)) => if request.requested_ttl_seconds > ca_max {
            Some(Err(EvalFault::TtlTooLong { max_seconds: ca_max }))
        } else {
            match deny_scan(p.rules@, request, p.rules@.len() as int) {
                None => None,
                Some(Some(i)) => Some(Ok(DecisionModel::Deny { rule: p.rules@[i].name@ })),
                Some(None) => match first_index(
                    ids_of_principals(p.principals@),
                    request.principal@,
                ) {
                    None => Some(Ok(DecisionModel::NoMatch)),
                    Some(k) => if ssh_principal_rejected(p.principals@[k], request) {
                        Some(
                            Err(
                                EvalFault::SshPrincipalNotAllowed {
                                    principal: request.principal@,
                                    ssh_principal: request.ssh_principal.unwrap()@,
                                },
                            ),
                        )
                    } else {
                        match allow_scan(p, request, ca_max, p.rules@.len() as int) {
                            ScanState::Stuck => None,
                            ScanState::Done(x) => Some(x),
                            ScanState::Going(Some(d)) => Some(Ok(d)),
                            ScanState::Going(None) => Some(Ok(DecisionModel::NoMatch)),
                        }
                    },
                },
            }
        },
    }
}

/// Once the first pass has found a deny rule or got stuck, that stays its
/// outcome.
pub proof fn lemma_deny_scan_stable(rules: Seq<RuleConfig>, request: Request, k: int, n: int)
    requires
        0 <= k <= n,
        deny_scan(rules, request, k) != Some(None::<int>),
    ensures
        deny_scan(rules, request, n) == deny_scan(rules, request, k),
    decreases n,
{
    if n > k {
        lemma_deny_scan_stable(rules, request, k, n - 1);
    }
}

/// Once the second pass has answered or got stuck, that stays its state.
pub proof fn lemma_allow_scan_stable(p: PolicyFile, request: Request, ca_max: u64, k: int, n: int)
    requires
        0 <= k <= n,
        !(allow_scan(p, request, ca_max, k) is Going),
    ensures
        allow_scan(p, request, ca_max, n) == allow_scan(p, request, ca_max, k),
    decreases n,
{
    if n > k {
        lemma_allow_scan_stable(p, request, ca_max, k, n - 1);
    }
}

/// Whether `selector` admits `candidate`.
pub fn selector_matches(selector: &str, candidate: &str) -> (r: bool)
    ensures
        r == spec_selector_matches(selector@, candidate@),
{
    str_eq(selector, ANY) || str_eq(selector, candidate)
}

/// Whether a rule's optional SSH principal admits a request's.
pub fn ssh_principal_matches(selector: Option<&str>, candidate: Option<&str>) -> (r: bool)
    ensures
        r == spec_ssh_principal_matches(opt_str_view(selector), opt_str_view(candidate)),
{
    match selector {
        Some(expected) => match candidate {
            Some(c) => str_eq(c, expected),
            None => false,
        },
        None => true,
    }
}

fn rule_matches(rule: &RuleConfig, request: &Request) -> (r: bool)
    requires
        rule_match_outcome(*rule, *request) is Some,
    ensures
        r == rule_match_outcome(*rule, *request).unwrap(),
{
    let principal = match opt_str(&rule.principal) {
        Some(v) => v,
        None => {
            proof {
                assert(false);
            }
            return false;
        },
    };
    if !selector_matches(principal, request.principal.as_str()) {
        return false;
    }
    let action = match opt_str(&rule.action) {
        Some(v) => v,
        None => {
            proof {
                assert(false);
            }
            return false;
        },
    };
    if !selector_matches(action, request.action.as_str()) {
        return false;
    }
    let resource = match opt_str(&rule.resource) {
        Some(v) => v,
        None => {
            proof {
                assert(false);
            }
            return false;
        },
    };
    if !selector_matches(resource, request.resource.as_str()) {
        return false;
    }
    ssh_principal_matches(opt_str(&rule.ssh_principal), opt_str(&request.ssh_principal))
}

fn first_matching_deny(policy: &PolicyFile, request: &Request) -> (r: Option<usize>)
    requires
        deny_scan(policy.rules@, *request, policy.rules@.len() as int) is Some,
    ensures
        match r {
            Some(i) => i < policy.rules@.len() && deny_scan(
                policy.rules@,
                *request,
                policy.rules@.len() as int,
            ) == Some(Some(i as int)),
            None => deny_scan(policy.rules@, *request, policy.rules@.len() as int) == Some(
                None::<int>,
            ),
        },
{
    let n = policy.rules.len();
    let ghost rules = policy.rules@;
    let mut i: usize = 0;
    while i < n
        invariant
            n == rules.len(),
            rules == policy.rules@,
            i <= n,
            deny_scan(rules, *request, n as int) is Some,
            deny_scan(rules, *request, i as int) == Some(None::<int>),
        decreases n - i,
    {
        let rule = &policy.rules[i];
        if rule.effect == Effect::Deny {
            proof {
                if rule_match_outcome(*rule, *request) is None {
                    lemma_deny_scan_stable(rules, *request, i + 1, n as int);
                }
            }
            if rule_matches(rule, request) {
                proof {
                    lemma_deny_scan_stable(rules, *request, i + 1, n as int);
                }
                return Some(i);
            }
        }
        i = i + 1;
    }
    None
}

fn ssh_principal_allowed(principal: &PrincipalConfig, ssh_principal: &str) -> (r: bool)
    ensures
        r == ssh_principal_views(*principal).contains(ssh_principal@),
{
    let n = principal.ssh_principals.len();
    let mut i: usize = 0;
    while i < n
        invariant
            n == principal.ssh_principals@.len(),
            i <= n,
            forall|j: int| 0 <= j < i ==> principal.ssh_principals@[j]@ != ssh_principal@,
        decreases n - i,
    {
        if str_eq(principal.ssh_principals[i].as_str(), ssh_principal) {
            proof {
                assert(ssh_principal_views(*principal)[i as int] == ssh_principal@);
            }
            return true;
        }
        i = i + 1;
    }
    proof {
        assert forall|j: int| 0 <= j < ssh_principal_views(*principal).len() implies ssh_principal_views(
            *principal,
        )[j] != ssh_principal@ by {
            assert(principal.ssh_principals@[j]@ != ssh_principal@);
        }
    }
    false
}

/// The view of an optional decision.
pub open spec fn opt_decision_view(d: Option<Decision>) -> Option<DecisionModel> {
    match d {
        Some(x) => Some(x@),
        None => None,
    }
}

fn scan_rules(policy: &PolicyFile, request: &Request, ca_max_ttl: u64) -> (r: Result<
    Decision,
    EvalError,
>)
    requires
        !(allow_scan(*policy, *request, ca_max_ttl, policy.rules@.len() as int) is Stuck),
    ensures
        match allow_scan(*policy, *request, ca_max_ttl, policy.rules@.len() as int) {
            ScanState::Done(x) => eval_result(r) == x,
            ScanState::Going(Some(d)) => eval_result(r) == Ok::<DecisionModel, EvalFault>(d),
            ScanState::Going(None) => eval_result(r) == Ok::<DecisionModel, EvalFault>(
                DecisionModel::NoMatch,
            ),
            ScanState::Stuck => false,
        },
{
    let ghost p = *policy;
    let n = policy.rules.len();
    let mut first_allow: Option<Decision> = None;
    let mut i: usize = 0;
    while i < n
        invariant
            n == p.rules@.len(),
            p == *policy,
            i <= n,
            !(allow_scan(p, *request, ca_max_ttl, n as int) is Stuck),
            allow_scan(p, *request, ca_max_ttl, i as int) == ScanState::Going(
                opt_decision_view(first_allow),
            ),
        decreases n - i,
    {
        let rule = &policy.rules[i];
        proof {
            if rule_match_outcome(*rule, *request) is None {
                lemma_allow_scan_stable(p, *request, ca_max_ttl, i + 1, n as int);
            }
        }
        if rule_matches(rule, request) {
            match rule.effect {
                Effect::Deny => {
                    proof {
                        lemma_allow_scan_stable(p, *request, ca_max_ttl, i + 1, n as int);
                    }
                    return Ok(Decision::Deny { rule: rule.name.clone() });
                },
                Effect::Allow => {
                    if first_allow.is_none() {
                        proof {
                            if rule_ttl(p, *rule) is None || rule_ttl(p, *rule) matches Some(
                                Err(_),
                            ) {
                                lemma_allow_scan_stable(p, *request, ca_max_ttl, i + 1, n as int);
                            }
                        }
                        let rule_ttl = match opt_str(&rule.max_ttl) {
                            Some(max_ttl) => parse_duration_seconds(max_ttl),
                            None => policy.ca_default_ttl_seconds(),
                        };
                        let rule_ttl = match rule_ttl {
                            Ok(t) => t,
                            Err(e) => return Err(EvalError::Policy(e)),
                        };
                        if request.requested_ttl_seconds > rule_ttl {
                            proof {
                                lemma_allow_scan_stable(p, *request, ca_max_ttl, i + 1, n as int);
                            }
                            return Err(EvalError::TtlTooLong { max_seconds: rule_ttl });
                        }
                        let mut ttl = request.requested_ttl_seconds;
                        if rule_ttl < ttl {
                            ttl = rule_ttl;
                        }
                        if ca_max_ttl < ttl {
                            ttl = ca_max_ttl;
                        }
                        first_allow = Some(Decision::Allow { rule: rule.name.clone(), ttl_seconds: ttl });
                    }
                },
            }
        }
        i = i + 1;
    }
    match first_allow {
        Some(d) => Ok(d),
        None => Ok(Decision::NoMatch),
    }
}

/// Decides a request against a policy.
pub fn evaluate(policy: &PolicyFile, request: &Request) -> (r: Result<Decision, EvalError>)
    requires
        spec_evaluate(*policy, *request) is Some,
    ensures
        eval_result(r) == spec_evaluate(*policy, *request).unwrap(),
{
    let ca_max_ttl = match policy.ca_max_ttl_seconds() {
        Ok(v) => v,
        Err(e) => return Err(EvalError::Policy(e)),
    };
    if request.requested_ttl_seconds > ca_max_ttl {
        return Err(EvalError::TtlTooLong { max_seconds: ca_max_ttl });
    }
    if let Some(i) = first_matching_deny(policy, request) {
        return Ok(Decision::Deny { rule: policy.rules[i].name.clone() });
    }
    let principal = match policy.principal(request.principal.as_str()) {
        Some(principal) => principal,
        None => return Ok(Decision::NoMatch),
    };
    if let Some(ssh_principal) = &request.ssh_principal {
        if !ssh_principal_allowed(principal, ssh_principal.as_str()) {
            return Err(
                EvalError::SshPrincipalNotAllowed {
                    principal: request.principal.clone(),
                    ssh_principal: ssh_principal.clone(),
                },
            );
        }
    }
    scan_rules(policy, request, ca_max_ttl)
}

} // verus!
