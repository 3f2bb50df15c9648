//! What holds of the library as a whole: properties of validation,
//! evaluation and planning that span calls.
use vstd::prelude::*;

use crate::evaluator::{
    allow_scan, allow_step, deny_scan, lemma_deny_scan_stable, min3,
    rule_match_outcome, rule_ttl, spec_evaluate, spec_from_cli, spec_safe_name, DecisionModel,
    EvalFault, Request, ScanState, ssh_principal_views, opt_view,
};
use crate::plan::spec_build_plan;
use crate::policy::{
    check_principal, check_resource, check_rule, check_rule_selectors, check_rule_ttl,
    ids_of_principals, ids_of_resources, lemma_first_error_ok, lemma_first_failure_ok,
    names_of_rules, principal_checks, resource_checks, rule_checks, spec_parse_duration,
    spec_validate, and_check, first_error, is_atom, lemma_validate_atom_accepts_atoms, Effect,
    PolicyFile, ANY, first_failure, first_index, lemma_first_index_found, spec_validate_atom,
    atom_checks, check_rule_ttl as rule_ttl_check, PolicyFault,
};
use vstd::utf8::{
    encode_utf8, encode_utf8_valid_utf8, is_char_boundary, is_char_boundary_iff_not_is_continuation_byte,
};
use crate::text::{decimal_chars, digit_char, sanitize_char, spec_sanitize};

verus! {

/// Every rule of the policy names its principal, action and resource, and
/// the lifetime it grants at most can be read.
pub open spec fn rules_complete(p: PolicyFile) -> bool {
    forall|i: int|
        0 <= i < p.rules@.len() ==> {
            let rule = #[trigger] p.rules@[i];
            &&& rule.principal is Some
            &&& rule.action is Some
            &&& rule.resource is Some
            &&& rule_ttl(p, rule) matches Some(Ok(_))
        }
}

proof fn lemma_validated_rule(p: PolicyFile, ca_max: u64, i: int)
    requires
        check_rule(p, ca_max, i) == Some(Ok::<(), crate::policy::PolicyFault>(())),
        spec_parse_duration(p.ca.default_ttl@) matches Some(Ok(_)),
    ensures
        p.rules@[i].principal is Some,
        p.rules@[i].action is Some,
        p.rules@[i].resource is Some,
        rule_ttl(p, p.rules@[i]) matches Some(Ok(t)) && (p.rules@[i].max_ttl is Some ==> t
            <= ca_max),
        !crate::policy::seen_before(names_of_rules(p.rules@), i),
        ({
            let rule = p.rules@[i];
            let pr = rule.principal.unwrap()@;
            let rs = rule.resource.unwrap()@;
            &&& (pr == ANY@ || ids_of_principals(p.principals@).contains(pr))
            &&& (rs == ANY@ || ids_of_resources(p.resources@).contains(rs))
        }),
{
    let rule = p.rules@[i];
    let name = rule.name@;
    let pre = and_check(
        crate::policy::spec_validate_atom(name),
        if crate::policy::seen_before(names_of_rules(p.rules@), i) {
            Err(crate::policy::PolicyFault::DuplicateRuleName { name })
        } else {
            Ok(())
        },
    );
    assert(pre is Ok);
    let pr = rule.principal.unwrap();
    let ac = rule.action.unwrap();
    let rs = rule.resource.unwrap();
    assert(check_rule_selectors(p, rule, pr@, ac@, rs@) is Ok);
    assert(check_rule_ttl(rule, ca_max) == Some(Ok::<(), crate::policy::PolicyFault>(())));
}

/// A policy that `validate` accepts has every rule complete.
pub proof fn lemma_validated_rules_complete(p: PolicyFile)
    requires
        spec_validate(p) == Some(Ok::<(), crate::policy::PolicyFault>(())),
    ensures
        rules_complete(p),
        spec_parse_duration(p.ca.max_ttl@) matches Some(Ok(_)),
{
    let ca_max = spec_parse_duration(p.ca.max_ttl@).unwrap()->Ok_0;
    assert forall|i: int| 0 <= i < p.rules@.len() implies {
        let rule = #[trigger] p.rules@[i];
        &&& rule.principal is Some
        &&& rule.action is Some
        &&& rule.resource is Some
        &&& rule_ttl(p, rule) matches Some(Ok(_))
    } by {
        lemma_first_failure_ok(rule_checks(p, ca_max), p.rules@.len() as int, i);
        lemma_validated_rule(p, ca_max, i);
    }
}

proof fn lemma_deny_scan_defined(p: PolicyFile, request: Request, n: int)
    requires
        rules_complete(p),
        0 <= n <= p.rules@.len(),
    ensures
        deny_scan(p.rules@, request, n) is Some,
    decreases n,
{
    if n > 0 {
        lemma_deny_scan_defined(p, request, n - 1);
        let rule = p.rules@[n - 1];
        assert(rule.principal is Some && rule.action is Some && rule.resource is Some);
    }
}

proof fn lemma_allow_scan_defined(p: PolicyFile, request: Request, ca_max: u64, n: int)
    requires
        rules_complete(p),
        0 <= n <= p.rules@.len(),
    ensures
        !(allow_scan(p, request, ca_max, n) is Stuck),
    decreases n,
{
    if n > 0 {
        lemma_allow_scan_defined(p, request, ca_max, n - 1);
        let rule = p.rules@[n - 1];
        assert(rule.principal is Some && rule.action is Some && rule.resource is Some);
        assert(rule_ttl(p, rule) matches Some(Ok(_)));
    }
}

/// Law: every request can be evaluated against a policy that `validate`
/// accepts; evaluation then never stops for want of a selector or a
/// readable duration.
pub proof fn law_validated_policy_evaluates(p: PolicyFile, request: Request)
    requires
        spec_validate(p) == Some(Ok::<(), crate::policy::PolicyFault>(())),
    ensures
        spec_evaluate(p, request) is Some,
{
    lemma_validated_rules_complete(p);
    let ca_max = spec_parse_duration(p.ca.max_ttl@).unwrap()->Ok_0;
    lemma_deny_scan_defined(p, request, p.rules@.len() as int);
    lemma_allow_scan_defined(p, request, ca_max, p.rules@.len() as int);
}

/// Law: in a policy that `validate` accepts, principal ids, resource ids
/// and rule names are each unique; there are at most 64 rules; every rule
/// names its principal, action and resource, refers to `any` or to a
/// principal and a resource the policy declares, and grants at most the
/// CA's maximum lifetime.
pub proof fn law_validated_policy_well_formed(p: PolicyFile)
    requires
        spec_validate(p) == Some(Ok::<(), crate::policy::PolicyFault>(())),
    ensures
        forall|i: int, j: int|
            0 <= i < j < p.principals@.len() ==> p.principals@[i].id@ != p.principals@[j].id@,
        forall|i: int, j: int|
            0 <= i < j < p.resources@.len() ==> p.resources@[i].id@ != p.resources@[j].id@,
        forall|i: int, j: int|
            0 <= i < j < p.rules@.len() ==> p.rules@[i].name@ != p.rules@[j].name@,
        p.rules@.len() <= 64,
        forall|i: int|
            0 <= i < p.rules@.len() ==> {
                let rule = #[trigger] p.rules@[i];
                &&& rule.principal is Some
                &&& rule.action is Some
                &&& rule.resource is Some
                &&& (rule.principal.unwrap()@ == ANY@ || ids_of_principals(p.principals@).contains(
                    rule.principal.unwrap()@,
                ))
                &&& (rule.resource.unwrap()@ == ANY@ || ids_of_resources(p.resources@).contains(
                    rule.resource.unwrap()@,
                ))
                &&& (rule.max_ttl matches Some(m) ==> spec_parse_duration(m@) matches Some(Ok(t))
                    && spec_parse_duration(p.ca.max_ttl@) matches Some(Ok(c)) && t <= c)
            },
{
    let ca_max = spec_parse_duration(p.ca.max_ttl@).unwrap()->Ok_0;
    let ps = p.principals@;
    let rs = p.resources@;
    let rules = p.rules@;
    assert(first_error(principal_checks(ps), ps.len() as int) is Ok);
    assert(first_error(resource_checks(rs), rs.len() as int) is Ok);
    assert forall|i: int, j: int| 0 <= i < j < ps.len() implies ps[i].id@ != ps[j].id@ by {
        lemma_first_error_ok(principal_checks(ps), ps.len() as int, j);
        assert(check_principal(ps, j) is Ok);
        assert(ids_of_principals(ps).take(j)[i] == ps[i].id@);
    }
    assert forall|i: int, j: int| 0 <= i < j < rs.len() implies rs[i].id@ != rs[j].id@ by {
        lemma_first_error_ok(resource_checks(rs), rs.len() as int, j);
        assert(check_resource(rs, j) is Ok);
        assert(ids_of_resources(rs).take(j)[i] == rs[i].id@);
    }
    assert forall|i: int, j: int| 0 <= i < j < rules.len() implies rules[i].name@
        != rules[j].name@ by {
        lemma_first_failure_ok(rule_checks(p, ca_max), rules.len() as int, j);
        lemma_validated_rule(p, ca_max, j);
        assert(names_of_rules(rules).take(j)[i] == rules[i].name@);
    }
    assert forall|i: int| 0 <= i < rules.len() implies {
        let rule = #[trigger] rules[i];
        &&& rule.principal is Some
        &&& rule.action is Some
        &&& rule.resource is Some
        &&& (rule.principal.unwrap()@ == ANY@ || ids_of_principals(ps).contains(
            rule.principal.unwrap()@,
        ))
        &&& (rule.resource.unwrap()@ == ANY@ || ids_of_resources(rs).contains(
            rule.resource.unwrap()@,
        ))
        &&& (rule.max_ttl matches Some(m) ==> spec_parse_duration(m@) matches Some(Ok(t))
            && spec_parse_duration(p.ca.max_ttl@) matches Some(Ok(c)) && t <= c)
    } by {
        lemma_first_failure_ok(rule_checks(p, ca_max), rules.len() as int, i);
        lemma_validated_rule(p, ca_max, i);
    }
}

proof fn lemma_deny_found(p: PolicyFile, request: Request, i: int, n: int)
    requires
        0 <= i < n <= p.rules@.len(),
        p.rules@[i].effect == Effect::Deny,
        rule_match_outcome(p.rules@[i], request) == Some(true),
    ensures
        deny_scan(p.rules@, request, n) != Some(None::<int>),
    decreases n,
{
    if n > i + 1 {
        lemma_deny_found(p, request, i, n - 1);
        lemma_deny_scan_stable(p.rules@, request, n - 1, n);
    }
}

/// Law: a deny rule overrides every allow rule and every other check on
/// the request. When some deny rule applies to the request, evaluation
/// answers a deny, unless the CA's maximum lifetime is unreadable or below
/// the requested lifetime (which is checked first).
pub proof fn law_deny_overrides_allow(p: PolicyFile, request: Request, i: int)
    requires
        0 <= i < p.rules@.len(),
        p.rules@[i].effect == Effect::Deny,
        rule_match_outcome(p.rules@[i], request) == Some(true),
    ensures
        spec_evaluate(p, request) matches Some(r) ==> (r matches Ok(d) && d is Deny) || !(
        spec_parse_duration(p.ca.max_ttl@) matches Some(Ok(m))
            && request.requested_ttl_seconds <= m),
{
    lemma_deny_found(p, request, i, p.rules@.len() as int);
}

/// Rule `i` applies to the request and grants it, with the requested
/// lifetime, which fits both the rule's limit and the CA's maximum.
pub open spec fn allow_justified(
    p: PolicyFile,
    request: Request,
    ca_max: u64,
    i: int,
    rule: Seq<char>,
    ttl_seconds: u64,
) -> bool {
    &&& 0 <= i < p.rules@.len()
    &&& p.rules@[i].effect == Effect::Allow
    &&& rule_match_outcome(p.rules@[i], request) == Some(true)
    &&& p.rules@[i].name@ == rule
    &&& ttl_seconds == request.requested_ttl_seconds
    &&& rule_ttl(p, p.rules@[i]) matches Some(Ok(t)) && ttl_seconds <= t
    &&& ttl_seconds <= ca_max
}

proof fn lemma_allow_scan_justified(p: PolicyFile, request: Request, ca_max: u64, n: int)
    requires
        0 <= n <= p.rules@.len(),
        request.requested_ttl_seconds <= ca_max,
    ensures
        allow_scan(p, request, ca_max, n) matches ScanState::Going(Some(d)) ==> d is Allow
            && exists|i: int|
            #[trigger] allow_justified(p, request, ca_max, i, d->Allow_rule, d->Allow_ttl_seconds),
        allow_scan(p, request, ca_max, n) matches ScanState::Done(Ok(d)) ==> d is Deny,
    decreases n,
{
    if n > 0 {
        lemma_allow_scan_justified(p, request, ca_max, n - 1);
        let prev = allow_scan(p, request, ca_max, n - 1);
        let rule = p.rules@[n - 1];
        let cur = allow_scan(p, request, ca_max, n);
        assert(cur == allow_step(p, request, ca_max, prev, rule));
        if let ScanState::Going(Some(d)) = cur {
            if prev matches ScanState::Going(None) {
                assert(rule_match_outcome(rule, request) == Some(true));
                assert(rule.effect == Effect::Allow);
                let t = rule_ttl(p, rule)->Some_0->Ok_0;
                assert(request.requested_ttl_seconds <= t);
                assert(min3(request.requested_ttl_seconds, t, ca_max)
                    == request.requested_ttl_seconds);
                assert(allow_justified(
                    p,
                    request,
                    ca_max,
                    n - 1,
                    rule.name@,
                    request.requested_ttl_seconds,
                ));
                assert(d->Allow_rule == rule.name@);
                assert(d->Allow_ttl_seconds == request.requested_ttl_seconds);
                assert(allow_justified(p, request, ca_max, n - 1, d->Allow_rule, d->Allow_ttl_seconds));
            } else {
                assert(prev == cur);
                assert(exists|i: int| #[trigger] allow_justified(p, request, ca_max, i, d->Allow_rule, d->Allow_ttl_seconds));
            }
        }
    }
}

/// Law: a grant is justified. When evaluation allows a request, some allow
/// rule of the policy applies to it, the decision names that rule, and the
/// granted lifetime is exactly the requested one, within the rule's limit
/// and the CA's maximum.
pub proof fn law_allow_is_justified(p: PolicyFile, request: Request)
    requires
        spec_evaluate(p, request) matches Some(Ok(DecisionModel::Allow { .. })),
    ensures
        spec_evaluate(p, request) matches Some(Ok(DecisionModel::Allow { rule, ttl_seconds }))
            && spec_parse_duration(p.ca.max_ttl@) matches Some(Ok(ca_max)) && exists|i: int|
            #[trigger] allow_justified(p, request, ca_max, i, rule, ttl_seconds),
{
    let ca_max = spec_parse_duration(p.ca.max_ttl@).unwrap()->Ok_0;
    lemma_allow_scan_justified(p, request, ca_max, p.rules@.len() as int);
}

/// Law: a sanitized name holds no `:`, `/` or `.`, and has as many
/// characters as the name it came from.
pub proof fn law_sanitized_has_no_separators(s: Seq<char>)
    ensures
        spec_sanitize(s).len() == s.len(),
        forall|i: int|
            0 <= i < s.len() ==> {
                let c = #[trigger] spec_sanitize(s)[i];
                c != ':' && c != '/' && c != '.'
            },
{
    assert forall|i: int| 0 <= i < s.len() implies {
        let c = #[trigger] spec_sanitize(s)[i];
        c != ':' && c != '/' && c != '.'
    } by {
        assert(spec_sanitize(s)[i] == sanitize_char(s[i]));
    }
}

/// Law: only an allow decision is planned, and the plan carries that
/// decision's rule and lifetime, and the request's principal, action and
/// resource; its id holds no `/`, so it names a single file.
pub proof fn law_plan_follows_decision(
    p: PolicyFile,
    request: Request,
    decision: DecisionModel,
    created_at_unix: u64,
)
    requires
        spec_build_plan(p, request, decision, created_at_unix) is Ok,
    ensures
        ({
            let plan = spec_build_plan(p, request, decision, created_at_unix)->Ok_0;
            &&& decision matches DecisionModel::Allow { rule, ttl_seconds }
            &&& plan.matched_rule == rule
            &&& plan.ttl_seconds == ttl_seconds
            &&& plan.principal == request.principal@
            &&& plan.action == request.action@
            &&& plan.resource == request.resource@
            &&& plan.created_at_unix == created_at_unix
            &&& forall|i: int| 0 <= i < plan.plan_id.len() ==> plan.plan_id[i] != '/'
        }),
{
    reveal_strlit("-");
    let plan = spec_build_plan(p, request, decision, created_at_unix)->Ok_0;
    law_sanitized_has_no_separators(request.principal@);
    law_sanitized_has_no_separators(request.resource@);
    let s = plan.ssh_principal;
    law_sanitized_has_no_separators(s);
    let a = spec_sanitize(request.principal@);
    let b = spec_sanitize(request.resource@);
    let c = spec_sanitize(s);
    assert(plan.plan_id =~= a + seq!['-'] + b + seq!['-'] + c);
    assert forall|i: int| 0 <= i < plan.plan_id.len() implies plan.plan_id[i] != '/' by {
        if i < a.len() {
            assert(plan.plan_id[i] == a[i]);
        } else if i == a.len() {
        } else if i < a.len() + 1 + b.len() {
            assert(plan.plan_id[i] == b[i - a.len() - 1]);
        } else if i == a.len() + 1 + b.len() {
        } else {
            assert(plan.plan_id[i] == c[i - a.len() - 2 - b.len()]);
        }
    }
}

/// Law: what is planned for an evaluated request is what it asked for.
/// When evaluation allows a request and a plan is made for that decision,
/// the plan's lifetime is the requested one and fits the CA's maximum.
pub proof fn law_planned_lifetime_is_requested(
    p: PolicyFile,
    request: Request,
    created_at_unix: u64,
)
    requires
        spec_evaluate(p, request) matches Some(Ok(d)) && spec_build_plan(
            p,
            request,
            d,
            created_at_unix,
        ) is Ok,
    ensures
        ({
            let d = spec_evaluate(p, request)->Some_0->Ok_0;
            let plan = spec_build_plan(p, request, d, created_at_unix)->Ok_0;
            &&& plan.ttl_seconds == request.requested_ttl_seconds
            &&& spec_parse_duration(p.ca.max_ttl@) matches Some(Ok(ca_max))
            &&& plan.ttl_seconds <= ca_max
        }),
{
    let d = spec_evaluate(p, request)->Some_0->Ok_0;
    law_plan_follows_decision(p, request, d, created_at_unix);
    law_allow_is_justified(p, request);
}

/// Law: a request built from the command line names only atoms: its
/// principal, action, resource and SSH principal each passed
/// `validate_atom`.
pub proof fn law_cli_request_names_are_atoms(
    principal: Seq<char>,
    action: Seq<char>,
    resource: Seq<char>,
    ssh_principal: Option<Seq<char>>,
    ttl: Seq<char>,
)
    requires
        spec_from_cli(principal, action, resource, ssh_principal, ttl) matches Some(Ok(_)),
    ensures
        is_atom(principal),
        is_atom(action),
        is_atom(resource),
        ssh_principal matches Some(s) ==> is_atom(s),
{
    lemma_validate_atom_accepts_atoms(principal);
    lemma_validate_atom_accepts_atoms(action);
    lemma_validate_atom_accepts_atoms(resource);
    if let Some(s) = ssh_principal {
        lemma_validate_atom_accepts_atoms(s);
    }
}

// ---------------------------------------------------------------------------
// Declared principals
// ---------------------------------------------------------------------------

/// Law: a principal that the policy does not declare is never granted
/// access, nor told that its SSH principal is refused: evaluation answers
/// it a deny (from a deny rule on `any`), no-match, or an error about
/// lifetimes.
pub proof fn law_undeclared_principal_is_never_granted(p: PolicyFile, request: Request)
    requires
        forall|k: int|
            0 <= k < p.principals@.len() ==> #[trigger] p.principals@[k].id@
                != request.principal@,
    ensures
        spec_evaluate(p, request) matches Some(Ok(d)) ==> (d is NoMatch || d is Deny),
        !(spec_evaluate(p, request) matches Some(Err(EvalFault::SshPrincipalNotAllowed { .. }))),
{
    let xs = ids_of_principals(p.principals@);
    lemma_first_index_found(xs, request.principal@, xs.len() as int);
    if let Some(i) = first_index(xs, request.principal@) {
        assert(xs[i] == p.principals@[i].id@);
    }
}

/// Law: whoever is granted access is a principal the policy declares.
pub proof fn law_granted_principal_is_declared(p: PolicyFile, request: Request)
    requires
        spec_evaluate(p, request) matches Some(Ok(DecisionModel::Allow { .. })),
    ensures
        exists|k: int|
            0 <= k < p.principals@.len() && #[trigger] p.principals@[k].id@ == request.principal@,
{
    if !exists|k: int|
        0 <= k < p.principals@.len() && #[trigger] p.principals@[k].id@ == request.principal@ {
        law_undeclared_principal_is_never_granted(p, request);
    }
}

// ---------------------------------------------------------------------------
// Completeness of validation
// ---------------------------------------------------------------------------

/// A rule selector is well formed: `any` or an atom.
pub open spec fn selector_well_formed(v: Seq<char>) -> bool {
    v == ANY@ || is_atom(v)
}

/// `v` is `any` or the id of one of `ids`' owners.
pub open spec fn any_or_declared(v: Seq<char>, ids: Seq<Seq<char>>) -> bool {
    v == ANY@ || exists|k: int| 0 <= k < ids.len() && #[trigger] ids[k] == v
}

/// Every rule of `p` is well formed: its name is an atom, its three
/// selectors are present and well formed, its SSH principal is an atom, it
/// refers to `any` or to a declared principal and resource, and its own
/// `max_ttl` can be read and is at most `ca_max`.
pub open spec fn rule_well_formed(p: PolicyFile, ca_max: u64, i: int) -> bool {
    let rule = p.rules@[i];
    &&& is_atom(rule.name@)
    &&& rule.principal matches Some(pr) && selector_well_formed(pr@) && any_or_declared(
        pr@,
        ids_of_principals(p.principals@),
    )
    &&& rule.action matches Some(ac) && selector_well_formed(ac@)
    &&& rule.resource matches Some(rs) && selector_well_formed(rs@) && any_or_declared(
        rs@,
        ids_of_resources(p.resources@),
    )
    &&& rule.ssh_principal matches Some(s) ==> is_atom(s@)
    &&& rule.max_ttl matches Some(m) ==> spec_parse_duration(m@) matches Some(Ok(t)) && t <= ca_max
}

proof fn lemma_first_error_all_ok(f: spec_fn(int) -> Result<(), PolicyFault>, n: int)
    requires
        forall|k: int| 0 <= k < n ==> #[trigger] f(k) is Ok,
    ensures
        first_error(f, n) is Ok,
    decreases n,
{
    if n > 0 {
        lemma_first_error_all_ok(f, n - 1);
        assert(f(n - 1) is Ok);
    }
}

proof fn lemma_first_failure_all_ok(f: spec_fn(int) -> Option<Result<(), PolicyFault>>, n: int)
    requires
        forall|k: int| 0 <= k < n ==> #[trigger] f(k) == Some(Ok::<(), PolicyFault>(())),
    ensures
        first_failure(f, n) == Some(Ok::<(), PolicyFault>(())),
    decreases n,
{
    if n > 0 {
        lemma_first_failure_all_ok(f, n - 1);
        assert(f(n - 1) == Some(Ok::<(), PolicyFault>(())));
    }
}

proof fn lemma_not_seen_before(xs: Seq<Seq<char>>, i: int)
    requires
        0 <= i < xs.len(),
        forall|j: int| 0 <= j < i ==> #[trigger] xs[j] != xs[i],
    ensures
        !crate::policy::seen_before(xs, i),
{
    if xs.take(i).contains(xs[i]) {
        let j = choose|j: int| 0 <= j < xs.take(i).len() && xs.take(i)[j] == xs[i];
        assert(xs[j] == xs.take(i)[j]);
    }
}

proof fn lemma_selector_accepted(v: Seq<char>)
    requires
        selector_well_formed(v),
    ensures
        crate::policy::spec_validate_selector(v) == Ok::<(), PolicyFault>(()),
{
    if v != ANY@ {
        lemma_validate_atom_accepts_atoms(v);
    }
}

proof fn lemma_declared_contained(v: Seq<char>, ids: Seq<Seq<char>>)
    requires
        any_or_declared(v, ids),
        v != ANY@,
    ensures
        ids.contains(v),
{
    let k = choose|k: int| 0 <= k < ids.len() && #[trigger] ids[k] == v;
    assert(ids[k] == v);
}

proof fn lemma_well_formed_rule_accepted(p: PolicyFile, ca_max: u64, i: int)
    requires
        0 <= i < p.rules@.len(),
        rule_well_formed(p, ca_max, i),
        forall|j: int| 0 <= j < i ==> #[trigger] p.rules@[j].name@ != p.rules@[i].name@,
    ensures
        check_rule(p, ca_max, i) == Some(Ok::<(), PolicyFault>(())),
{
    let rules = p.rules@;
    let rule = rules[i];
    let names = names_of_rules(rules);
    assert forall|j: int| 0 <= j < i implies #[trigger] names[j] != names[i] by {
        assert(names[j] == rules[j].name@);
    }
    lemma_not_seen_before(names, i);
    lemma_validate_atom_accepts_atoms(rule.name@);
    let pr = rule.principal.unwrap()@;
    let ac = rule.action.unwrap()@;
    let rs = rule.resource.unwrap()@;
    lemma_selector_accepted(pr);
    lemma_selector_accepted(ac);
    lemma_selector_accepted(rs);
    if let Some(s) = rule.ssh_principal {
        lemma_validate_atom_accepts_atoms(s@);
    }
    if pr != ANY@ {
        lemma_declared_contained(pr, ids_of_principals(p.principals@));
    }
    if rs != ANY@ {
        lemma_declared_contained(rs, ids_of_resources(p.resources@));
    }
    assert(check_rule_selectors(p, rule, pr, ac, rs) == Ok::<(), PolicyFault>(()));
    assert(rule_ttl_check(rule, ca_max) == Some(Ok::<(), PolicyFault>(())));
}

/// Law: `validate` accepts every well-formed policy: the CA's name is an
/// atom and its two lifetimes can be read; principal ids, their SSH
/// principals, resource ids and hosts are atoms; ids and rule names are
/// unique; there are at most 64 rules, each of them well formed (see
/// [`rule_well_formed`]). In particular `any` is accepted as a rule's
/// principal or resource without being declared.
pub proof fn law_well_formed_policy_is_accepted(p: PolicyFile)
    requires
        is_atom(p.ca.name@),
        spec_parse_duration(p.ca.default_ttl@) matches Some(Ok(_)),
        spec_parse_duration(p.ca.max_ttl@) matches Some(Ok(_)),
        forall|k: int|
            0 <= k < p.principals@.len() ==> is_atom(#[trigger] p.principals@[k].id@),
        forall|k: int, m: int|
            0 <= k < p.principals@.len() && 0 <= m < p.principals@[k].ssh_principals@.len()
                ==> is_atom(#[trigger] p.principals@[k].ssh_principals@[m]@),
        forall|i: int, j: int|
            0 <= i < j < p.principals@.len() ==> #[trigger] p.principals@[i].id@
                != #[trigger] p.principals@[j].id@,
        forall|k: int|
            0 <= k < p.resources@.len() ==> is_atom(#[trigger] p.resources@[k].id@) && is_atom(
                p.resources@[k].host@,
            ),
        forall|i: int, j: int|
            0 <= i < j < p.resources@.len() ==> #[trigger] p.resources@[i].id@
                != #[trigger] p.resources@[j].id@,
        p.rules@.len() <= 64,
        forall|i: int, j: int|
            0 <= i < j < p.rules@.len() ==> #[trigger] p.rules@[i].name@
                != #[trigger] p.rules@[j].name@,
        forall|i: int|
            0 <= i < p.rules@.len() ==> #[trigger] rule_well_formed(
                p,
                spec_parse_duration(p.ca.max_ttl@)->Some_0->Ok_0,
                i,
            ),
    ensures
        spec_validate(p) == Some(Ok::<(), PolicyFault>(())),
{
    let ca_max = spec_parse_duration(p.ca.max_ttl@)->Some_0->Ok_0;
    let ps = p.principals@;
    let rs = p.resources@;
    lemma_validate_atom_accepts_atoms(p.ca.name@);
    assert forall|k: int| 0 <= k < ps.len() implies #[trigger] principal_checks(ps)(k) is Ok by {
        let pc = ps[k];
        lemma_validate_atom_accepts_atoms(pc.id@);
        let ids = ids_of_principals(ps);
        assert forall|j: int| 0 <= j < k implies #[trigger] ids[j] != ids[k] by {
            assert(ids[j] == ps[j].id@ && ids[k] == ps[k].id@);
            assert(ps[j].id@ != ps[k].id@);
        }
        lemma_not_seen_before(ids, k);
        let sps = pc.ssh_principals@;
        assert forall|m: int| 0 <= m < sps.len() implies #[trigger] atom_checks(sps)(m) is Ok by {
            assert(is_atom(ps[k].ssh_principals@[m]@));
            lemma_validate_atom_accepts_atoms(sps[m]@);
        }
        lemma_first_error_all_ok(atom_checks(sps), sps.len() as int);
        assert(check_principal(ps, k) is Ok);
    }
    lemma_first_error_all_ok(principal_checks(ps), ps.len() as int);
    assert forall|k: int| 0 <= k < rs.len() implies #[trigger] resource_checks(rs)(k) is Ok by {
        assert(is_atom(rs[k].id@) && is_atom(rs[k].host@));
        lemma_validate_atom_accepts_atoms(rs[k].id@);
        lemma_validate_atom_accepts_atoms(rs[k].host@);
        let ids = ids_of_resources(rs);
        assert forall|j: int| 0 <= j < k implies #[trigger] ids[j] != ids[k] by {
            assert(ids[j] == rs[j].id@ && ids[k] == rs[k].id@);
            assert(rs[j].id@ != rs[k].id@);
        }
        lemma_not_seen_before(ids, k);
        assert(check_resource(rs, k) is Ok);
    }
    lemma_first_error_all_ok(resource_checks(rs), rs.len() as int);
    assert forall|i: int| 0 <= i < p.rules@.len() implies #[trigger] rule_checks(p, ca_max)(i)
        == Some(Ok::<(), PolicyFault>(())) by {
        assert(rule_well_formed(p, ca_max, i));
        assert forall|j: int| 0 <= j < i implies #[trigger] p.rules@[j].name@
            != p.rules@[i].name@ by {
            assert(p.rules@[j].name@ != p.rules@[i].name@);
        }
        lemma_well_formed_rule_accepted(p, ca_max, i);
    }
    lemma_first_failure_all_ok(rule_checks(p, ca_max), p.rules@.len() as int);
}

// ---------------------------------------------------------------------------
// Plans
// ---------------------------------------------------------------------------

/// Law: a plan is for the resource the request names. Its host and trusted
/// CA key path are those of the first resource whose id is the request's
/// resource.
pub proof fn law_plan_uses_requested_resource(
    p: PolicyFile,
    request: Request,
    decision: DecisionModel,
    created_at_unix: u64,
)
    requires
        spec_build_plan(p, request, decision, created_at_unix) is Ok,
    ensures
        exists|j: int|
            0 <= j < p.resources@.len() && #[trigger] p.resources@[j].id@ == request.resource@
                && spec_build_plan(p, request, decision, created_at_unix)->Ok_0.host
                == p.resources@[j].host@ && spec_build_plan(
                p,
                request,
                decision,
                created_at_unix,
            )->Ok_0.trusted_ca_path == p.resources@[j].trusted_ca_path@ && forall|j2: int|
                0 <= j2 < j ==> #[trigger] p.resources@[j2].id@ != request.resource@,
{
    let xs = ids_of_resources(p.resources@);
    lemma_first_index_found(xs, request.resource@, xs.len() as int);
    let j = first_index(xs, request.resource@)->Some_0;
    assert(xs[j] == p.resources@[j].id@);
    assert forall|j2: int| 0 <= j2 < j implies #[trigger] p.resources@[j2].id@
        != request.resource@ by {
        assert(xs.take(j)[j2] == xs[j2]);
        assert(xs[j2] == p.resources@[j2].id@);
    }
}

// ---------------------------------------------------------------------------
// Atoms
// ---------------------------------------------------------------------------

/// Law: an atom may be any 1 to 64 bytes of lower-case ASCII letters
/// (`a`..=`z`, bytes 97..=122), digits (48..=57), `.` (46), `_` (95),
/// `:` (58), `/` (47) and `-` (45); `validate_atom` accepts every such
/// text.
pub proof fn law_atom_alphabet_is_accepted(value: Seq<char>)
    requires
        1 <= encode_utf8(value).len() <= 64,
        forall|i: int|
            0 <= i < encode_utf8(value).len() ==> {
                let b = #[trigger] encode_utf8(value)[i];
                (97 <= b && b <= 122) || (48 <= b && b <= 57) || b == 46 || b == 95 || b == 58
                    || b == 47 || b == 45
            },
    ensures
        spec_validate_atom(value) == Ok::<(), PolicyFault>(()),
{
    let b = encode_utf8(value);
    assert forall|i: int| 0 <= i < b.len() implies crate::policy::atom_byte_allowed(
        #[trigger] b[i],
    ) by {
        assert((97 <= b[i] && b[i] <= 122) || (48 <= b[i] && b[i] <= 57) || b[i] == 46 || b[i]
            == 95 || b[i] == 58 || b[i] == 47 || b[i] == 45);
    }
    assert(is_atom(value));
    lemma_validate_atom_accepts_atoms(value);
}

/// Law: a text holding any byte outside that alphabet is refused.
pub proof fn law_other_bytes_are_refused(value: Seq<char>, i: int)
    requires
        0 <= i < encode_utf8(value).len(),
        ({
            let b = encode_utf8(value)[i];
            !((97 <= b && b <= 122) || (48 <= b && b <= 57) || b == 46 || b == 95 || b == 58
                || b == 47 || b == 45)
        }),
    ensures
        spec_validate_atom(value) is Err,
{
    lemma_validate_atom_accepts_atoms(value);
    assert(!crate::policy::atom_byte_allowed(encode_utf8(value)[i]));
}

// ---------------------------------------------------------------------------
// Sanitized names
// ---------------------------------------------------------------------------

/// `c` is one of the characters a sanitized name may not hold.
pub open spec fn is_separator(c: char) -> bool {
    c == ':' || c == '/' || c == '.'
}

/// Law: sanitizing replaces each `:`, `/` and `.` by `-` and keeps every
/// other character where it was.
pub proof fn law_sanitize_replaces_only_separators(s: Seq<char>)
    ensures
        spec_sanitize(s).len() == s.len(),
        forall|i: int|
            0 <= i < s.len() ==> if s[i] == ':' || s[i] == '/' || s[i] == '.' {
                #[trigger] spec_sanitize(s)[i] == '-'
            } else {
                spec_sanitize(s)[i] == s[i]
            },
{
    assert forall|i: int| 0 <= i < s.len() implies if s[i] == ':' || s[i] == '/' || s[i] == '.' {
        #[trigger] spec_sanitize(s)[i] == '-'
    } else {
        spec_sanitize(s)[i] == s[i]
    } by {
        assert(spec_sanitize(s)[i] == sanitize_char(s[i]));
    }
}

/// Law: on names without `:`, `/` or `.`, sanitizing is one to one.
pub proof fn law_sanitize_injective_without_separators(a: Seq<char>, b: Seq<char>)
    requires
        forall|i: int| 0 <= i < a.len() ==> !is_separator(#[trigger] a[i]),
        forall|i: int| 0 <= i < b.len() ==> !is_separator(#[trigger] b[i]),
        spec_sanitize(a) == spec_sanitize(b),
    ensures
        a == b,
{
    law_sanitize_replaces_only_separators(a);
    law_sanitize_replaces_only_separators(b);
    assert forall|i: int| 0 <= i < a.len() implies a[i] == b[i] by {
        assert(!is_separator(a[i]) && !is_separator(b[i]));
        assert(spec_sanitize(a)[i] == a[i]);
        assert(spec_sanitize(b)[i] == b[i]);
    }
    assert(a =~= b);
}

/// Law: for one request, two different SSH principals without `:`, `/` or
/// `.` get different plan ids (so different plan files).
pub proof fn law_distinct_ssh_principals_get_distinct_plan_ids(
    request: Request,
    a: Seq<char>,
    b: Seq<char>,
)
    requires
        forall|i: int| 0 <= i < a.len() ==> !is_separator(#[trigger] a[i]),
        forall|i: int| 0 <= i < b.len() ==> !is_separator(#[trigger] b[i]),
        a != b,
    ensures
        spec_safe_name(request) + "-"@ + spec_sanitize(a) != spec_safe_name(request) + "-"@
            + spec_sanitize(b),
{
    let pre = spec_safe_name(request) + "-"@;
    if pre + spec_sanitize(a) == pre + spec_sanitize(b) {
        assert((pre + spec_sanitize(a)).subrange(pre.len() as int, (pre + spec_sanitize(a)).len() as int) =~= spec_sanitize(a));
        assert((pre + spec_sanitize(b)).subrange(pre.len() as int, (pre + spec_sanitize(b)).len() as int) =~= spec_sanitize(b));
        law_sanitize_injective_without_separators(a, b);
    }
}

// ---------------------------------------------------------------------------
// What each answer of evaluation means
// ---------------------------------------------------------------------------

/// Law: which rules apply. A rule with its three selectors applies to a
/// request exactly when each selector is `any` or names the request's
/// principal, action and resource, and the rule names no SSH principal or
/// the one the request names.
pub proof fn law_rule_applies_when_selectors_admit(rule: crate::policy::RuleConfig, request: Request)
    requires
        rule.principal is Some,
        rule.action is Some,
        rule.resource is Some,
    ensures
        rule_match_outcome(rule, request) == Some(
            (rule.principal->Some_0@ == "any"@ || rule.principal->Some_0@ == request.principal@)
                && (rule.action->Some_0@ == "any"@ || rule.action->Some_0@ == request.action@)
                && (rule.resource->Some_0@ == "any"@ || rule.resource->Some_0@
                == request.resource@) && match rule.ssh_principal {
                Some(s) => request.ssh_principal matches Some(t) && t@ == s@,
                None => true,
            },
        ),
{
    reveal_strlit("any");
    assert(ANY@ == "any"@);
}

/// Deny rule `i` applies to the request and is named `rule`.
pub open spec fn deny_justified(p: PolicyFile, request: Request, i: int, rule: Seq<char>) -> bool {
    &&& 0 <= i < p.rules@.len()
    &&& p.rules@[i].effect == Effect::Deny
    &&& rule_match_outcome(p.rules@[i], request) == Some(true)
    &&& p.rules@[i].name@ == rule
}

proof fn lemma_deny_scan_found(p: PolicyFile, request: Request, n: int)
    requires
        0 <= n <= p.rules@.len(),
    ensures
        deny_scan(p.rules@, request, n) matches Some(Some(i)) ==> deny_justified(
            p,
            request,
            i,
            p.rules@[i].name@,
        ),
    decreases n,
{
    if n > 0 {
        lemma_deny_scan_found(p, request, n - 1);
    }
}

proof fn lemma_allow_scan_done(p: PolicyFile, request: Request, ca_max: u64, n: int)
    requires
        0 <= n <= p.rules@.len(),
    ensures
        allow_scan(p, request, ca_max, n) matches ScanState::Done(Ok(d)) ==> d is Deny && exists|
            i: int,
        | #[trigger] deny_justified(p, request, i, d->Deny_rule),
        allow_scan(p, request, ca_max, n) matches ScanState::Done(
            Err(EvalFault::TtlTooLong { max_seconds }),
        ) ==> request.requested_ttl_seconds > max_seconds,
        allow_scan(p, request, ca_max, n) matches ScanState::Done(Err(e)) ==> !(
        e is SshPrincipalNotAllowed),
    decreases n,
{
    if n > 0 {
        lemma_allow_scan_done(p, request, ca_max, n - 1);
        let prev = allow_scan(p, request, ca_max, n - 1);
        let rule = p.rules@[n - 1];
        let cur = allow_scan(p, request, ca_max, n);
        assert(cur == allow_step(p, request, ca_max, prev, rule));
        if prev is Going {
            if let ScanState::Done(Ok(d)) = cur {
                assert(deny_justified(p, request, n - 1, d->Deny_rule));
            }
        } else {
            assert(cur == prev);
        }
    }
}

/// Law: a deny is justified: the deny rule it names applies to the request.
pub proof fn law_deny_is_justified(p: PolicyFile, request: Request)
    requires
        spec_evaluate(p, request) matches Some(Ok(DecisionModel::Deny { .. })),
    ensures
        exists|i: int| #[trigger] deny_justified(
            p,
            request,
            i,
            spec_evaluate(p, request)->Some_0->Ok_0->Deny_rule,
        ),
{
    let ca_max = spec_parse_duration(p.ca.max_ttl@)->Some_0->Ok_0;
    lemma_deny_scan_found(p, request, p.rules@.len() as int);
    lemma_allow_scan_done(p, request, ca_max, p.rules@.len() as int);
    let d = spec_evaluate(p, request)->Some_0->Ok_0;
    match deny_scan(p.rules@, request, p.rules@.len() as int) {
        Some(Some(i)) => {
            assert(d->Deny_rule == p.rules@[i].name@);
            assert(deny_justified(p, request, i, d->Deny_rule));
        },
        _ => {
            lemma_allow_scan_justified(p, request, ca_max, p.rules@.len() as int);
            let st = allow_scan(p, request, ca_max, p.rules@.len() as int);
            assert(st == ScanState::Done(Ok::<DecisionModel, EvalFault>(d)));
        },
    }
}

/// Law: a request is refused for its lifetime only when it asks for more
/// than the maximum the refusal names.
pub proof fn law_ttl_refusal_names_a_smaller_maximum(p: PolicyFile, request: Request)
    requires
        spec_evaluate(p, request) matches Some(Err(EvalFault::TtlTooLong { .. })),
    ensures
        request.requested_ttl_seconds > spec_evaluate(
            p,
            request,
        )->Some_0->Err_0->TtlTooLong_max_seconds,
{
    let ca_max = spec_parse_duration(p.ca.max_ttl@)->Some_0->Ok_0;
    lemma_allow_scan_done(p, request, ca_max, p.rules@.len() as int);
}

/// The first principal the policy declares with the request's id is the
/// one at position `k`.
pub open spec fn first_declared(p: PolicyFile, request: Request, k: int) -> bool {
    &&& 0 <= k < p.principals@.len()
    &&& p.principals@[k].id@ == request.principal@
    &&& forall|k2: int| 0 <= k2 < k ==> #[trigger] p.principals@[k2].id@ != request.principal@
}

proof fn lemma_found_principal(p: PolicyFile, request: Request)
    ensures
        first_index(ids_of_principals(p.principals@), request.principal@) matches Some(k)
            ==> first_declared(p, request, k),
{
    let xs = ids_of_principals(p.principals@);
    lemma_first_index_found(xs, request.principal@, xs.len() as int);
    if let Some(k) = first_index(xs, request.principal@) {
        assert(xs[k] == p.principals@[k].id@);
        assert forall|k2: int| 0 <= k2 < k implies #[trigger] p.principals@[k2].id@
            != request.principal@ by {
            assert(xs.take(k)[k2] == xs[k2]);
            assert(xs[k2] == p.principals@[k2].id@);
        }
    }
}

/// Law: an SSH principal is refused only when the request names one that
/// its principal (the first declared with that id) does not list, and the
/// refusal names both.
pub proof fn law_ssh_principal_refusal_is_justified(p: PolicyFile, request: Request)
    requires
        spec_evaluate(p, request) matches Some(Err(EvalFault::SshPrincipalNotAllowed { .. })),
    ensures
        ({
            let e = spec_evaluate(p, request)->Some_0->Err_0;
            &&& e->SshPrincipalNotAllowed_principal == request.principal@
            &&& request.ssh_principal matches Some(s)
            &&& s@ == e->SshPrincipalNotAllowed_ssh_principal
            &&& exists|k: int|
                #[trigger] first_declared(p, request, k) && forall|m: int|
                    0 <= m < p.principals@[k].ssh_principals@.len()
                        ==> #[trigger] p.principals@[k].ssh_principals@[m]@ != s@
        }),
{
    let ca_max = spec_parse_duration(p.ca.max_ttl@)->Some_0->Ok_0;
    lemma_found_principal(p, request);
    lemma_allow_scan_done(p, request, ca_max, p.rules@.len() as int);
    let k = first_index(ids_of_principals(p.principals@), request.principal@)->Some_0;
    let s = request.ssh_principal->Some_0;
    let pc = p.principals@[k];
    assert(crate::evaluator::ssh_principal_rejected(pc, request));
    assert forall|m: int| 0 <= m < pc.ssh_principals@.len() implies #[trigger] pc.ssh_principals@[m]@
        != s@ by {
        assert(ssh_principal_views(pc)[m] == pc.ssh_principals@[m]@);
    }
    assert(first_declared(p, request, k));
}

/// Law: when a granted request names an SSH principal, its principal (the
/// first declared with that id) lists it.
pub proof fn law_granted_ssh_principal_is_listed(p: PolicyFile, request: Request)
    requires
        spec_evaluate(p, request) matches Some(Ok(DecisionModel::Allow { .. })),
        request.ssh_principal is Some,
    ensures
        exists|k: int|
            #[trigger] first_declared(p, request, k) && exists|m: int|
                0 <= m < p.principals@[k].ssh_principals@.len()
                    && #[trigger] p.principals@[k].ssh_principals@[m]@
                    == request.ssh_principal->Some_0@,
{
    lemma_found_principal(p, request);
    let k = first_index(ids_of_principals(p.principals@), request.principal@)->Some_0;
    let pc = p.principals@[k];
    let s = request.ssh_principal->Some_0@;
    assert(ssh_principal_views(pc).contains(s));
    let m = choose|m: int| 0 <= m < ssh_principal_views(pc).len() && ssh_principal_views(pc)[m] == s;
    assert(pc.ssh_principals@[m]@ == s);
    assert(first_declared(p, request, k));
}

// ---------------------------------------------------------------------------
// Durations
// ---------------------------------------------------------------------------

/// Every byte of `d` is an ASCII decimal digit (`0`..=`9`, bytes 48..=57).
pub open spec fn all_ascii_digits(d: Seq<u8>) -> bool {
    forall|i: int| 0 <= i < d.len() ==> 48 <= #[trigger] d[i] && d[i] <= 57
}

proof fn lemma_ascii_last_is_boundary(v: Seq<char>)
    requires
        encode_utf8(v).len() >= 1,
        encode_utf8(v).last() < 128,
    ensures
        is_char_boundary(encode_utf8(v), encode_utf8(v).len() - 1),
{
    encode_utf8_valid_utf8(v);
    is_char_boundary_iff_not_is_continuation_byte(encode_utf8(v), encode_utf8(v).len() - 1);
}

/// Law: the units of a duration. For one number `d`, `d` minutes is 60
/// times `d` seconds and `d` hours is 3600 times `d` seconds; where that
/// many seconds do not fit in a `u64`, the duration cannot be computed.
pub proof fn law_duration_units(d: Seq<u8>, secs: Seq<char>, mins: Seq<char>, hours: Seq<char>)
    requires
        d.len() >= 1,
        all_ascii_digits(d),
        encode_utf8(secs) == d.push(115),
        encode_utf8(mins) == d.push(109),
        encode_utf8(hours) == d.push(104),
        spec_parse_duration(secs) matches Some(Ok(_)),
    ensures
        ({
            let n = spec_parse_duration(secs)->Some_0->Ok_0;
            &&& n * 60 <= u64::MAX ==> spec_parse_duration(mins) == Some(
                Ok::<u64, PolicyFault>((n * 60) as u64),
            )
            &&& n * 60 > u64::MAX ==> spec_parse_duration(mins) is None
            &&& n * 3600 <= u64::MAX ==> spec_parse_duration(hours) == Some(
                Ok::<u64, PolicyFault>((n * 3600) as u64),
            )
            &&& n * 3600 > u64::MAX ==> spec_parse_duration(hours) is None
        }),
{
    lemma_ascii_last_is_boundary(secs);
    lemma_ascii_last_is_boundary(mins);
    lemma_ascii_last_is_boundary(hours);
    assert(d.push(115).take(d.len() as int) =~= d);
    assert(d.push(109).take(d.len() as int) =~= d);
    assert(d.push(104).take(d.len() as int) =~= d);
}

/// Law: a duration's number is read in decimal. Appending a digit `c` to
/// the number `d` of a duration in seconds gives ten times its value plus
/// `c`.
pub proof fn law_duration_is_decimal(d: Seq<u8>, c: u8, shorter: Seq<char>, longer: Seq<char>)
    requires
        d.len() >= 1,
        all_ascii_digits(d),
        48 <= c <= 57,
        encode_utf8(shorter) == d.push(115),
        encode_utf8(longer) == d.push(c).push(115),
        spec_parse_duration(shorter) matches Some(Ok(_)),
        spec_parse_duration(shorter)->Some_0->Ok_0 * 10 + (c - 48) <= u64::MAX,
    ensures
        spec_parse_duration(longer) == Some(
            Ok::<u64, PolicyFault>(
                (spec_parse_duration(shorter)->Some_0->Ok_0 * 10 + (c - 48)) as u64,
            ),
        ),
{
    lemma_ascii_last_is_boundary(shorter);
    lemma_ascii_last_is_boundary(longer);
    let e = d.push(c);
    assert(d.push(115).take(d.len() as int) =~= d);
    assert(e.push(115).take(e.len() as int) =~= e);
    assert(e.drop_last() =~= d);
    assert(all_ascii_digits(e));
}

/// Law: a one-digit number of seconds is that digit's value.
pub proof fn law_one_digit_duration(c: u8, v: Seq<char>)
    requires
        48 <= c <= 57,
        encode_utf8(v) == seq![c, 115u8],
    ensures
        spec_parse_duration(v) == Some(Ok::<u64, PolicyFault>((c - 48) as u64)),
{
    lemma_ascii_last_is_boundary(v);
    let d = seq![c];
    assert(seq![c, 115u8].take(1) =~= d);
    assert(d.drop_last() =~= Seq::<u8>::empty());
    assert(crate::policy::decimal_value(Seq::<u8>::empty()) == 0);
    assert(crate::policy::decimal_value(d) == c - 48);
    assert(crate::policy::unsigned_digits(d) == d);
}

/// Law: a duration whose last character is an ASCII byte other than `s`,
/// `m` or `h` is refused (when at least two bytes long).
pub proof fn law_unknown_unit_is_refused(v: Seq<char>)
    requires
        encode_utf8(v).len() >= 2,
        encode_utf8(v).last() < 128,
        encode_utf8(v).last() != 115,
        encode_utf8(v).last() != 109,
        encode_utf8(v).last() != 104,
    ensures
        spec_parse_duration(v) == Some(Err::<u64, PolicyFault>(PolicyFault::InvalidDuration(v))),
{
    lemma_ascii_last_is_boundary(v);
}

// ---------------------------------------------------------------------------
// Plans: the SSH principal
// ---------------------------------------------------------------------------

/// Law: a plan is for the SSH principal the request names, or else for the
/// first one its principal (the first declared with that id) lists.
pub proof fn law_plan_ssh_principal(
    p: PolicyFile,
    request: Request,
    decision: DecisionModel,
    created_at_unix: u64,
)
    requires
        spec_build_plan(p, request, decision, created_at_unix) is Ok,
    ensures
        ({
            let plan = spec_build_plan(p, request, decision, created_at_unix)->Ok_0;
            match request.ssh_principal {
                Some(s) => plan.ssh_principal == s@,
                None => exists|k: int|
                    #[trigger] first_declared(p, request, k) && p.principals@[k].ssh_principals@.len()
                        > 0 && plan.ssh_principal == p.principals@[k].ssh_principals@[0]@,
            }
        }),
{
    lemma_found_principal(p, request);
    if request.ssh_principal is None {
        let k = first_index(ids_of_principals(p.principals@), request.principal@)->Some_0;
        assert(first_declared(p, request, k));
    }
}

// ---------------------------------------------------------------------------
// When nothing denies
// ---------------------------------------------------------------------------

/// Rule `i` is an allow rule that applies to the request.
pub open spec fn allow_applies(p: PolicyFile, request: Request, i: int) -> bool {
    &&& 0 <= i < p.rules@.len()
    &&& p.rules@[i].effect == Effect::Allow
    &&& rule_match_outcome(p.rules@[i], request) == Some(true)
}

proof fn lemma_deny_scan_none(p: PolicyFile, request: Request, n: int)
    requires
        0 <= n <= p.rules@.len(),
        rules_complete(p),
        forall|i: int|
            0 <= i < p.rules@.len() && #[trigger] p.rules@[i].effect == Effect::Deny
                ==> rule_match_outcome(p.rules@[i], request) == Some(false),
    ensures
        deny_scan(p.rules@, request, n) == Some(None::<int>),
    decreases n,
{
    if n > 0 {
        lemma_deny_scan_none(p, request, n - 1);
        assert(p.rules@[n - 1].effect == Effect::Deny || p.rules@[n - 1].effect == Effect::Allow);
    }
}

proof fn lemma_allow_scan_going(p: PolicyFile, request: Request, ca_max: u64, n: int)
    requires
        0 <= n <= p.rules@.len(),
        rules_complete(p),
        request.requested_ttl_seconds <= ca_max,
        forall|i: int|
            0 <= i < p.rules@.len() && #[trigger] p.rules@[i].effect == Effect::Deny
                ==> rule_match_outcome(p.rules@[i], request) == Some(false),
        forall|i: int|
            #[trigger] allow_applies(p, request, i) ==> (rule_ttl(p, p.rules@[i]) matches Some(
                Ok(t),
            ) && request.requested_ttl_seconds <= t),
    ensures
        allow_scan(p, request, ca_max, n) is Going,
        (exists|i: int| 0 <= i < n && #[trigger] allow_applies(p, request, i)) ==> allow_scan(
            p,
            request,
            ca_max,
            n,
        ) matches ScanState::Going(Some(_)),
        !(exists|i: int| 0 <= i < n && #[trigger] allow_applies(p, request, i)) ==> allow_scan(
            p,
            request,
            ca_max,
            n,
        ) == ScanState::Going(None),
    decreases n,
{
    if n > 0 {
        lemma_allow_scan_going(p, request, ca_max, n - 1);
        let rule = p.rules@[n - 1];
        assert(rule.principal is Some && rule.action is Some && rule.resource is Some);
        assert(rule.effect == Effect::Deny || rule.effect == Effect::Allow);
        if rule.effect == Effect::Allow && rule_match_outcome(rule, request) == Some(true) {
            assert(allow_applies(p, request, n - 1));
        }
        if exists|i: int| 0 <= i < n && #[trigger] allow_applies(p, request, i) {
            if !allow_applies(p, request, n - 1) {
                let i = choose|i: int| 0 <= i < n && #[trigger] allow_applies(p, request, i);
                assert(i < n - 1);
            }
        } else {
            assert forall|i: int| 0 <= i < n - 1 implies !#[trigger] allow_applies(p, request, i) by {
            }
        }
    }
}

proof fn lemma_declared_and_listed(p: PolicyFile, request: Request)
    requires
        exists|k: int| #[trigger] first_declared(p, request, k),
        forall|k: int|
            #[trigger] first_declared(p, request, k) ==> (request.ssh_principal matches Some(s)
                ==> exists|m: int|
                0 <= m < p.principals@[k].ssh_principals@.len()
                    && #[trigger] p.principals@[k].ssh_principals@[m]@ == s@),
    ensures
        first_index(ids_of_principals(p.principals@), request.principal@) matches Some(k)
            && !crate::evaluator::ssh_principal_rejected(p.principals@[k], request),
{
    let w = choose|k: int| #[trigger] first_declared(p, request, k);
    let xs = ids_of_principals(p.principals@);
    lemma_first_index_found(xs, request.principal@, xs.len() as int);
    assert(xs[w] == request.principal@);
    assert(xs.take(xs.len() as int) =~= xs);
    assert(xs.take(xs.len() as int)[w] == request.principal@);
    assert(first_index(xs, request.principal@) is Some);
    lemma_found_principal(p, request);
    let k = first_index(xs, request.principal@)->Some_0;
    assert(first_declared(p, request, k));
    if let Some(s) = request.ssh_principal {
        let m = choose|m: int|
            0 <= m < p.principals@[k].ssh_principals@.len()
                && #[trigger] p.principals@[k].ssh_principals@[m]@ == s@;
        assert(ssh_principal_views(p.principals@[k])[m] == s@);
    }
}

proof fn lemma_evaluate_after_checks(p: PolicyFile, request: Request)
    requires
        spec_parse_duration(p.ca.max_ttl@) matches Some(Ok(m)) && request.requested_ttl_seconds
            <= m,
        deny_scan(p.rules@, request, p.rules@.len() as int) == Some(None::<int>),
        first_index(ids_of_principals(p.principals@), request.principal@) matches Some(k)
            && !crate::evaluator::ssh_principal_rejected(p.principals@[k], request),
    ensures
        spec_evaluate(p, request) == match allow_scan(
            p,
            request,
            spec_parse_duration(p.ca.max_ttl@)->Some_0->Ok_0,
            p.rules@.len() as int,
        ) {
            ScanState::Stuck => None,
            ScanState::Done(x) => Some(x),
            ScanState::Going(Some(d)) => Some(Ok(d)),
            ScanState::Going(None) => Some(Ok(DecisionModel::NoMatch)),
        },
{
}

/// The core of [`law_decision_when_nothing_denies`], for a policy whose
/// rules are complete. Against a policy that
/// `validate` accepts, a request within the CA's maximum lifetime, from a
/// declared principal that lists the requested SSH principal (if any), to
/// which no deny rule applies and whose lifetime fits every allow rule that
/// applies, is granted when some allow rule applies and otherwise matches
/// nothing.
proof fn lemma_decision_when_nothing_denies(p: PolicyFile, request: Request)
    requires
        rules_complete(p),
        spec_parse_duration(p.ca.max_ttl@) matches Some(Ok(m)) && request.requested_ttl_seconds
            <= m,
        forall|i: int|
            0 <= i < p.rules@.len() && #[trigger] p.rules@[i].effect == Effect::Deny
                ==> rule_match_outcome(p.rules@[i], request) == Some(false),
        forall|i: int|
            #[trigger] allow_applies(p, request, i) ==> (rule_ttl(p, p.rules@[i]) matches Some(
                Ok(t),
            ) && request.requested_ttl_seconds <= t),
        exists|k: int| #[trigger] first_declared(p, request, k),
        forall|k: int|
            #[trigger] first_declared(p, request, k) ==> (request.ssh_principal matches Some(s)
                ==> exists|m: int|
                0 <= m < p.principals@[k].ssh_principals@.len()
                    && #[trigger] p.principals@[k].ssh_principals@[m]@ == s@),
    ensures
        (exists|i: int| #[trigger] allow_applies(p, request, i)) ==> spec_evaluate(
            p,
            request,
        ) matches Some(Ok(DecisionModel::Allow { .. })),
        !(exists|i: int| #[trigger] allow_applies(p, request, i)) ==> spec_evaluate(p, request)
            == Some(Ok::<DecisionModel, EvalFault>(DecisionModel::NoMatch)),
{
    let ca_max = spec_parse_duration(p.ca.max_ttl@)->Some_0->Ok_0;
    let n = p.rules@.len() as int;
    lemma_deny_scan_none(p, request, n);
    lemma_allow_scan_going(p, request, ca_max, n);
    lemma_declared_and_listed(p, request);
    lemma_evaluate_after_checks(p, request);
    if exists|i: int| #[trigger] allow_applies(p, request, i) {
        let i = choose|i: int| #[trigger] allow_applies(p, request, i);
        assert(0 <= i < n && allow_applies(p, request, i));
        lemma_allow_scan_justified(p, request, ca_max, n);
    }
}

/// Law: when nothing denies, the allow rules decide. Against a policy that
/// `validate` accepts, a request within the CA's maximum lifetime, from a
/// declared principal that lists the requested SSH principal (if any), to
/// which no deny rule applies and whose lifetime fits every allow rule that
/// applies, is granted when some allow rule applies and otherwise matches
/// nothing.
pub proof fn law_decision_when_nothing_denies(p: PolicyFile, request: Request)
    requires
        spec_validate(p) == Some(Ok::<(), PolicyFault>(())),
        spec_parse_duration(p.ca.max_ttl@) matches Some(Ok(m)) && request.requested_ttl_seconds
            <= m,
        forall|i: int|
            0 <= i < p.rules@.len() && #[trigger] p.rules@[i].effect == Effect::Deny
                ==> rule_match_outcome(p.rules@[i], request) == Some(false),
        forall|i: int|
            #[trigger] allow_applies(p, request, i) ==> (rule_ttl(p, p.rules@[i]) matches Some(
                Ok(t),
            ) && request.requested_ttl_seconds <= t),
        exists|k: int| #[trigger] first_declared(p, request, k),
        forall|k: int|
            #[trigger] first_declared(p, request, k) ==> (request.ssh_principal matches Some(s)
                ==> exists|m: int|
                0 <= m < p.principals@[k].ssh_principals@.len()
                    && #[trigger] p.principals@[k].ssh_principals@[m]@ == s@),
    ensures
        (exists|i: int| #[trigger] allow_applies(p, request, i)) ==> spec_evaluate(
            p,
            request,
        ) matches Some(Ok(DecisionModel::Allow { .. })),
        !(exists|i: int| #[trigger] allow_applies(p, request, i)) ==> spec_evaluate(p, request)
            == Some(Ok::<DecisionModel, EvalFault>(DecisionModel::NoMatch)),
{
    lemma_validated_rules_complete(p);
    lemma_decision_when_nothing_denies(p, request);
}

// ---------------------------------------------------------------------------
// Decimal rendering
// ---------------------------------------------------------------------------

/// The bytes of an ASCII character sequence.
pub open spec fn ascii_bytes(cs: Seq<char>) -> Seq<u8> {
    cs.map_values(|c: char| c as u8)
}

proof fn lemma_digit_char_byte(d: nat)
    requires
        d < 10,
    ensures
        digit_char(d) as u8 == 48 + d,
{
}

proof fn lemma_decimal_reads_back(n: nat)
    ensures
        ascii_bytes(decimal_chars(n)).len() >= 1,
        all_ascii_digits(ascii_bytes(decimal_chars(n))),
        crate::policy::decimal_value(ascii_bytes(decimal_chars(n))) == n,
        ascii_bytes(decimal_chars(n))[0] != 43,
    decreases n,
{
    let b = ascii_bytes(decimal_chars(n));
    if n < 10 {
        lemma_digit_char_byte(n);
        assert(b =~= seq![(48 + n) as u8]);
        assert(b.drop_last() =~= Seq::<u8>::empty());
        assert(crate::policy::decimal_value(Seq::<u8>::empty()) == 0);
    } else {
        lemma_decimal_reads_back(n / 10);
        lemma_digit_char_byte(n % 10);
        let a = ascii_bytes(decimal_chars(n / 10));
        assert(b =~= a.push((48 + n % 10) as u8));
        assert(b.drop_last() =~= a);
        assert(b[0] == a[0]);
    }
}

/// Law: the decimal text of a number reads back as that number: it is a
/// non-empty run of ASCII digits that `u64`'s `FromStr` reads as `n`. So the
/// lifetimes shown in summaries and issue commands are the granted ones.
pub proof fn law_decimal_rendering_reads_back(n: u64)
    ensures
        ascii_bytes(decimal_chars(n as nat)).len() >= 1,
        all_ascii_digits(ascii_bytes(decimal_chars(n as nat))),
        crate::policy::spec_parse_u64(ascii_bytes(decimal_chars(n as nat))) == Some(n),
{
    lemma_decimal_reads_back(n as nat);
    let b = ascii_bytes(decimal_chars(n as nat));
    assert(crate::policy::unsigned_digits(b) == b);
    assert forall|i: int| 0 <= i < b.len() implies crate::policy::is_digit(#[trigger] b[i]) by {
        assert(48 <= b[i] && b[i] <= 57);
    }
}

/// Law: no request for more than the CA's maximum lifetime is granted or
/// denied: it is refused for its lifetime, naming that maximum.
pub proof fn law_ca_maximum_is_checked_first(p: PolicyFile, request: Request)
    requires
        spec_parse_duration(p.ca.max_ttl@) matches Some(Ok(m)) && request.requested_ttl_seconds
            > m,
    ensures
        spec_evaluate(p, request) == Some(
            Err::<DecisionModel, EvalFault>(
                EvalFault::TtlTooLong {
                    max_seconds: spec_parse_duration(p.ca.max_ttl@)->Some_0->Ok_0,
                },
            ),
        ),
{
}

proof fn lemma_allow_scan_first(p: PolicyFile, request: Request, ca_max: u64, n: int)
    requires
        0 <= n <= p.rules@.len(),
    ensures
        allow_scan(p, request, ca_max, n) == ScanState::Going(None) ==> forall|j: int|
            0 <= j < n ==> !#[trigger] allow_applies(p, request, j),
        allow_scan(p, request, ca_max, n) matches ScanState::Going(Some(d)) ==> exists|i: int|
            0 <= i < n && #[trigger] allow_applies(p, request, i) && p.rules@[i].name@
                == d->Allow_rule && (forall|j: int|
                0 <= j < i ==> !#[trigger] allow_applies(p, request, j)) && (rule_ttl(
                p,
                p.rules@[i],
            ) matches Some(Ok(t)) && d->Allow_ttl_seconds <= t),
    decreases n,
{
    if n > 0 {
        lemma_allow_scan_first(p, request, ca_max, n - 1);
        let prev = allow_scan(p, request, ca_max, n - 1);
        let rule = p.rules@[n - 1];
        let cur = allow_scan(p, request, ca_max, n);
        assert(cur == allow_step(p, request, ca_max, prev, rule));
        if prev == ScanState::Going(None) {
            if allow_applies(p, request, n - 1) {
                if let ScanState::Going(Some(d)) = cur {
                    assert(p.rules@[n - 1].name@ == d->Allow_rule);
                    assert(0 <= n - 1 < n && allow_applies(p, request, n - 1));
                    let t = rule_ttl(p, rule)->Some_0->Ok_0;
                    assert(d->Allow_ttl_seconds == min3(request.requested_ttl_seconds, t, ca_max));
                    assert(d->Allow_ttl_seconds <= t);
                }
            } else {
                if cur == ScanState::Going(None) {
                    assert forall|j: int| 0 <= j < n implies !#[trigger] allow_applies(
                        p,
                        request,
                        j,
                    ) by {
                        if j < n - 1 {
                        }
                    }
                }
                if let ScanState::Going(Some(d)) = cur {
                    assert(rule.effect == Effect::Allow || rule.effect == Effect::Deny);
                    assert(false);
                }
            }
        } else if let ScanState::Going(Some(d)) = cur {
            assert(prev == cur);
            let i = choose|i: int|
                0 <= i < n - 1 && #[trigger] allow_applies(p, request, i) && p.rules@[i].name@
                    == d->Allow_rule && (forall|j: int|
                    0 <= j < i ==> !#[trigger] allow_applies(p, request, j)) && (rule_ttl(
                    p,
                    p.rules@[i],
                ) matches Some(Ok(t)) && d->Allow_ttl_seconds <= t);
            assert(0 <= i < n && allow_applies(p, request, i));
        } else {
            assert(cur != ScanState::Going(None::<DecisionModel>));
        }
    }
}

/// Law: the first allow rule that applies decides. A grant names an allow
/// rule that applies to the request and before which no allow rule
/// applies; its lifetime fits that rule's own `max_ttl`, or the CA's
/// default lifetime when the rule has none.
pub proof fn law_granting_rule_is_first_applicable(p: PolicyFile, request: Request)
    requires
        spec_evaluate(p, request) matches Some(Ok(DecisionModel::Allow { .. })),
    ensures
        exists|i: int|
            #[trigger] allow_applies(p, request, i) && p.rules@[i].name@ == spec_evaluate(
                p,
                request,
            )->Some_0->Ok_0->Allow_rule && (forall|j: int|
                0 <= j < i ==> !#[trigger] allow_applies(p, request, j)) && match p.rules@[i].max_ttl {
                Some(m) => spec_parse_duration(m@) matches Some(Ok(t)) && spec_evaluate(
                    p,
                    request,
                )->Some_0->Ok_0->Allow_ttl_seconds <= t,
                None => spec_parse_duration(p.ca.default_ttl@) matches Some(Ok(t)) && spec_evaluate(
                    p,
                    request,
                )->Some_0->Ok_0->Allow_ttl_seconds <= t,
            },
{
    let ca_max = spec_parse_duration(p.ca.max_ttl@)->Some_0->Ok_0;
    let n = p.rules@.len() as int;
    lemma_allow_scan_first(p, request, ca_max, n);
    lemma_allow_scan_done(p, request, ca_max, n);
    let d = spec_evaluate(p, request)->Some_0->Ok_0;
    let i = choose|i: int|
        0 <= i < n && #[trigger] allow_applies(p, request, i) && p.rules@[i].name@ == d->Allow_rule
            && (forall|j: int| 0 <= j < i ==> !#[trigger] allow_applies(p, request, j)) && (rule_ttl(
            p,
            p.rules@[i],
        ) matches Some(Ok(t)) && d->Allow_ttl_seconds <= t);
    assert(allow_applies(p, request, i));
}

/// Law: an atom holds 1 to 64 bytes; longer or empty texts are refused.
pub proof fn law_atom_length_is_bounded(value: Seq<char>)
    requires
        encode_utf8(value).len() == 0 || encode_utf8(value).len() > 64,
    ensures
        spec_validate_atom(value) is Err,
{
}

/// Law: plans keep SSH principals apart. Two requests that differ only in
/// the SSH principal they name, both without `:`, `/` or `.`, get plans
/// with different ids, so the second plan file never overwrites the first.
pub proof fn law_plan_ids_distinguish_ssh_principals(
    p: PolicyFile,
    r1: Request,
    r2: Request,
    decision: DecisionModel,
    t1: u64,
    t2: u64,
)
    requires
        r1.principal@ == r2.principal@,
        r1.action@ == r2.action@,
        r1.resource@ == r2.resource@,
        r1.ssh_principal matches Some(a) && r2.ssh_principal matches Some(b) && a@ != b@,
        forall|i: int|
            0 <= i < r1.ssh_principal->Some_0@.len() ==> !is_separator(
                #[trigger] r1.ssh_principal->Some_0@[i],
            ),
        forall|i: int|
            0 <= i < r2.ssh_principal->Some_0@.len() ==> !is_separator(
                #[trigger] r2.ssh_principal->Some_0@[i],
            ),
        spec_build_plan(p, r1, decision, t1) is Ok,
        spec_build_plan(p, r2, decision, t2) is Ok,
    ensures
        spec_build_plan(p, r1, decision, t1)->Ok_0.plan_id != spec_build_plan(
            p,
            r2,
            decision,
            t2,
        )->Ok_0.plan_id,
{
    assert(spec_safe_name(r1) == spec_safe_name(r2));
    law_distinct_ssh_principals_get_distinct_plan_ids(
        r1,
        r1.ssh_principal->Some_0@,
        r2.ssh_principal->Some_0@,
    );
}

} // verus!
