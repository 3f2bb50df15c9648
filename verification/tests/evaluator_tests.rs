use accessc::evaluator::{evaluate, Decision, EvalError, Request};
use accessc::policy::{CaConfig, Effect, PolicyError, PolicyFile, PrincipalConfig, ResourceConfig, RuleConfig};

fn s(v: &str) -> String {
    v.to_string()
}

fn ca() -> CaConfig {
    CaConfig { name: s("accessc-demo-ca"), default_ttl: s("5m"), max_ttl: s("15m") }
}

fn principal(id: &str, ssh: &[&str]) -> PrincipalConfig {
    PrincipalConfig { id: s(id), ssh_principals: ssh.iter().map(|x| s(x)).collect() }
}

fn resource(id: &str, host: &str) -> ResourceConfig {
    ResourceConfig { id: s(id), host: s(host), trusted_ca_path: s("/etc/ssh/accessc_ca.pub") }
}

fn rule(
    name: &str,
    effect: Effect,
    principal: Option<&str>,
    action: Option<&str>,
    resource: Option<&str>,
) -> RuleConfig {
    RuleConfig {
        name: s(name),
        effect,
        principal: principal.map(s),
        action: action.map(s),
        resource: resource.map(s),
        ssh_principal: None,
        max_ttl: None,
    }
}

/// The example policy of the project's README.
fn example_policy() -> PolicyFile {
    let mut allow = rule(
        "allow-alice-prod",
        Effect::Allow,
        Some("user:alice"),
        Some("ssh"),
        Some("server:prod"),
    );
    allow.max_ttl = Some(s("5m"));
    let mut deny = rule("deny-prod-root", Effect::Deny, Some("any"), Some("ssh"), Some("server:prod"));
    deny.ssh_principal = Some(s("root"));
    PolicyFile {
        version: 1,
        ca: ca(),
        principals: vec![principal("user:alice", &["alice"])],
        resources: vec![resource("server:prod", "prod-01")],
        rules: vec![allow, deny],
    }
}

fn base_policy(rules: Vec<RuleConfig>) -> PolicyFile {
    PolicyFile {
        version: 1,
        ca: ca(),
        principals: vec![principal("user:alice", &["alice"])],
        resources: vec![resource("server:prod", "prod-01")],
        rules,
    }
}

fn policy() -> PolicyFile {
    example_policy()
}

#[test]
fn allows_alice_prod_ssh() {
    let request =
        Request::from_cli("user:alice", "ssh", "server:prod", Some("alice"), "5m").unwrap();
    let decision = evaluate(&policy(), &request).unwrap();
    assert!(decision.is_allow());
    assert_eq!(decision.rule_name(), Some("allow-alice-prod"));
    assert_eq!(decision.ttl_seconds(), Some(300));
}

#[test]
fn deny_overrides_allow_for_root() {
    let request =
        Request::from_cli("user:alice", "ssh", "server:prod", Some("root"), "5m").unwrap();
    let decision = evaluate(&policy(), &request).unwrap();
    assert!(matches!(decision, Decision::Deny { .. }));
    assert_eq!(decision.rule_name(), Some("deny-prod-root"));
}

#[test]
fn rejects_unlisted_ssh_principal() {
    let request =
        Request::from_cli("user:alice", "ssh", "server:prod", Some("bob"), "5m").unwrap();
    assert!(matches!(
        evaluate(&policy(), &request),
        Err(EvalError::SshPrincipalNotAllowed { .. })
    ));
}

#[test]
fn no_match_is_not_allow() {
    let request =
        Request::from_cli("user:alice", "ssh", "server:missing", Some("alice"), "5m").unwrap();
    let decision = evaluate(&policy(), &request).unwrap();
    assert!(matches!(decision, Decision::NoMatch));
    assert!(!decision.is_allow());
}

#[test]
fn requested_ttl_must_fit_rule() {
    let request =
        Request::from_cli("user:alice", "ssh", "server:prod", Some("alice"), "6m").unwrap();
    assert!(matches!(
        evaluate(&policy(), &request),
        Err(EvalError::TtlTooLong { max_seconds: 300 })
    ));
}

#[test]
fn requested_ttl_must_fit_ca_max() {
    let request =
        Request::from_cli("user:alice", "ssh", "server:prod", Some("root"), "20m").unwrap();
    // The CA's maximum is checked before any rule, even a deny rule.
    assert!(matches!(
        evaluate(&policy(), &request),
        Err(EvalError::TtlTooLong { max_seconds: 900 })
    ));
}

#[test]
fn unknown_principal_matches_nothing() {
    let request = Request::from_cli("user:bob", "ssh", "server:prod", Some("bob"), "5m").unwrap();
    assert_eq!(evaluate(&policy(), &request).unwrap(), Decision::NoMatch);
}

#[test]
fn request_without_ssh_principal() {
    let request = Request::from_cli("user:alice", "ssh", "server:prod", None, "1m").unwrap();
    // No deny rule applies (deny-prod-root names an SSH principal).
    assert_eq!(
        evaluate(&policy(), &request).unwrap(),
        Decision::Allow { rule: s("allow-alice-prod"), ttl_seconds: 60 }
    );
}

#[test]
fn first_allow_rule_wins_and_later_deny_still_overrides() {
    let mut p = policy();
    let mut wide = rule("allow-any", Effect::Allow, Some("any"), Some("any"), Some("any"));
    wide.max_ttl = Some(s("1m"));
    p.rules.insert(0, wide);
    let request = Request::from_cli("user:alice", "ssh", "server:prod", None, "1m").unwrap();
    assert_eq!(
        evaluate(&p, &request).unwrap(),
        Decision::Allow { rule: s("allow-any"), ttl_seconds: 60 }
    );
    // The second allow rule's limit is not consulted once an allow was found.
    let request = Request::from_cli("user:alice", "ssh", "server:prod", None, "2m").unwrap();
    assert!(matches!(evaluate(&p, &request), Err(EvalError::TtlTooLong { max_seconds: 60 })));
    // A deny rule after the first allow rule still decides.
    p.rules.push(rule("deny-all", Effect::Deny, Some("any"), Some("any"), Some("any")));
    let request = Request::from_cli("user:alice", "ssh", "server:prod", None, "1m").unwrap();
    assert_eq!(evaluate(&p, &request).unwrap(), Decision::Deny { rule: s("deny-all") });
}

#[test]
fn rule_without_max_ttl_uses_ca_default() {
    let p = base_policy(vec![rule(
        "allow",
        Effect::Allow,
        Some("user:alice"),
        Some("any"),
        Some("server:prod"),
    )]);
    let request = Request::from_cli("user:alice", "scp", "server:prod", None, "5m").unwrap();
    assert_eq!(
        evaluate(&p, &request).unwrap(),
        Decision::Allow { rule: s("allow"), ttl_seconds: 300 }
    );
    let request = Request::from_cli("user:alice", "scp", "server:prod", None, "301s").unwrap();
    assert!(matches!(evaluate(&p, &request), Err(EvalError::TtlTooLong { max_seconds: 300 })));
}

#[test]
fn unreadable_rule_lifetime_is_a_policy_error() {
    let mut r = rule("allow", Effect::Allow, Some("user:alice"), Some("ssh"), Some("server:prod"));
    r.max_ttl = Some(s("soon"));
    let p = base_policy(vec![r]);
    let request = Request::from_cli("user:alice", "ssh", "server:prod", None, "1m").unwrap();
    assert!(matches!(
        evaluate(&p, &request),
        Err(EvalError::Policy(PolicyError::InvalidDuration(_)))
    ));
}

#[test]
fn from_cli_checks_each_field() {
    let request = Request::from_cli("user:alice", "ssh", "server:prod", Some("alice"), "2h").unwrap();
    assert_eq!(
        request,
        Request {
            principal: s("user:alice"),
            action: s("ssh"),
            resource: s("server:prod"),
            ssh_principal: Some(s("alice")),
            requested_ttl_seconds: 7200,
        }
    );
    assert!(matches!(
        Request::from_cli("user:alice", "SSH", "server:prod", None, "5m"),
        Err(EvalError::Policy(PolicyError::InvalidAtom { index: 0, byte: b'S', .. }))
    ));
    assert!(matches!(
        Request::from_cli("user:alice", "ssh", "server:prod", Some(""), "5m"),
        Err(EvalError::Policy(PolicyError::EmptyAtom { .. }))
    ));
    assert!(matches!(
        Request::from_cli("user:alice", "ssh", "server:prod", None, "5 min"),
        Err(EvalError::Policy(PolicyError::InvalidDuration(_)))
    ));
}

#[test]
fn safe_names_replace_separators() {
    let request = Request::from_cli("user:alice", "ssh", "server:prod", Some("alice"), "5m").unwrap();
    assert_eq!(request.safe_name(), "user-alice-server-prod");
    assert_eq!(request.safe_name_for_ssh_principal("alice"), "user-alice-server-prod-alice");
    assert_eq!(
        request.safe_name_for_ssh_principal("a.b/c"),
        "user-alice-server-prod-a-b-c"
    );
}

#[test]
fn summaries() {
    assert_eq!(
        Decision::Allow { rule: s("allow-alice-prod"), ttl_seconds: 300 }.summary(),
        "allow: rule=allow-alice-prod ttl=300s"
    );
    assert_eq!(
        Decision::Allow { rule: s("r"), ttl_seconds: 0 }.summary(),
        "allow: rule=r ttl=0s"
    );
    assert_eq!(
        Decision::Allow { rule: s("r"), ttl_seconds: u64::MAX }.summary(),
        "allow: rule=r ttl=18446744073709551615s"
    );
    assert_eq!(Decision::Deny { rule: s("deny-prod-root") }.summary(), "deny: rule=deny-prod-root");
    assert_eq!(Decision::NoMatch.summary(), "no-match: no allow rule matched");
    assert_eq!(Decision::NoMatch.rule_name(), None);
    assert_eq!(Decision::Deny { rule: s("d") }.ttl_seconds(), None);
}

#[test]
fn granted_lifetime_is_the_requested_one() {
    // law_allow_is_justified on concrete values
    for ttl in ["1s", "59s", "1m", "299s", "5m"] {
        let request = Request::from_cli("user:alice", "ssh", "server:prod", Some("alice"), ttl).unwrap();
        let decision = evaluate(&policy(), &request).unwrap();
        assert_eq!(decision.ttl_seconds(), Some(request.requested_ttl_seconds));
    }
}
