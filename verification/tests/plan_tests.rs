use accessc::evaluator::{evaluate, Decision, Request};
use accessc::plan::{build_plan, build_plan_at, PlanError};
use accessc::policy::{CaConfig, Effect, PolicyFile, PrincipalConfig, ResourceConfig, RuleConfig};

fn s(v: &str) -> String {
    v.to_string()
}

fn ca() -> CaConfig {
    CaConfig { name: s("accessc-demo-ca"), default_ttl: s("5m"), max_ttl: s("15m") }
}

fn principal(id: &str, ssh: &[&str]) -> PrincipalConfig {
    PrincipalConfig { id: s(id), ssh_principals: ssh.iter().map(|x| s(x)).collect() }
}

fn resource(id: &str, host: &str) -> ResourceConfig {
    ResourceConfig { id: s(id), host: s(host), trusted_ca_path: s("/etc/ssh/accessc_ca.pub") }
}

fn rule(
    name: &str,
    effect: Effect,
    principal: Option<&str>,
    action: Option<&str>,
    resource: Option<&str>,
) -> RuleConfig {
    RuleConfig {
        name: s(name),
        effect,
        principal: principal.map(s),
        action: action.map(s),
        resource: resource.map(s),
        ssh_principal: None,
        max_ttl: None,
    }
}

/// The example policy of the project's README.
fn example_policy() -> PolicyFile {
    let mut allow = rule(
        "allow-alice-prod",
        Effect::Allow,
        Some("user:alice"),
        Some("ssh"),
        Some("server:prod"),
    );
    allow.max_ttl = Some(s("5m"));
    let mut deny = rule("deny-prod-root", Effect::Deny, Some("any"), Some("ssh"), Some("server:prod"));
    deny.ssh_principal = Some(s("root"));
    PolicyFile {
        version: 1,
        ca: ca(),
        principals: vec![principal("user:alice", &["alice"])],
        resources: vec![resource("server:prod", "prod-01")],
        rules: vec![allow, deny],
    }
}

fn base_policy(rules: Vec<RuleConfig>) -> PolicyFile {
    PolicyFile {
        version: 1,
        ca: ca(),
        principals: vec![principal("user:alice", &["alice"])],
        resources: vec![resource("server:prod", "prod-01")],
        rules,
    }
}

fn alice(ssh: Option<&str>) -> Request {
    Request::from_cli("user:alice", "ssh", "server:prod", ssh, "5m").unwrap()
}

#[test]
fn plan_for_allowed_request() {
    let policy = example_policy();
    let request = alice(Some("alice"));
    let decision = evaluate(&policy, &request).unwrap();
    let plan = build_plan_at(&policy, &request, &decision, 1_700_000_000).unwrap();
    assert_eq!(plan.plan_id, "user-alice-server-prod-alice");
    assert_eq!(plan.principal, "user:alice");
    assert_eq!(plan.action, "ssh");
    assert_eq!(plan.resource, "server:prod");
    assert_eq!(plan.host, "prod-01");
    assert_eq!(plan.ssh_principal, "alice");
    assert_eq!(plan.ttl_seconds, 300);
    assert_eq!(plan.matched_rule, "allow-alice-prod");
    assert_eq!(plan.trusted_ca_path, "/etc/ssh/accessc_ca.pub");
    assert_eq!(
        plan.issue_command,
        "ssh-keygen -s /path/to/ca_key -I accessc-user-alice-server-prod-alice -n alice -V +300s /path/to/user.pub"
    );
    assert_eq!(plan.created_at_unix, 1_700_000_000);
}

#[test]
fn plan_reads_the_clock() {
    let policy = example_policy();
    let request = alice(Some("alice"));
    let decision = evaluate(&policy, &request).unwrap();
    let plan = build_plan(&policy, &request, &decision).unwrap();
    // Taken after 2023-11-14.
    assert!(plan.created_at_unix > 1_700_000_000);
    assert_eq!(plan.plan_id, "user-alice-server-prod-alice");
}

#[test]
fn plan_defaults_to_first_ssh_principal() {
    let mut policy = example_policy();
    policy.principals[0].ssh_principals = vec![s("alice-admin"), s("alice")];
    let request = alice(None);
    let decision = Decision::Allow { rule: s("allow-alice-prod"), ttl_seconds: 120 };
    let plan = build_plan_at(&policy, &request, &decision, 7).unwrap();
    assert_eq!(plan.ssh_principal, "alice-admin");
    assert_eq!(plan.plan_id, "user-alice-server-prod-alice-admin");
    assert!(plan.issue_command.contains(" -n alice-admin -V +120s "));
    policy.principals[0].ssh_principals.clear();
    assert!(matches!(
        build_plan_at(&policy, &request, &decision, 7),
        Err(PlanError::UnknownPrincipal(p)) if p == "user:alice"
    ));
}

#[test]
fn no_plan_without_allow() {
    let policy = example_policy();
    let request = alice(Some("root"));
    let decision = evaluate(&policy, &request).unwrap();
    match build_plan_at(&policy, &request, &decision, 0) {
        Err(PlanError::NotAllowed(summary)) => assert_eq!(summary, "deny: rule=deny-prod-root"),
        other => panic!("unexpected {:?}", other),
    }
    match build_plan_at(&policy, &request, &Decision::NoMatch, 0) {
        Err(PlanError::NotAllowed(summary)) => {
            assert_eq!(summary, "no-match: no allow rule matched")
        }
        other => panic!("unexpected {:?}", other),
    }
}

#[test]
fn no_plan_for_unknown_principal_or_resource() {
    let policy = example_policy();
    let decision = Decision::Allow { rule: s("allow-alice-prod"), ttl_seconds: 60 };
    let request = Request::from_cli("user:bob", "ssh", "server:prod", None, "1m").unwrap();
    assert!(matches!(
        build_plan_at(&policy, &request, &decision, 0),
        Err(PlanError::UnknownPrincipal(p)) if p == "user:bob"
    ));
    let request = Request::from_cli("user:alice", "ssh", "server:dev", None, "1m").unwrap();
    assert!(matches!(
        build_plan_at(&policy, &request, &decision, 0),
        Err(PlanError::UnknownResource(r)) if r == "server:dev"
    ));
}

#[test]
fn plan_keeps_distinct_ssh_principals_in_filenames() {
    let mut policy = example_policy();
    policy.principals[0].ssh_principals = vec![s("alice"), s("alice-admin")];
    let mut ids = Vec::new();
    for ssh_principal in ["alice", "alice-admin"] {
        let request = alice(Some(ssh_principal));
        let decision = evaluate(&policy, &request).unwrap();
        let plan = build_plan_at(&policy, &request, &decision, 0).unwrap();
        ids.push(format!("plans/{}-plan.json", plan.plan_id));
    }
    assert_eq!(ids[0], "plans/user-alice-server-prod-alice-plan.json");
    assert_eq!(ids[1], "plans/user-alice-server-prod-alice-admin-plan.json");
}

#[test]
fn receipt_mirrors_plan() {
    let policy = example_policy();
    let request = alice(Some("alice"));
    let decision = evaluate(&policy, &request).unwrap();
    let plan = build_plan_at(&policy, &request, &decision, 42).unwrap();
    let receipt = plan.audit_receipt();
    assert_eq!(receipt.event, "certificate_issuance_planned");
    assert_eq!(receipt.decision, "allow");
    assert_eq!(receipt.plan_id, plan.plan_id);
    assert_eq!(receipt.principal, plan.principal);
    assert_eq!(receipt.action, plan.action);
    assert_eq!(receipt.resource, plan.resource);
    assert_eq!(receipt.ssh_principal, plan.ssh_principal);
    assert_eq!(receipt.ttl_seconds, 300);
    assert_eq!(receipt.matched_rule, "allow-alice-prod");
    assert_eq!(receipt.created_at_unix, 42);
}

#[test]
fn plan_id_is_one_path_component() {
    // law_plan_follows_decision on concrete values
    let mut policy = example_policy();
    policy.principals[0].ssh_principals = vec![s("a/b.c")];
    let request = Request {
        principal: s("user:alice"),
        action: s("ssh"),
        resource: s("server:prod"),
        ssh_principal: None,
        requested_ttl_seconds: 60,
    };
    let decision = Decision::Allow { rule: s("allow-alice-prod"), ttl_seconds: 60 };
    let plan = build_plan_at(&policy, &request, &decision, 0).unwrap();
    assert!(!plan.plan_id.contains('/'));
    assert_eq!(plan.plan_id, "user-alice-server-prod-a-b-c");
}
