use accessc::policy::{
    parse_duration_seconds, duration_parse_defined, validate_atom, CaConfig, Effect, PolicyError,
    PolicyFile, PrincipalConfig, ResourceConfig, RuleConfig,
};

fn s(v: &str) -> String {
    v.to_string()
}

fn ca() -> CaConfig {
    CaConfig { name: s("accessc-demo-ca"), default_ttl: s("5m"), max_ttl: s("15m") }
}

fn principal(id: &str, ssh: &[&str]) -> PrincipalConfig {
    PrincipalConfig { id: s(id), ssh_principals: ssh.iter().map(|x| s(x)).collect() }
}

fn resource(id: &str, host: &str) -> ResourceConfig {
    ResourceConfig { id: s(id), host: s(host), trusted_ca_path: s("/etc/ssh/accessc_ca.pub") }
}

fn rule(
    name: &str,
    effect: Effect,
    principal: Option<&str>,
    action: Option<&str>,
    resource: Option<&str>,
) -> RuleConfig {
    RuleConfig {
        name: s(name),
        effect,
        principal: principal.map(s),
        action: action.map(s),
        resource: resource.map(s),
        ssh_principal: None,
        max_ttl: None,
    }
}

/// The example policy of the project's README.
fn example_policy() -> PolicyFile {
    let mut allow = rule(
        "allow-alice-prod",
        Effect::Allow,
        Some("user:alice"),
        Some("ssh"),
        Some("server:prod"),
    );
    allow.max_ttl = Some(s("5m"));
    let mut deny = rule("deny-prod-root", Effect::Deny, Some("any"), Some("ssh"), Some("server:prod"));
    deny.ssh_principal = Some(s("root"));
    PolicyFile {
        version: 1,
        ca: ca(),
        principals: vec![principal("user:alice", &["alice"])],
        resources: vec![resource("server:prod", "prod-01")],
        rules: vec![allow, deny],
    }
}

fn base_policy(rules: Vec<RuleConfig>) -> PolicyFile {
    PolicyFile {
        version: 1,
        ca: ca(),
        principals: vec![principal("user:alice", &["alice"])],
        resources: vec![resource("server:prod", "prod-01")],
        rules,
    }
}

#[test]
fn parses_duration_minutes() {
    assert_eq!(parse_duration_seconds("5m").unwrap(), 300);
}

#[test]
fn rejects_uppercase_atom() {
    assert!(matches!(validate_atom("User:Alice"), Err(PolicyError::InvalidAtom { .. })));
}

#[test]
fn parses_example_policy() {
    let policy = example_policy();
    assert!(policy.validation_defined());
    assert!(policy.validate().is_ok());
    assert_eq!(policy.rules.len(), 2);
}

#[test]
fn rejects_duplicate_rule_names() {
    let policy = base_policy(vec![
        rule("same", Effect::Allow, Some("user:alice"), Some("ssh"), Some("server:prod")),
        rule("same", Effect::Deny, Some("any"), Some("ssh"), Some("server:prod")),
    ]);
    assert!(matches!(policy.validate(), Err(PolicyError::DuplicateRuleName { .. })));
}

#[test]
fn rejects_duplicate_principal_ids() {
    let mut policy = base_policy(vec![rule(
        "allow-alice-prod",
        Effect::Allow,
        Some("user:alice"),
        Some("ssh"),
        Some("server:prod"),
    )]);
    policy.principals =
        vec![principal("user:alice", &["alice"]), principal("user:alice", &["alice2"])];
    assert!(matches!(policy.validate(), Err(PolicyError::DuplicatePrincipalId { .. })));
}

#[test]
fn rejects_duplicate_resource_ids() {
    let mut policy = base_policy(vec![rule(
        "allow-alice-prod",
        Effect::Allow,
        Some("user:alice"),
        Some("ssh"),
        Some("server:prod"),
    )]);
    policy.resources = vec![resource("server:prod", "prod-01"), resource("server:prod", "prod-02")];
    assert!(matches!(policy.validate(), Err(PolicyError::DuplicateResourceId { .. })));
}

#[test]
fn rejects_rule_with_omitted_selector() {
    let policy = base_policy(vec![rule(
        "bad",
        Effect::Allow,
        Some("user:alice"),
        Some("ssh"),
        None,
    )]);
    match policy.validate() {
        Err(PolicyError::MissingSelector { rule, selector }) => {
            assert_eq!(rule, "bad");
            assert_eq!(selector, "resource");
        }
        other => panic!("unexpected {:?}", other),
    }
}

#[test]
fn durations_in_each_unit() {
    assert_eq!(parse_duration_seconds("30s").unwrap(), 30);
    assert_eq!(parse_duration_seconds("2h").unwrap(), 7200);
    assert_eq!(parse_duration_seconds("0m").unwrap(), 0);
    assert_eq!(parse_duration_seconds("+5m").unwrap(), 300);
    assert_eq!(parse_duration_seconds("18446744073709551615s").unwrap(), u64::MAX);
}

#[test]
fn rejects_malformed_durations() {
    for text in ["", "m", "5", "5x", "-5m", "+m", "5 m", "1.5h", "18446744073709551616s", "5M"] {
        match parse_duration_seconds(text) {
            Err(PolicyError::InvalidDuration(v)) => assert_eq!(v, text),
            other => panic!("{:?} gave {:?}", text, other),
        }
    }
}

#[test]
fn duration_definedness() {
    assert!(duration_parse_defined("5m"));
    assert!(duration_parse_defined("5x"));
    assert!(duration_parse_defined(""));
    // The number of seconds would not fit in a u64.
    assert!(!duration_parse_defined("307445734561825861m"));
    assert!(duration_parse_defined("307445734561825860m"));
    assert!(!duration_parse_defined("5124095576030432h"));
    // The last character is not a single byte.
    assert!(!duration_parse_defined("5\u{e9}"));
}

#[test]
fn atom_errors_name_the_first_bad_byte() {
    assert!(validate_atom("user:alice").is_ok());
    assert!(validate_atom("a.b_c/d-e:9").is_ok());
    match validate_atom("ab C") {
        Err(PolicyError::InvalidAtom { value, index, byte }) => {
            assert_eq!(value, "ab C");
            assert_eq!(index, 2);
            assert_eq!(byte, b' ');
        }
        other => panic!("unexpected {:?}", other),
    }
    match validate_atom("x\u{e9}") {
        Err(PolicyError::InvalidAtom { index, byte, .. }) => {
            assert_eq!(index, 1);
            assert_eq!(byte, 0xc3);
        }
        other => panic!("unexpected {:?}", other),
    }
    assert!(matches!(validate_atom(""), Err(PolicyError::EmptyAtom { .. })));
    let long = "a".repeat(65);
    assert!(matches!(
        validate_atom(&long),
        Err(PolicyError::AtomTooLong { limit: 64, .. })
    ));
    assert!(validate_atom(&"a".repeat(64)).is_ok());
    // The limit counts bytes: 33 two-byte characters are 66 bytes.
    assert!(matches!(
        validate_atom(&"\u{e9}".repeat(33)),
        Err(PolicyError::AtomTooLong { .. })
    ));
}

#[test]
fn rejects_unknown_references() {
    let policy = base_policy(vec![rule(
        "r",
        Effect::Allow,
        Some("user:bob"),
        Some("ssh"),
        Some("server:prod"),
    )]);
    match policy.validate() {
        Err(PolicyError::UnknownPrincipal { rule, principal }) => {
            assert_eq!(rule, "r");
            assert_eq!(principal, "user:bob");
        }
        other => panic!("unexpected {:?}", other),
    }
    let policy = base_policy(vec![rule(
        "r",
        Effect::Allow,
        Some("any"),
        Some("ssh"),
        Some("server:dev"),
    )]);
    assert!(matches!(policy.validate(), Err(PolicyError::UnknownResource { .. })));
}

#[test]
fn rejects_rule_ttl_above_ca_max() {
    let mut r = rule("r", Effect::Allow, Some("user:alice"), Some("ssh"), Some("server:prod"));
    r.max_ttl = Some(s("16m"));
    let policy = base_policy(vec![r]);
    assert!(matches!(policy.validate(), Err(PolicyError::TtlExceedsCaMax { .. })));
    let mut r = rule("r", Effect::Allow, Some("user:alice"), Some("ssh"), Some("server:prod"));
    r.max_ttl = Some(s("15m"));
    assert!(base_policy(vec![r]).validate().is_ok());
}

#[test]
fn rejects_too_many_rules() {
    let rules: Vec<RuleConfig> = (0..65)
        .map(|i| rule(&format!("r{}", i), Effect::Allow, Some("any"), Some("ssh"), Some("any")))
        .collect();
    match base_policy(rules).validate() {
        Err(PolicyError::TooManyRules { actual, limit }) => {
            assert_eq!(actual, 65);
            assert_eq!(limit, 64);
        }
        other => panic!("unexpected {:?}", other),
    }
}

#[test]
fn rejects_bad_ca_settings() {
    let mut policy = example_policy();
    policy.ca.default_ttl = s("5 minutes");
    assert!(matches!(policy.validate(), Err(PolicyError::InvalidDuration(_))));
    let mut policy = example_policy();
    policy.ca.name = s("Demo CA");
    assert!(matches!(policy.validate(), Err(PolicyError::InvalidAtom { .. })));
    let mut policy = example_policy();
    policy.ca.max_ttl = s("999999999999999999h");
    assert!(!policy.validation_defined());
}

#[test]
fn lookups_find_the_first_match() {
    let mut policy = example_policy();
    policy.principals.push(principal("user:bob", &["bob"]));
    assert_eq!(policy.principal("user:bob").unwrap().ssh_principals, vec![s("bob")]);
    assert!(policy.principal("user:carol").is_none());
    assert_eq!(policy.resource("server:prod").unwrap().host, "prod-01");
    assert!(policy.resource("server:dev").is_none());
    assert_eq!(policy.ca_default_ttl_seconds().unwrap(), 300);
    assert_eq!(policy.ca_max_ttl_seconds().unwrap(), 900);
}

#[test]
fn validated_policy_has_unique_names() {
    // law_validated_policy_well_formed on concrete values
    let policy = example_policy();
    assert!(policy.validate().is_ok());
    assert_ne!(policy.rules[0].name, policy.rules[1].name);
}
