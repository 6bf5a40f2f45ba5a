use mcp_proxy::proto::{XdsClaim, XdsRbac, XdsResource, XdsRule};
use mcp_proxy::rbac::{kind_from_wire, Identity, ResourceKind, ResourceType, Rule, RuleSet};
use mcp_proxy::xds::ParseError;

fn rbac_rule(kind: u32, name: &str, claims: &[(&str, &str)]) -> XdsRule {
    XdsRule {
        resource: Some(XdsResource { kind, name: name.to_string() }),
        claims: claims
            .iter()
            .map(|(k, v)| XdsClaim { key: k.to_string(), value: v.to_string() })
            .collect(),
    }
}

fn rbac_identity(claims: &[(&str, &str)]) -> Identity {
    let mut id = Identity::new();
    for (k, v) in claims {
        id.set_claim(k.to_string(), v.to_string());
    }
    id
}

fn rbac_tool(target: &str, operation: &str) -> ResourceType {
    ResourceType::new(ResourceKind::Tool, target.to_string(), operation.to_string())
}

#[test]
fn kinds_on_the_wire() {
    assert_eq!(kind_from_wire(0), Some(ResourceKind::Tool));
    assert_eq!(kind_from_wire(1), Some(ResourceKind::Prompt));
    assert_eq!(kind_from_wire(2), Some(ResourceKind::Resource));
    assert_eq!(kind_from_wire(3), None);
    assert_eq!(kind_from_wire(u32::MAX), None);
}

#[test]
fn identity_holds_its_claims() {
    let mut id = Identity::new();
    assert!(id.get_claim("sub").is_none());
    id.set_claim("sub".to_string(), "u".to_string());
    id.set_claim("team".to_string(), "a".to_string());
    id.set_claim("sub".to_string(), "v".to_string());
    assert_eq!(id.get_claim("sub").map(|s| s.as_str()), Some("v"));
    assert_eq!(id.get_claim("team").map(|s| s.as_str()), Some("a"));
    assert!(id.get_claim("other").is_none());
}

#[test]
fn rule_set_decodes_in_order() {
    let message = XdsRbac {
        name: "p".to_string(),
        rules: vec![rbac_rule(0, "t1", &[("sub", "u")]), rbac_rule(2, "t2", &[])],
    };
    let set = RuleSet::try_from(&message).unwrap();
    assert_eq!(set.name, "p");
    assert_eq!(set.rules.len(), 2);
    assert_eq!(set.rules[0].kind, ResourceKind::Tool);
    assert_eq!(set.rules[0].name, "t1");
    assert_eq!(set.rules[0].claims.len(), 1);
    assert_eq!(set.rules[0].claims[0].key, "sub");
    assert_eq!(set.rules[0].claims[0].value, "u");
    assert_eq!(set.rules[1].kind, ResourceKind::Resource);
    assert_eq!(set.rules[1].name, "t2");
    assert!(set.rules[1].claims.is_empty());
}

#[test]
fn rule_set_without_a_name_misses_fields() {
    let message = XdsRbac { name: "".to_string(), rules: vec![] };
    assert_eq!(RuleSet::try_from(&message).err(), Some(ParseError::MissingFields));
}

#[test]
fn rule_without_a_resource_misses_fields() {
    let rule = XdsRule { resource: None, claims: vec![] };
    assert_eq!(Rule::try_from(&rule).err(), Some(ParseError::MissingFields));
    let rule = rbac_rule(0, "", &[]);
    assert_eq!(Rule::try_from(&rule).err(), Some(ParseError::MissingFields));
}

#[test]
fn rule_with_a_kind_that_does_not_exist_is_invalid() {
    assert_eq!(Rule::try_from(&rbac_rule(3, "t1", &[])).err(), Some(ParseError::InvalidSchema));
}

#[test]
fn rule_set_fails_with_the_error_of_its_first_bad_rule() {
    let message = XdsRbac {
        name: "p".to_string(),
        rules: vec![
            rbac_rule(0, "t1", &[]),
            rbac_rule(9, "t2", &[]),
            XdsRule { resource: None, claims: vec![] },
        ],
    };
    assert_eq!(RuleSet::try_from(&message).err(), Some(ParseError::InvalidSchema));
    let message = XdsRbac {
        name: "p".to_string(),
        rules: vec![XdsRule { resource: None, claims: vec![] }, rbac_rule(9, "t2", &[])],
    };
    assert_eq!(RuleSet::try_from(&message).err(), Some(ParseError::MissingFields));
}

#[test]
fn rule_matches_kind_name_and_claims() {
    let rule = Rule::try_from(&rbac_rule(0, "t1", &[("sub", "u"), ("team", "a")])).unwrap();
    let caller = rbac_identity(&[("sub", "u"), ("team", "a"), ("extra", "x")]);
    assert!(rule.matches(&rbac_tool("t1", "ping"), &caller));
    // the operation is not looked at
    assert!(rule.matches(&rbac_tool("t1", "other"), &caller));
    // another target
    assert!(!rule.matches(&rbac_tool("t2", "ping"), &caller));
    // another kind
    let prompt = ResourceType::new(ResourceKind::Prompt, "t1".to_string(), "ping".to_string());
    assert!(!rule.matches(&prompt, &caller));
    // a claim is missing
    assert!(!rule.matches(&rbac_tool("t1", "ping"), &rbac_identity(&[("sub", "u")])));
    // a claim has another value
    assert!(!rule
        .matches(&rbac_tool("t1", "ping"), &rbac_identity(&[("sub", "u"), ("team", "b")])));
}

#[test]
fn rule_without_claims_matches_every_caller() {
    let rule = Rule::try_from(&rbac_rule(0, "t1", &[])).unwrap();
    assert!(rule.matches(&rbac_tool("t1", "ping"), &Identity::new()));
    assert!(rule.matches(&rbac_tool("t1", "ping"), &rbac_identity(&[("sub", "u")])));
}

#[test]
fn rule_set_permits_where_some_rule_matches() {
    let message = XdsRbac {
        name: "p".to_string(),
        rules: vec![rbac_rule(0, "t1", &[("sub", "a")]), rbac_rule(0, "t1", &[("sub", "b")])],
    };
    let set = RuleSet::try_from(&message).unwrap();
    assert!(set.validate(&rbac_tool("t1", "ping"), &rbac_identity(&[("sub", "a")])));
    assert!(set.validate(&rbac_tool("t1", "ping"), &rbac_identity(&[("sub", "b")])));
    assert!(!set.validate(&rbac_tool("t1", "ping"), &rbac_identity(&[("sub", "c")])));
}

#[test]
fn rule_set_without_rules_permits_nobody() {
    let set = RuleSet::try_from(&XdsRbac { name: "p".to_string(), rules: vec![] }).unwrap();
    assert!(!set.validate(&rbac_tool("t1", "ping"), &rbac_identity(&[("sub", "a")])));
}
