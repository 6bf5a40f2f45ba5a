use mcp_proxy::proto::{XdsRbac, XdsResource as WireResource, XdsRule, XdsSse, XdsTarget, XdsTargetSpec};
use mcp_proxy::xds::types::{RejectedConfig, XdsResource, XdsUpdate, RBAC_TYPE, TARGET_TYPE};
use mcp_proxy::xds::{
    collect_rejections, order_updates, ParseError, ProxyStateUpdateMutator, XdsStore,
};
use tokio::sync::broadcast::error::TryRecvError;

fn handler_sse(name: &str, port: u32) -> XdsTarget {
    XdsTarget {
        name: name.to_string(),
        target: Some(XdsTargetSpec::Sse(XdsSse {
            host: "h".to_string(),
            port,
            path: "/p".to_string(),
            headers: vec![],
            auth: None,
        })),
    }
}

fn handler_upsert(name: &str, port: u32) -> XdsUpdate<XdsTarget> {
    XdsUpdate::Update(XdsResource { name: name.to_string(), resource: handler_sse(name, port) })
}

fn handler_bad(name: &str) -> XdsUpdate<XdsTarget> {
    XdsUpdate::Update(XdsResource {
        name: name.to_string(),
        resource: XdsTarget { name: name.to_string(), target: None },
    })
}

fn handler_policy(name: &str, kind: u32) -> XdsUpdate<XdsRbac> {
    XdsUpdate::Update(XdsResource {
        name: name.to_string(),
        resource: XdsRbac {
            name: name.to_string(),
            rules: vec![XdsRule {
                resource: Some(WireResource { kind, name: "t1".to_string() }),
                claims: vec![],
            }],
        },
    })
}

#[test]
fn type_urls() {
    assert_eq!(TARGET_TYPE, "type.googleapis.com/mcpproxy.dev.target.Target");
    assert_eq!(RBAC_TYPE, "type.googleapis.com/mcpproxy.dev.rbac.Config");
}

#[test]
fn update_knows_its_name() {
    assert_eq!(handler_upsert("t1", 80).name(), "t1");
    assert_eq!(XdsUpdate::<XdsTarget>::Remove("gone".to_string()).name(), "gone");
}

#[test]
fn rejection_in_words() {
    let r = RejectedConfig::new("t4".to_string(), ParseError::MissingFields);
    assert_eq!(r.describe(), "t4: missing fields");
    let r = RejectedConfig::new("".to_string(), ParseError::InvalidSchema);
    assert_eq!(r.describe(), ": invalid schema");
}

#[test]
fn mutator_inserts_and_removes_one_at_a_time() {
    let mutator = ProxyStateUpdateMutator {};
    let mut state = XdsStore::new();
    assert_eq!(mutator.insert_target(&mut state, handler_sse("t1", 80)), Ok(()));
    assert_eq!(
        mutator.insert_target(&mut state, handler_sse("t2", 0)),
        Err(ParseError::MissingFields)
    );
    assert!(state.targets.get("t1").is_some());
    assert!(state.targets.get("t2").is_none());
    mutator.remove_target(&mut state, "t1");
    assert!(state.targets.get("t1").is_none());
    let policy = match handler_policy("p", 0) {
        XdsUpdate::Update(r) => r.resource,
        XdsUpdate::Remove(_) => unreachable!(),
    };
    assert_eq!(mutator.insert_rbac(&mut state, policy.clone()), Ok(()));
    assert_eq!(state.policies.get_proto("p"), Some(&policy));
    mutator.remove_rbac(&mut state, "p");
    assert!(state.policies.get_proto("p").is_none());
}

#[test]
fn empty_batch_changes_nothing_and_notifies_nothing() {
    let mutator = ProxyStateUpdateMutator {};
    let mut state = XdsStore::new();
    state.targets.insert(handler_sse("t1", 80)).unwrap();
    let held = state.targets.get("t1").unwrap().1.clone();
    let mut rx = state.targets.subscribe();
    assert!(mutator.handle_targets(&mut state, vec![]).is_ok());
    assert!(mutator.handle_rbac(&mut state, vec![]).is_ok());
    assert_eq!(state.targets.len(), 1);
    assert_eq!(state.targets.get_proto("t1"), Some(&handler_sse("t1", 80)));
    assert!(!held.is_cancelled());
    assert!(matches!(rx.try_recv(), Err(TryRecvError::Empty)));
}

#[test]
fn batch_of_three_with_invalid_middle_keeps_the_two_valid() {
    let mutator = ProxyStateUpdateMutator {};
    let mut state = XdsStore::new();
    let r = mutator.handle_targets(
        &mut state,
        vec![handler_upsert("a", 1), handler_bad("b"), handler_upsert("c", 3)],
    );
    let rejects = r.err().unwrap();
    assert_eq!(rejects.len(), 1);
    assert_eq!(rejects[0].name, "b");
    assert_eq!(rejects[0].reason, ParseError::MissingFields);
    assert_eq!(state.targets.len(), 2);
    assert!(state.targets.get("a").is_some());
    assert!(state.targets.get("b").is_none());
    assert!(state.targets.get("c").is_some());
}

#[test]
fn batch_rejections_come_in_order() {
    let mutator = ProxyStateUpdateMutator {};
    let mut state = XdsStore::new();
    let r = mutator.handle_targets(
        &mut state,
        vec![
            handler_bad("x"),
            handler_upsert("a", 1),
            handler_upsert("y", 70000),
            XdsUpdate::Remove("z".to_string()),
        ],
    );
    let rejects = r.err().unwrap();
    assert_eq!(rejects.len(), 2);
    assert_eq!(rejects[0].name, "x");
    assert_eq!(rejects[0].reason, ParseError::MissingFields);
    assert_eq!(rejects[1].name, "y");
    assert_eq!(rejects[1].reason, ParseError::InvalidSchema);
}

#[test]
fn batch_outcomes_stand_one_for_one_with_the_updates() {
    let mutator = ProxyStateUpdateMutator {};
    let mut state = XdsStore::new();
    let outcomes = mutator.apply_targets(
        &mut state,
        vec![
            XdsUpdate::Remove("a".to_string()),
            handler_bad("x"),
            handler_upsert("a", 1),
        ],
    );
    assert_eq!(outcomes.len(), 3);
    assert!(outcomes[0].is_none());
    assert_eq!(outcomes[1].as_ref().map(|r| r.name.as_str()), Some("x"));
    assert!(outcomes[2].is_none());
    let rejects = collect_rejections(outcomes);
    assert_eq!(rejects.len(), 1);
    assert_eq!(rejects[0].describe(), "x: missing fields");
}

#[test]
fn batch_with_remove_and_upsert_of_one_name_leaves_the_upsert() {
    let mutator = ProxyStateUpdateMutator {};
    let mut state = XdsStore::new();
    state.targets.insert(handler_sse("x", 1)).unwrap();
    let old = state.targets.get("x").unwrap().1.clone();
    let r = mutator.handle_targets(
        &mut state,
        vec![XdsUpdate::Remove("x".to_string()), handler_upsert("x", 2)],
    );
    assert!(r.is_ok());
    assert_eq!(state.targets.get_proto("x"), Some(&handler_sse("x", 2)));
    assert!(old.is_cancelled());
    assert!(!state.targets.get("x").unwrap().1.is_cancelled());
}

#[test]
fn batch_removals_are_applied_before_upserts_wherever_they_stand() {
    let mutator = ProxyStateUpdateMutator {};
    let mut state = XdsStore::new();
    state.targets.insert(handler_sse("x", 1)).unwrap();
    let r = mutator.handle_targets(
        &mut state,
        vec![handler_upsert("x", 2), XdsUpdate::Remove("x".to_string())],
    );
    assert!(r.is_ok());
    assert_eq!(state.targets.get_proto("x"), Some(&handler_sse("x", 2)));
    // applied as they stand, the removal comes last
    let _ = mutator.apply_targets(
        &mut state,
        vec![handler_upsert("x", 3), XdsUpdate::Remove("x".to_string())],
    );
    assert!(state.targets.get("x").is_none());
}

#[test]
fn order_updates_keeps_each_group_in_order() {
    let sorted = order_updates(vec![
        handler_upsert("a", 1),
        XdsUpdate::Remove("r1".to_string()),
        handler_bad("b"),
        XdsUpdate::Remove("r2".to_string()),
    ]);
    let names: Vec<String> = sorted.iter().map(|u| u.name()).collect();
    assert_eq!(names, vec!["r1", "r2", "a", "b"]);
    assert!(matches!(sorted[0], XdsUpdate::Remove(_)));
    assert!(matches!(sorted[1], XdsUpdate::Remove(_)));
    assert!(matches!(sorted[2], XdsUpdate::Update(_)));
    assert!(matches!(sorted[3], XdsUpdate::Update(_)));
    assert!(order_updates(Vec::<XdsUpdate<XdsTarget>>::new()).is_empty());
}

#[test]
fn batch_reinsertion_of_the_same_message_leaves_it_readable() {
    let mutator = ProxyStateUpdateMutator {};
    let mut state = XdsStore::new();
    state.targets.insert(handler_sse("x", 1)).unwrap();
    let before = state.targets.get_proto("x").cloned();
    let r = mutator.handle_targets(
        &mut state,
        vec![XdsUpdate::Remove("x".to_string()), handler_upsert("x", 1)],
    );
    assert!(r.is_ok());
    assert_eq!(state.targets.get_proto("x").cloned(), before);
}

#[test]
fn batch_rejected_name_keeps_its_entry() {
    let mutator = ProxyStateUpdateMutator {};
    let mut state = XdsStore::new();
    state.targets.insert(handler_sse("held", 1)).unwrap();
    let signal = state.targets.get("held").unwrap().1.clone();
    let r = mutator.handle_targets(
        &mut state,
        vec![handler_bad("held"), handler_bad("absent"), handler_upsert("other", 2)],
    );
    assert_eq!(r.err().unwrap().len(), 2);
    assert_eq!(state.targets.get_proto("held"), Some(&handler_sse("held", 1)));
    assert!(!signal.is_cancelled());
    assert!(state.targets.get("absent").is_none());
    assert!(state.targets.get("other").is_some());
}

#[test]
fn batch_notifies_a_name_of_the_batch_for_each_change() {
    let mutator = ProxyStateUpdateMutator {};
    let mut state = XdsStore::new();
    let mut rx = state.targets.subscribe();
    let _ = mutator.handle_targets(
        &mut state,
        vec![XdsUpdate::Remove("r".to_string()), handler_bad("b"), handler_upsert("u", 2)],
    );
    assert_eq!(rx.try_recv().unwrap(), "r");
    assert_eq!(rx.try_recv().unwrap(), "u");
    assert!(matches!(rx.try_recv(), Err(TryRecvError::Empty)));
}

#[test]
fn policy_batch_applies_the_valid_and_reports_the_rest() {
    let mutator = ProxyStateUpdateMutator {};
    let mut state = XdsStore::new();
    state.targets.insert(handler_sse("t1", 80)).unwrap();
    let r = mutator.handle_rbac(
        &mut state,
        vec![
            handler_policy("pa", 0),
            handler_policy("pb", 5),
            XdsUpdate::Remove("pa".to_string()),
            handler_policy("pc", 1),
        ],
    );
    let rejects = r.err().unwrap();
    assert_eq!(rejects.len(), 1);
    assert_eq!(rejects[0].name, "pb");
    assert_eq!(rejects[0].reason, ParseError::InvalidSchema);
    // the removal is applied before the upserts, so the upsert stands
    assert!(state.policies.get_proto("pa").is_some());
    assert!(state.policies.get_proto("pb").is_none());
    assert!(state.policies.get_proto("pc").is_some());
    // the targets are not touched
    assert!(state.targets.get("t1").is_some());
}
