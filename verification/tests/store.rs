use mcp_proxy::outbound::TargetSpec;
use mcp_proxy::proto::{XdsClaim, XdsRbac, XdsResource, XdsRule, XdsSse, XdsTarget, XdsTargetSpec};
use mcp_proxy::rbac::{Identity, ResourceKind, ResourceType};
use mcp_proxy::xds::{ParseError, PolicyStore, TargetStore, XdsStore};
use tokio::sync::broadcast::error::TryRecvError;

fn store_sse(name: &str, port: u32) -> XdsTarget {
    XdsTarget {
        name: name.to_string(),
        target: Some(XdsTargetSpec::Sse(XdsSse {
            host: "h".to_string(),
            port,
            path: "/p".to_string(),
            headers: vec![],
            auth: None,
        })),
    }
}

fn store_policy(name: &str, target: &str, sub: &str) -> XdsRbac {
    XdsRbac {
        name: name.to_string(),
        rules: vec![XdsRule {
            resource: Some(XdsResource { kind: 0, name: target.to_string() }),
            claims: vec![XdsClaim { key: "sub".to_string(), value: sub.to_string() }],
        }],
    }
}

fn store_caller(sub: &str) -> Identity {
    let mut id = Identity::new();
    id.set_claim("sub".to_string(), sub.to_string());
    id
}

fn store_port(store: &TargetStore, name: &str) -> Option<u32> {
    store.get(name).map(|(target, _)| match &target.spec {
        TargetSpec::Sse { port, .. } => *port,
        other => panic!("not an sse target: {:?}", other),
    })
}

#[test]
fn target_store_starts_empty() {
    let store = TargetStore::new();
    assert_eq!(store.len(), 0);
    assert!(store.get("t1").is_none());
    assert!(store.get_proto("t1").is_none());
    assert!(store.iter().is_empty());
}

#[test]
fn target_insert_then_get_proto_yields_the_message() {
    let mut store = TargetStore::new();
    let message = store_sse("t1", 80);
    assert_eq!(store.insert(message.clone()), Ok(()));
    assert_eq!(store.get_proto("t1"), Some(&message));
    let (target, cancel) = store.get("t1").unwrap();
    assert_eq!(target.name, "t1");
    assert!(!cancel.is_cancelled());
    assert_eq!(store.len(), 1);
}

#[test]
fn target_insert_remove_get_proto_yields_none() {
    let mut store = TargetStore::new();
    store.insert(store_sse("t1", 80)).unwrap();
    store.remove("t1");
    assert!(store.get_proto("t1").is_none());
    assert!(store.get("t1").is_none());
    assert_eq!(store.len(), 0);
}

#[test]
fn target_remove_fires_the_signal_of_the_entry() {
    let mut store = TargetStore::new();
    store.insert(store_sse("t1", 80)).unwrap();
    store.insert(store_sse("t2", 81)).unwrap();
    let held = store.get("t1").unwrap().1.clone();
    let other = store.get("t2").unwrap().1.clone();
    assert!(!held.is_cancelled());
    store.remove("t1");
    assert!(held.is_cancelled());
    assert!(!other.is_cancelled());
    assert!(store.get("t1").is_none());
    assert!(!store.get("t2").unwrap().1.is_cancelled());
}

#[test]
fn target_replace_fires_the_old_signal_and_installs_a_fresh_one() {
    let mut store = TargetStore::new();
    store.insert(store_sse("t1", 80)).unwrap();
    let old = store.get("t1").unwrap().1.clone();
    store.insert(store_sse("t1", 81)).unwrap();
    assert!(old.is_cancelled());
    let (target, fresh) = store.get("t1").unwrap();
    assert!(!fresh.is_cancelled());
    assert_eq!(target.name, "t1");
    assert_eq!(store_port(&store, "t1"), Some(81));
    assert_eq!(store.len(), 1);
    assert_eq!(store.get_proto("t1"), Some(&store_sse("t1", 81)));
}

#[test]
fn target_rejected_insert_leaves_the_store_unchanged() {
    let mut store = TargetStore::new();
    store.insert(store_sse("t1", 80)).unwrap();
    let held = store.get("t1").unwrap().1.clone();
    let mut rx = store.subscribe();
    // an invalid port under a name that is held
    assert_eq!(store.insert(store_sse("t1", 0)), Err(ParseError::MissingFields));
    assert_eq!(store.insert(store_sse("t1", 70000)), Err(ParseError::InvalidSchema));
    // a message without a description under a name that is not held
    assert_eq!(
        store.insert(XdsTarget { name: "t4".to_string(), target: None }),
        Err(ParseError::MissingFields)
    );
    assert_eq!(store.get_proto("t1"), Some(&store_sse("t1", 80)));
    assert_eq!(store_port(&store, "t1"), Some(80));
    assert!(!held.is_cancelled());
    assert!(store.get("t4").is_none());
    assert_eq!(store.len(), 1);
    assert!(matches!(rx.try_recv(), Err(TryRecvError::Empty)));
}

#[test]
fn target_changes_are_notified_by_name() {
    let mut store = TargetStore::new();
    let mut rx = store.subscribe();
    store.insert(store_sse("t1", 80)).unwrap();
    store.insert(store_sse("t2", 80)).unwrap();
    store.remove("t1");
    assert_eq!(rx.try_recv().unwrap(), "t1");
    assert_eq!(rx.try_recv().unwrap(), "t2");
    assert_eq!(rx.try_recv().unwrap(), "t1");
    assert!(matches!(rx.try_recv(), Err(TryRecvError::Empty)));
}

#[test]
fn target_remove_without_subscriber_still_removes() {
    let mut store = TargetStore::new();
    store.insert(store_sse("t1", 80)).unwrap();
    let held = store.get("t1").unwrap().1.clone();
    // nobody listens: the removal is done all the same
    store.remove("t1");
    assert!(store.get("t1").is_none());
    assert!(held.is_cancelled());
    // the name is notified even where nothing was held
    let mut rx = store.subscribe();
    let mut second = store.subscribe();
    store.remove("absent");
    assert_eq!(rx.try_recv().unwrap(), "absent");
    assert_eq!(second.try_recv().unwrap(), "absent");
    assert_eq!(store.len(), 0);
}

#[test]
fn target_remove_of_an_absent_name_fires_nothing() {
    let mut store = TargetStore::new();
    store.insert(store_sse("t1", 80)).unwrap();
    let held = store.get("t1").unwrap().1.clone();
    store.remove("t2");
    assert!(!held.is_cancelled());
    assert_eq!(store.get_proto("t1"), Some(&store_sse("t1", 80)));
}

#[test]
fn target_signals_of_other_entries_stay_unfired() {
    let mut store = TargetStore::new();
    store.insert(store_sse("a", 1)).unwrap();
    store.insert(store_sse("b", 2)).unwrap();
    store.insert(store_sse("c", 3)).unwrap();
    let a = store.get("a").unwrap().1.clone();
    let b = store.get("b").unwrap().1.clone();
    let c = store.get("c").unwrap().1.clone();
    store.insert(store_sse("b", 4)).unwrap();
    store.remove("c");
    assert!(!a.is_cancelled());
    assert!(b.is_cancelled());
    assert!(c.is_cancelled());
    let fresh = store.get("b").unwrap().1.clone();
    assert!(!fresh.is_cancelled());
    assert!(fresh != b);
    assert!(fresh != a);
}

#[test]
fn target_slow_subscriber_loses_old_notifications_only() {
    let mut store = TargetStore::new();
    let mut rx = store.subscribe();
    for i in 0..20 {
        store.insert(store_sse(&format!("t{}", i), 80)).unwrap();
    }
    // the backlog is 16: the four oldest are lost, and the receiver is told
    assert!(matches!(rx.try_recv(), Err(TryRecvError::Lagged(4))));
    assert_eq!(rx.try_recv().unwrap(), "t4");
    // what the store holds can still be read
    assert_eq!(store.len(), 20);
    assert!(store.get("t0").is_some());
}

#[test]
fn target_iter_lists_every_entry_in_order_of_insertion() {
    let mut store = TargetStore::new();
    store.insert(store_sse("b", 1)).unwrap();
    store.insert(store_sse("a", 2)).unwrap();
    store.insert(store_sse("c", 3)).unwrap();
    store.insert(store_sse("b", 4)).unwrap();
    let all = store.iter();
    let names: Vec<&str> = all.iter().map(|(name, _, _)| name.as_str()).collect();
    assert_eq!(names, vec!["a", "c", "b"]);
    for (name, target, cancel) in all.iter() {
        assert_eq!(&target.name, name);
        assert!(!cancel.is_cancelled());
    }
}

#[test]
fn policy_store_new_is_empty() {
    let store = PolicyStore::new();
    assert!(store.get_proto("p").is_none());
    assert!(store.get("p").is_none());
    let tool = ResourceType::new(ResourceKind::Tool, "t1".to_string(), "ping".to_string());
    assert!(!store.validate(&tool, &store_caller("a")));
}

#[test]
fn policy_insert_then_get_proto_yields_the_message() {
    let mut store = PolicyStore::new();
    let message = store_policy("p", "t1", "a");
    assert_eq!(store.insert(message.clone()), Ok(()));
    assert_eq!(store.get_proto("p"), Some(&message));
    assert_eq!(store.get("p").unwrap().name, "p");
    assert_eq!(store.get("p").unwrap().rules.len(), 1);
}

#[test]
fn policy_insert_remove_get_proto_yields_none() {
    let mut store = PolicyStore::new();
    store.insert(store_policy("p", "t1", "a")).unwrap();
    store.remove("p");
    assert!(store.get_proto("p").is_none());
    assert!(store.get("p").is_none());
    let tool = ResourceType::new(ResourceKind::Tool, "t1".to_string(), "ping".to_string());
    assert!(!store.validate(&tool, &store_caller("a")));
}

#[test]
fn policy_rejected_insert_leaves_the_store_unchanged() {
    let mut store = PolicyStore::new();
    store.insert(store_policy("p", "t1", "a")).unwrap();
    let bad = XdsRbac {
        name: "p".to_string(),
        rules: vec![XdsRule { resource: None, claims: vec![] }],
    };
    assert_eq!(store.insert(bad), Err(ParseError::MissingFields));
    let bad = XdsRbac {
        name: "p".to_string(),
        rules: vec![XdsRule {
            resource: Some(XdsResource { kind: 7, name: "t1".to_string() }),
            claims: vec![],
        }],
    };
    assert_eq!(store.insert(bad), Err(ParseError::InvalidSchema));
    assert_eq!(store.get_proto("p"), Some(&store_policy("p", "t1", "a")));
}

#[test]
fn policy_validate_asks_every_policy() {
    let mut store = PolicyStore::new();
    store.insert(store_policy("pa", "t1", "a")).unwrap();
    store.insert(store_policy("pb", "t1", "b")).unwrap();
    store.insert(store_policy("pc", "t2", "c")).unwrap();
    let t1 = ResourceType::new(ResourceKind::Tool, "t1".to_string(), "ping".to_string());
    let t2 = ResourceType::new(ResourceKind::Tool, "t2".to_string(), "ping".to_string());
    assert!(store.validate(&t1, &store_caller("a")));
    assert!(store.validate(&t1, &store_caller("b")));
    assert!(!store.validate(&t1, &store_caller("c")));
    assert!(store.validate(&t2, &store_caller("c")));
    assert!(!store.validate(&t2, &store_caller("a")));
    store.remove("pb");
    assert!(!store.validate(&t1, &store_caller("b")));
    assert!(store.validate(&t1, &store_caller("a")));
}

#[test]
fn policy_replace_takes_effect_with_the_next_request() {
    let mut store = PolicyStore::new();
    store.insert(store_policy("p", "t1", "a")).unwrap();
    let t1 = ResourceType::new(ResourceKind::Tool, "t1".to_string(), "ping".to_string());
    assert!(store.validate(&t1, &store_caller("a")));
    store.insert(store_policy("p", "t1", "b")).unwrap();
    assert!(!store.validate(&t1, &store_caller("a")));
    assert!(store.validate(&t1, &store_caller("b")));
}

#[test]
fn policy_clear_removes_every_policy() {
    let mut store = PolicyStore::new();
    store.insert(store_policy("pa", "t1", "a")).unwrap();
    store.insert(store_policy("pb", "t1", "b")).unwrap();
    store.clear();
    assert!(store.get_proto("pa").is_none());
    assert!(store.get_proto("pb").is_none());
    let t1 = ResourceType::new(ResourceKind::Tool, "t1".to_string(), "ping".to_string());
    assert!(!store.validate(&t1, &store_caller("a")));
}

#[test]
fn target_message_with_a_header_from_the_environment_is_kept_as_sent() {
    let mut store = TargetStore::new();
    let mut message = store_sse("t1", 80);
    if let Some(XdsTargetSpec::Sse(sse)) = &mut message.target {
        sse.headers.push(mcp_proxy::proto::Header {
            key: "auth".to_string(),
            value: Some(mcp_proxy::proto::HeaderValue::EnvValue {
                name: "TOKEN".to_string(),
                found: Some("secret".to_string()),
            }),
        });
    }
    store.insert(message.clone()).unwrap();
    assert_eq!(store.get_proto("t1"), Some(&message));
    match &store.get("t1").unwrap().0.spec {
        TargetSpec::Sse { headers, .. } => {
            assert_eq!(headers.get("auth").map(|s| s.as_str()), Some("secret"));
        }
        other => panic!("not an sse target: {:?}", other),
    }
}

#[test]
fn xds_store_new_is_empty() {
    let store = XdsStore::new();
    assert_eq!(store.targets.len(), 0);
    assert!(store.policies.get_proto("p").is_none());
}

fn store_is_shareable<T: Send + Sync>() {}

#[test]
fn stores_can_be_shared_between_tasks() {
    store_is_shareable::<XdsStore>();
    store_is_shareable::<TargetStore>();
    store_is_shareable::<PolicyStore>();
}

#[test]
fn snapshots_list_every_message_by_name() {
    let mut state = XdsStore::new();
    state.targets.insert(store_sse("b", 1)).unwrap();
    state.targets.insert(store_sse("a", 2)).unwrap();
    state.policies.insert(store_policy("p", "a", "u")).unwrap();
    let targets = state.targets.snapshot();
    assert_eq!(targets.len(), 2);
    assert_eq!(targets[0].0, "b");
    assert_eq!(targets[0].1, &store_sse("b", 1));
    assert_eq!(targets[1].0, "a");
    assert_eq!(targets[1].1, &store_sse("a", 2));
    let policies = state.policies.snapshot();
    assert_eq!(policies.len(), 1);
    assert_eq!(policies[0].0, "p");
    assert_eq!(policies[0].1, &store_policy("p", "a", "u"));
    assert_eq!(state.policies.len(), 1);
}

#[test]
fn default_stores_are_empty() {
    assert_eq!(TargetStore::default().len(), 0);
    assert_eq!(PolicyStore::default().len(), 0);
}

#[test]
fn backlog_of_the_change_channel_can_be_chosen() {
    assert!(TargetStore::with_backlog(0).is_none());
    assert!(TargetStore::with_backlog(usize::MAX).is_none());
    assert!(TargetStore::with_backlog(usize::MAX / 2 + 1).is_none());
    let mut store = TargetStore::with_backlog(2).unwrap();
    let mut rx = store.subscribe();
    for i in 0..5 {
        store.insert(store_sse(&format!("t{}", i), 80)).unwrap();
    }
    assert!(matches!(rx.try_recv(), Err(TryRecvError::Lagged(3))));
    assert_eq!(rx.try_recv().unwrap(), "t3");
    assert_eq!(rx.try_recv().unwrap(), "t4");
    assert_eq!(store.len(), 5);
}

#[test]
fn backlog_that_is_no_power_of_two_keeps_up_to_the_next_one() {
    // a capacity of 3 is asked for; the channel keeps 4
    let mut store = TargetStore::with_backlog(3).unwrap();
    let mut rx = store.subscribe();
    for i in 0..6 {
        store.insert(store_sse(&format!("t{}", i), 80)).unwrap();
    }
    assert!(matches!(rx.try_recv(), Err(TryRecvError::Lagged(2))));
    assert_eq!(rx.try_recv().unwrap(), "t2");
    assert_eq!(rx.try_recv().unwrap(), "t3");
    assert_eq!(rx.try_recv().unwrap(), "t4");
    assert_eq!(rx.try_recv().unwrap(), "t5");
    assert!(matches!(rx.try_recv(), Err(TryRecvError::Empty)));
    // no fewer than asked for are kept
    let mut store = TargetStore::with_backlog(3).unwrap();
    let mut rx = store.subscribe();
    for i in 0..3 {
        store.insert(store_sse(&format!("t{}", i), 80)).unwrap();
    }
    assert_eq!(rx.try_recv().unwrap(), "t0");
}

#[test]
fn subscriber_listens_on_the_channel_of_its_own_store() {
    let mut one = TargetStore::new();
    let mut other = TargetStore::new();
    let mut rx_one = one.subscribe();
    let mut rx_other = other.subscribe();
    one.insert(store_sse("a", 1)).unwrap();
    assert_eq!(rx_one.try_recv().unwrap(), "a");
    assert!(matches!(rx_other.try_recv(), Err(TryRecvError::Empty)));
    other.remove("b");
    assert_eq!(rx_other.try_recv().unwrap(), "b");
    assert!(matches!(rx_one.try_recv(), Err(TryRecvError::Empty)));
    // nothing is pending for one who subscribes later
    let mut late = one.subscribe();
    assert!(matches!(late.try_recv(), Err(TryRecvError::Empty)));
}

#[test]
fn inserts_of_distinct_names_are_listed_once_each_in_order() {
    let mut store = TargetStore::new();
    let n = 25;
    for i in 0..n {
        store.insert(store_sse(&format!("t{}", i), 1 + i as u32)).unwrap();
    }
    let all = store.iter();
    assert_eq!(all.len(), n);
    assert_eq!(store.len(), n);
    for (i, (name, target, _)) in all.iter().enumerate() {
        assert_eq!(name, &format!("t{}", i));
        assert_eq!(&target.name, name);
    }
}

#[test]
fn policy_names_are_listed_in_the_order_of_the_last_insert() {
    let mut store = PolicyStore::new();
    assert!(store.snapshot().is_empty());
    store.insert(store_policy("b", "t", "u")).unwrap();
    store.insert(store_policy("a", "t", "u")).unwrap();
    store.insert(store_policy("c", "t", "u")).unwrap();
    store.insert(store_policy("b", "t", "v")).unwrap();
    store.remove("a");
    let names: Vec<String> = store.snapshot().into_iter().map(|(name, _)| name).collect();
    assert_eq!(names, vec!["c", "b"]);
    store.clear();
    assert!(store.snapshot().is_empty());
}
