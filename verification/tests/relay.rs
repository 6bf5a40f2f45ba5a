use mcp_proxy::outbound::TargetSpec;
use mcp_proxy::proto::{XdsClaim, XdsRbac, XdsResource as WireResource, XdsRule, XdsSse, XdsTarget, XdsTargetSpec};
use mcp_proxy::rbac::{Identity, ResourceKind};
use mcp_proxy::relay::{refuse, route, settle, Outcome, RelayError, Request, Response, Route};
use mcp_proxy::xds::types::{XdsResource, XdsUpdate};
use mcp_proxy::xds::{ProxyStateUpdateMutator, XdsStore};

fn relay_sse(name: &str, port: u32) -> XdsTarget {
    XdsTarget {
        name: name.to_string(),
        target: Some(XdsTargetSpec::Sse(XdsSse {
            host: "host".to_string(),
            port,
            path: "/path".to_string(),
            headers: vec![],
            auth: None,
        })),
    }
}

fn relay_policy(name: &str, target: &str, claims: &[(&str, &str)]) -> XdsRbac {
    XdsRbac {
        name: name.to_string(),
        rules: vec![XdsRule {
            resource: Some(WireResource { kind: 0, name: target.to_string() }),
            claims: claims
                .iter()
                .map(|(k, v)| XdsClaim { key: k.to_string(), value: v.to_string() })
                .collect(),
        }],
    }
}

fn relay_caller(sub: &str) -> Identity {
    let mut id = Identity::new();
    id.set_claim("sub".to_string(), sub.to_string());
    id
}

fn relay_request(target: &str, operation: &str) -> Request {
    Request {
        kind: ResourceKind::Tool,
        target: target.to_string(),
        operation: operation.to_string(),
        args: vec![1, 2, 3],
    }
}

fn relay_port(route: &Route) -> u32 {
    match route {
        Route::Forward { target, .. } => match &target.spec {
            TargetSpec::Sse { port, .. } => *port,
            other => panic!("not an sse target: {:?}", other),
        },
        other => panic!("not forwarded: {:?}", other),
    }
}

#[test]
fn static_bootstrap_single_sse_target_permissive_policy() {
    let updater = ProxyStateUpdateMutator {};
    let mut state = XdsStore::new();
    let targets = vec![XdsUpdate::Update(XdsResource {
        name: "t1".to_string(),
        resource: relay_sse("t1", 3000),
    })];
    let policies = vec![XdsUpdate::Update(XdsResource {
        name: "all".to_string(),
        resource: relay_policy("all", "t1", &[]),
    })];
    assert!(updater.handle_targets(&mut state, targets).is_ok());
    assert!(updater.handle_rbac(&mut state, policies).is_ok());

    match route(&state, &relay_request("t1", "ping"), &relay_caller("u")) {
        Route::Forward { target, cancel } => {
            assert_eq!(target.name, "t1");
            match target.spec {
                TargetSpec::Sse { host, port, path, .. } => {
                    assert_eq!(host, "host");
                    assert_eq!(port, 3000);
                    assert_eq!(path, "/path");
                }
                other => panic!("not an sse target: {:?}", other),
            }
            assert!(!cancel.is_cancelled());
        }
        other => panic!("not forwarded: {:?}", other),
    }
    let payload = vec![9u8, 8, 7];
    assert_eq!(
        settle(Outcome::Completed(Ok(payload.clone()))),
        Response::Success(payload)
    );
}

#[test]
fn route_refuses_a_target_that_is_not_held() {
    let state = XdsStore::new();
    let r = route(&state, &relay_request("t1", "ping"), &relay_caller("u"));
    assert!(matches!(r, Route::Refuse(RelayError::NotFound)));
}

#[test]
fn route_looks_for_the_target_before_it_asks_the_policies() {
    let mut state = XdsStore::new();
    state.policies.insert(relay_policy("p", "t1", &[])).unwrap();
    let r = route(&state, &relay_request("t1", "ping"), &relay_caller("u"));
    assert!(matches!(r, Route::Refuse(RelayError::NotFound)));
}

#[test]
fn route_refuses_where_no_policy_permits() {
    let mut state = XdsStore::new();
    state.targets.insert(relay_sse("t1", 80)).unwrap();
    let r = route(&state, &relay_request("t1", "ping"), &relay_caller("u"));
    assert!(matches!(r, Route::Refuse(RelayError::PermissionDenied)));
    state.policies.insert(relay_policy("p", "t2", &[])).unwrap();
    let r = route(&state, &relay_request("t1", "ping"), &relay_caller("u"));
    assert!(matches!(r, Route::Refuse(RelayError::PermissionDenied)));
}

#[test]
fn rbac_change_without_target_change() {
    let mut state = XdsStore::new();
    state.targets.insert(relay_sse("t1", 80)).unwrap();
    state.policies.insert(relay_policy("p", "t1", &[("sub", "A")])).unwrap();
    let signal = state.targets.get("t1").unwrap().1.clone();
    assert!(matches!(
        route(&state, &relay_request("t1", "ping"), &relay_caller("B")),
        Route::Refuse(RelayError::PermissionDenied)
    ));
    assert!(matches!(
        route(&state, &relay_request("t1", "ping"), &relay_caller("A")),
        Route::Forward { .. }
    ));
    let updater = ProxyStateUpdateMutator {};
    let pushed = vec![XdsUpdate::Update(XdsResource {
        name: "pb".to_string(),
        resource: relay_policy("pb", "t1", &[("sub", "B")]),
    })];
    assert!(updater.handle_rbac(&mut state, pushed).is_ok());
    assert!(matches!(
        route(&state, &relay_request("t1", "ping"), &relay_caller("B")),
        Route::Forward { .. }
    ));
    // the target was not touched
    assert!(!signal.is_cancelled());
}

#[test]
fn forwarded_call_is_bound_to_the_signal_of_the_entry() {
    let mut state = XdsStore::new();
    state.targets.insert(relay_sse("t1", 80)).unwrap();
    state.policies.insert(relay_policy("p", "t1", &[])).unwrap();
    let cancel = match route(&state, &relay_request("t1", "ping"), &relay_caller("u")) {
        Route::Forward { cancel, .. } => cancel,
        other => panic!("not forwarded: {:?}", other),
    };
    assert!(cancel == *state.targets.get("t1").unwrap().1);
    assert!(!cancel.is_cancelled());
    state.targets.remove("t1");
    assert!(cancel.is_cancelled());
}

#[test]
fn readers_before_a_replacement_hold_the_old_target_and_are_aborted() {
    let mut state = XdsStore::new();
    state.targets.insert(relay_sse("t1", 1)).unwrap();
    state.policies.insert(relay_policy("p", "t1", &[])).unwrap();
    let before: Vec<Route> = (0..100)
        .map(|_| route(&state, &relay_request("t1", "ping"), &relay_caller("u")))
        .collect();
    let updater = ProxyStateUpdateMutator {};
    let batch = vec![XdsUpdate::Update(XdsResource {
        name: "t1".to_string(),
        resource: relay_sse("t1", 2),
    })];
    assert!(updater.handle_targets(&mut state, batch).is_ok());
    let after: Vec<Route> = (0..100)
        .map(|_| route(&state, &relay_request("t1", "ping"), &relay_caller("u")))
        .collect();
    for r in &before {
        assert_eq!(relay_port(r), 1);
        match r {
            Route::Forward { cancel, .. } => assert!(cancel.is_cancelled()),
            other => panic!("not forwarded: {:?}", other),
        }
    }
    for r in &after {
        assert_eq!(relay_port(r), 2);
        match r {
            Route::Forward { cancel, .. } => assert!(!cancel.is_cancelled()),
            other => panic!("not forwarded: {:?}", other),
        }
    }
}

#[test]
fn settle_relays_what_the_target_answered() {
    assert_eq!(settle(Outcome::Completed(Ok(vec![]))), Response::Success(vec![]));
    assert_eq!(
        settle(Outcome::Completed(Err("boom".to_string()))),
        Response::Failure("boom".to_string())
    );
    assert_eq!(settle(Outcome::Cancelled), Response::Error(RelayError::TargetGone));
}

#[test]
fn refuse_answers_with_the_error() {
    assert_eq!(refuse(RelayError::NotFound), Response::Error(RelayError::NotFound));
    assert_eq!(
        refuse(RelayError::PermissionDenied),
        Response::Error(RelayError::PermissionDenied)
    );
}

#[test]
fn relay_error_in_words() {
    assert_eq!(RelayError::NotFound.message(), "target not found");
    assert_eq!(RelayError::PermissionDenied.message(), "permission denied");
    assert_eq!(RelayError::TargetGone.message(), "target gone");
}
