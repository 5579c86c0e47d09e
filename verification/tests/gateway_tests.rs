use xnode_demo::gateway::{
    build_remove_container_request, build_set_app_request, ForwardError, ForwardRequest, Gateway,
    PathRule, Request, RequestType, ResponseError, SetApp, StatusClass, generate_owner_secret,
    reclaim_requests, set_controller_request, translate_status,
};
use xnode_demo::config::controller_config;
use xnode_demo::ledger::Ledger;

fn demo_rules() -> Gateway {
    Gateway::new(xnode_demo::gateway::default_rules())
}

fn pool(ids: &[&str]) -> Ledger {
    Ledger::new(ids.iter().map(|s| s.to_string()).collect(), 3600)
}

fn get(node: &str, path: &str) -> Request {
    Request {
        xnode_id: node.to_string(),
        request_type: RequestType::Get { path: path.to_string() },
    }
}

#[test]
fn unknown_node_is_refused() {
    let g = demo_rules();
    let mut l = pool(&["node-a"]);
    let r = g.authorize(&mut l, &get("node-z", "/usage"), &"S".to_string(), 0);
    assert_eq!(r.unwrap_err(), ForwardError::InvalidNode);
}

#[test]
fn path_outside_allow_list_is_refused_whatever_the_state() {
    let g = demo_rules();
    let mut l = pool(&["node-a"]);
    let refused = g.authorize(&mut l, &get("node-a", "/admin/shutdown"), &"S".to_string(), 0);
    assert_eq!(refused.unwrap_err(), ForwardError::PathNotAllowed);

    // The same refusal with a live reservation and the right proof.
    l.reserve(&"node-a".to_string(), &"S".to_string(), 0).unwrap();
    let refused = g.authorize(&mut l, &get("node-a", "/admin/shutdown"), &"S".to_string(), 1);
    assert_eq!(refused.unwrap_err(), ForwardError::PathNotAllowed);
    assert_eq!(refused.unwrap_err().status_class(), StatusClass::BadRequest);
}

#[test]
fn gated_path_without_reservation_is_refused() {
    let g = demo_rules();
    let mut l = pool(&["node-a"]);
    let r = g.authorize(&mut l, &get("node-a", "/config/apps"), &"S".to_string(), 0);
    assert_eq!(r.unwrap_err(), ForwardError::NotReserved);
}

#[test]
fn wrong_proof_is_refused_before_any_network_call() {
    let g = demo_rules();
    let mut l = pool(&["node-a"]);
    l.reserve(&"node-a".to_string(), &"S".to_string(), 0).unwrap();
    let r = g.authorize(&mut l, &get("node-a", "/config/apps"), &"T".to_string(), 10);
    assert_eq!(r.unwrap_err(), ForwardError::OwnershipMismatch);
    assert_eq!(r.unwrap_err().status_class(), StatusClass::BadRequest);
}

#[test]
fn right_proof_passes_the_gate() {
    let g = demo_rules();
    let mut l = pool(&["node-a"]);
    l.reserve(&"node-a".to_string(), &"S".to_string(), 0).unwrap();
    let r = g.authorize(&mut l, &get("node-a", "/config/apps"), &"S".to_string(), 10);
    assert!(r.is_ok());
}

#[test]
fn open_path_needs_no_reservation() {
    let g = demo_rules();
    let mut l = pool(&["node-a"]);
    let r = g.authorize(&mut l, &get("node-a", "/usage"), &"whoever".to_string(), 0);
    assert!(r.is_ok());
}

#[test]
fn first_matching_rule_decides() {
    let g = Gateway::new(vec![
        PathRule { prefix: "/config/public".to_string(), requires_owner: false },
        PathRule { prefix: "/config".to_string(), requires_owner: true },
    ]);
    let mut l = pool(&["node-a"]);
    let open = g.authorize(&mut l, &get("node-a", "/config/public/x"), &"S".to_string(), 0);
    assert!(open.is_ok());
    let gated = g.authorize(&mut l, &get("node-a", "/config/apps"), &"S".to_string(), 0);
    assert_eq!(gated.unwrap_err(), ForwardError::NotReserved);
}

#[test]
fn envelope_carries_its_own_proof() {
    let g = demo_rules();
    let mut l = pool(&["node-a"]);
    l.reserve(&"node-a".to_string(), &"S".to_string(), 0).unwrap();
    let good = ForwardRequest { secret: "S".to_string(), request: get("node-a", "/config/apps") };
    assert!(g.authorize_forward(&mut l, &good, 10).is_ok());
    let bad = ForwardRequest { secret: "T".to_string(), request: get("node-a", "/config/apps") };
    assert_eq!(
        g.authorize_forward(&mut l, &bad, 10).unwrap_err(),
        ForwardError::OwnershipMismatch
    );
}

#[test]
fn remote_status_is_relayed_verbatim() {
    let r = translate_status(404, "not here".to_string()).unwrap();
    assert_eq!(r.status, 404);
    assert_eq!(r.body, "not here");
    let ok = translate_status(200, "fine".to_string()).unwrap();
    assert_eq!(ok.status, 200);
    assert_eq!(ok.body, "fine");
}

#[test]
fn status_outside_protocol_range_is_an_internal_fault() {
    let low = translate_status(99, "x".to_string());
    assert_eq!(low.unwrap_err(), ForwardError::InvalidUpstreamStatus);
    let high = translate_status(600, "x".to_string());
    assert_eq!(high.unwrap_err(), ForwardError::InvalidUpstreamStatus);
    assert_eq!(
        translate_status(0, String::new()).unwrap_err().status_class(),
        StatusClass::InternalError
    );
    assert!(translate_status(100, String::new()).is_ok());
    assert!(translate_status(599, String::new()).is_ok());
}

#[test]
fn url_joins_node_and_path() {
    let req = get("https://manager.node-a.example", "/usage");
    assert_eq!(req.url(), "https://manager.node-a.example//usage");
    let plain = get("node-a", "usage");
    assert_eq!(plain.url(), "node-a/usage");
}

#[test]
fn owner_secret_is_64_hex_characters_and_fresh() {
    let a = generate_owner_secret();
    let b = generate_owner_secret();
    assert_eq!(a.len(), 64);
    assert!(a.chars().all(|c| c.is_ascii_hexdigit() && !c.is_ascii_uppercase()));
    assert_ne!(a, b);
}

#[test]
fn deploy_request_derives_container_from_secret() {
    let set = SetApp {
        xnode_id: "node-a".to_string(),
        secret: "abc/123".to_string(),
        flake: "{ nixpkgs }: {}".to_string(),
    };
    let req = build_set_app_request(&set);
    assert_eq!(req.xnode_id, "node-a");
    match req.request_type {
        RequestType::Post { path, body } => {
            assert_eq!(path, "/config/container:abc123");
            assert_eq!(body, "{ nixpkgs }: {}");
        }
        RequestType::Get { .. } => panic!("deploy must be a write"),
    }
}

#[test]
fn reclamation_tears_down_every_container() {
    let containers = vec!["one".to_string(), "two".to_string()];
    let reqs = reclaim_requests(&"node-a".to_string(), &containers);
    assert_eq!(reqs.len(), 2);
    match &reqs[0].request_type {
        RequestType::Post { path, body } => {
            assert_eq!(path, "/config/container:one/remove");
            assert_eq!(body, "");
        }
        RequestType::Get { .. } => panic!("teardown must be a write"),
    }
    match &reqs[1].request_type {
        RequestType::Post { path, .. } => assert_eq!(path, "/config/container:two/remove"),
        RequestType::Get { .. } => panic!("teardown must be a write"),
    }
    let single = build_remove_container_request(&"node-a".to_string(), &"one".to_string());
    assert_eq!(single.xnode_id, "node-a");
}

#[test]
fn controller_install_carries_the_access_grant() {
    let node = "node-a.example".to_string();
    let req = set_controller_request(&node, Some("eth:abc".to_string()));
    assert_eq!(req.xnode_id, "node-a.example");
    match req.request_type {
        RequestType::Post { path, body } => {
            assert_eq!(path, "/config/controller");
            let grant = controller_config(
                &"https://manager.node-a.example".to_string(),
                &"eth:abc".to_string(),
            );
            assert_eq!(body, grant);
            assert!(body.contains("manager.node-a.example"));
        }
        RequestType::Get { .. } => panic!("a controller install must be a write"),
    }
}

#[test]
fn controller_removal_carries_an_empty_grant() {
    let req = set_controller_request(&"node-a.example".to_string(), None);
    match req.request_type {
        RequestType::Post { path, body } => {
            assert_eq!(path, "/config/controller");
            assert_eq!(body, "");
        }
        RequestType::Get { .. } => panic!("a controller removal must be a write"),
    }
}

#[test]
fn refusals_carry_safe_messages() {
    assert_eq!(ForwardError::InvalidNode.message(), "Invalid Xnode id.");
    assert_eq!(ForwardError::PathNotAllowed.message(), "Invalid request path.");
    assert_eq!(ForwardError::NotReserved.message(), "Xnode is not reserved.");
    assert_eq!(
        ForwardError::OwnershipMismatch.message(),
        "Xnode is reserved by someone else."
    );
    assert_eq!(
        ForwardError::InvalidUpstreamStatus.message(),
        "Request could not be completed."
    );
    let payload = ResponseError::new("Xnode is not reserved.");
    assert_eq!(payload.message, "Xnode is not reserved.");
}
