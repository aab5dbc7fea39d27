use eck::handlers::{health, mark_offline_nodes, mesh_status, register, resolve_node};
use eck::models::{NodeState, RegisterRequest, RelayError};
use eck::registry::{describe_state, parse_state, Registry, STALE_AFTER_SECONDS};

fn beat(instance: &str, mesh: &str, ip: &str, port: u16, status: Option<&str>) -> RegisterRequest {
    RegisterRequest {
        instance_id: instance.to_string(),
        mesh_id: mesh.to_string(),
        external_ip: ip.to_string(),
        port,
        status: status.map(|s| s.to_string()),
    }
}

#[test]
fn heartbeat_then_demotion_then_recovery() {
    let mut reg = Registry::new();
    let r = reg.heartbeat_at(1000, beat("d1", "m1", "10.0.0.1", 4000, None));
    assert!(r.ok);
    assert_eq!(r.status, "online");
    assert_eq!(r.instance_id, "d1");
    assert_eq!(r.mesh_id, "m1");
    // beyond the twenty-minute threshold
    assert_eq!(reg.demote_stale_at(1000 + 1201, STALE_AFTER_SECONDS), 1);
    let nodes = reg.query(&"m1".to_string());
    assert_eq!(nodes.len(), 1);
    assert_eq!(nodes[0].instance_id, "d1");
    assert_eq!(nodes[0].status, "offline");
    reg.heartbeat_at(2202, beat("d1", "m1", "10.0.0.1", 4000, None));
    let nodes = reg.query(&"m1".to_string());
    assert_eq!(nodes.len(), 1);
    assert_eq!(nodes[0].status, "online");
    assert_eq!(nodes[0].last_seen, 2202);
}

#[test]
fn repeated_heartbeats_keep_one_row() {
    let mut reg = Registry::new();
    reg.heartbeat_at(10, beat("d1", "m1", "1.2.3.4", 1, None));
    reg.heartbeat_at(20, beat("d1", "m1", "1.2.3.4", 1, None));
    reg.heartbeat_at(30, beat("d1", "m1", "1.2.3.4", 1, None));
    assert_eq!(reg.len(), 1);
    let nodes = reg.query(&"m1".to_string());
    assert_eq!(nodes.len(), 1);
    assert_eq!(nodes[0].last_seen, 30);
    assert_eq!(nodes[0].status, "online");
}

#[test]
fn heartbeat_overwrites_reachability() {
    let mut reg = Registry::new();
    reg.heartbeat_at(10, beat("d1", "m1", "1.2.3.4", 1, None));
    reg.heartbeat_at(11, beat("d1", "m1", "5.6.7.8", 2, None));
    let n = reg.resolve(&"m1".to_string(), &"d1".to_string()).unwrap();
    assert_eq!(n.external_ip, "5.6.7.8");
    assert_eq!(n.port, 2);
}

#[test]
fn demotion_leaves_recent_and_offline_alone() {
    let mut reg = Registry::new();
    reg.heartbeat_at(0, beat("old", "m1", "ip", 1, None));
    reg.heartbeat_at(0, beat("gone", "m1", "ip", 1, Some("offline")));
    reg.heartbeat_at(0, beat("drain", "m1", "ip", 1, Some("draining")));
    reg.heartbeat_at(1900, beat("fresh", "m1", "ip", 1, None));
    assert_eq!(reg.demote_stale_at(2000, 1200), 1);
    let find = |id: &str| reg.resolve(&"m1".to_string(), &id.to_string()).unwrap().status;
    assert_eq!(find("old"), "offline");
    assert_eq!(find("gone"), "offline");
    assert_eq!(find("drain"), "draining");
    assert_eq!(find("fresh"), "online");
    // nothing is stale any more
    assert_eq!(reg.demote_stale_at(2000, 1200), 0);
}

#[test]
fn demotion_threshold_is_strict() {
    let mut reg = Registry::new();
    reg.heartbeat_at(0, beat("d", "m", "ip", 1, None));
    assert_eq!(reg.demote_stale_at(1200, 1200), 0);
    assert_eq!(reg.demote_stale_at(1201, 1200), 1);
}

#[test]
fn query_orders_most_recent_first() {
    let mut reg = Registry::new();
    reg.heartbeat_at(5, beat("a", "m", "ip", 1, None));
    reg.heartbeat_at(9, beat("b", "m", "ip", 1, None));
    reg.heartbeat_at(7, beat("c", "m", "ip", 1, None));
    let ids: Vec<String> = reg.query(&"m".to_string()).into_iter().map(|n| n.instance_id).collect();
    assert_eq!(ids, vec!["b".to_string(), "c".to_string(), "a".to_string()]);
}

#[test]
fn empty_mesh_query_is_empty() {
    let reg = Registry::new();
    assert!(reg.query(&"nobody".to_string()).is_empty());
    let r = mesh_status(&reg, "nobody".to_string());
    assert_eq!(r.mesh_id, "nobody");
    assert!(r.nodes.is_empty());
}

#[test]
fn meshes_are_isolated() {
    let mut reg = Registry::new();
    reg.heartbeat_at(1, beat("d1", "A", "1.1.1.1", 1, None));
    reg.heartbeat_at(2, beat("d1", "B", "2.2.2.2", 2, None));
    assert_eq!(reg.len(), 2);
    let a = reg.query(&"A".to_string());
    assert_eq!(a.len(), 1);
    assert_eq!(a[0].external_ip, "1.1.1.1");
    let b = reg.resolve(&"B".to_string(), &"d1".to_string()).unwrap();
    assert_eq!(b.external_ip, "2.2.2.2");
}

#[test]
fn resolve_unknown_is_not_found() {
    let mut reg = Registry::new();
    assert!(reg.resolve(&"m".to_string(), &"x".to_string()).is_none());
    register(&mut reg, beat("x", "m", "ip", 9, None));
    assert!(resolve_node(&reg, "m".to_string(), "x".to_string()).is_ok());
    assert_eq!(resolve_node(&reg, "m".to_string(), "y".to_string()).err(), Some(RelayError::NotFound));
    assert_eq!(resolve_node(&reg, "n".to_string(), "x".to_string()).err(), Some(RelayError::NotFound));
}

#[test]
fn register_with_clock_and_sweep_recent() {
    let mut reg = Registry::new();
    let r = register(&mut reg, beat("d1", "m1", "ip", 1, Some("draining")));
    assert_eq!(r.status, "draining");
    assert_eq!(mark_offline_nodes(&mut reg), 0);
    assert_eq!(mesh_status(&reg, "m1".to_string()).nodes[0].status, "draining");
}

#[test]
fn status_text_round_trip() {
    assert!(matches!(parse_state("online".to_string()), NodeState::Online));
    assert!(matches!(parse_state("offline".to_string()), NodeState::Offline));
    assert!(matches!(parse_state("Online".to_string()), NodeState::Other(_)));
    assert_eq!(describe_state(&parse_state("draining".to_string())), "draining");
    assert_eq!(describe_state(&NodeState::Offline), "offline");
}

#[test]
fn health_reports_ok() {
    let h = health();
    assert_eq!(h.status, "ok");
    assert_eq!(h.version, "0.1.0");
}

#[test]
fn heartbeat_last_seen_never_goes_back() {
    let far: i64 = 4_000_000_000;
    let mut reg = Registry::new();
    assert_eq!(reg.latest_time(), i64::MIN);
    reg.heartbeat_at(far, beat("d1", "m1", "ip", 1, None));
    register(&mut reg, beat("d1", "m1", "ip2", 2, None));
    let n = reg.resolve(&"m1".to_string(), &"d1".to_string()).unwrap();
    assert_eq!(n.last_seen, far);
    assert_eq!(n.external_ip, "ip2");
    assert_eq!(reg.len(), 1);
    assert_eq!(reg.latest_time(), far);
}
