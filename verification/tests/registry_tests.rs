use yoroi::registry::{MicroService, ServiceRegistry};

#[test]
fn test_new() {
    ServiceRegistry::default();
}

#[test]
fn test_add_service() {
    let mut srg = ServiceRegistry::default();
    srg.register_service(
        "ping-pong".to_string(),
        "Ping".to_string(),
        vec!["endpoint".to_string()],
    );
    assert_eq!(srg.get_all_services().len(), 1);
}

#[test]
fn register_without_endpoints_is_unresolvable_until_added() {
    let mut r = ServiceRegistry::new();
    r.register_service("svc".to_string(), "Svc".to_string(), vec![]);
    assert!(r.resolve_endpoint("svc".to_string()).is_none());
    r.add_endpoint("svc", "127.0.0.1:9100".to_string());
    assert_eq!(
        r.resolve_endpoint("svc".to_string()),
        Some("127.0.0.1:9100".to_string())
    );
}

#[test]
fn deregister_then_resolve_is_none_despite_other_registrations() {
    let mut r = ServiceRegistry::new();
    r.register_service(
        "a".to_string(),
        "A".to_string(),
        vec!["1.2.3.4:1".to_string()],
    );
    r.deregister_service("a");
    r.register_service(
        "b".to_string(),
        "B".to_string(),
        vec!["1.2.3.4:2".to_string()],
    );
    r.add_endpoint("a", "1.2.3.4:3".to_string());
    assert!(r.resolve_endpoint("a".to_string()).is_none());
    assert!(r.get_service("a").is_none());
    assert!(r.resolve_endpoint("b".to_string()).is_some());
}

#[test]
fn register_merges_endpoints_and_keeps_name() {
    let mut r = ServiceRegistry::new();
    r.register_service(
        "svc".to_string(),
        "First".to_string(),
        vec!["e1".to_string()],
    );
    r.register_service(
        "svc".to_string(),
        "Second".to_string(),
        vec!["e1".to_string(), "e2".to_string()],
    );
    let s: MicroService = r.get_service("svc").unwrap();
    assert_eq!(s.name, "First");
    let mut eps = s.endpoints.clone();
    eps.sort();
    assert_eq!(eps, vec!["e1".to_string(), "e2".to_string()]);
}

#[test]
fn repeated_identical_register_is_idempotent() {
    let mut r = ServiceRegistry::new();
    r.register_service("svc".to_string(), "S".to_string(), vec!["e".to_string()]);
    r.register_service("svc".to_string(), "S".to_string(), vec!["e".to_string()]);
    let s = r.get_service("svc").unwrap();
    assert_eq!(s.endpoints.len(), 1);
    assert_eq!(r.get_all_services().len(), 1);
}

#[test]
fn add_endpoint_for_unknown_id_is_a_silent_noop() {
    let mut r = ServiceRegistry::new();
    r.add_endpoint("ghost", "1.2.3.4:1".to_string());
    assert!(r.get_service("ghost").is_none());
    assert_eq!(r.get_all_services().len(), 0);
}

#[test]
fn deregister_absent_id_is_a_silent_noop() {
    let mut r = ServiceRegistry::new();
    r.deregister_service("missing");
    assert_eq!(r.get_all_services().len(), 0);
}

#[test]
fn resolve_returns_a_member_of_the_endpoint_set() {
    let mut r = ServiceRegistry::new();
    r.register_service(
        "svc".to_string(),
        "S".to_string(),
        vec!["e1".to_string(), "e2".to_string()],
    );
    let e = r.resolve_endpoint("svc".to_string()).unwrap();
    assert!(e == "e1" || e == "e2");
}

#[test]
fn interleavings_on_distinct_ids_reach_the_same_state() {
    // two callers' operations, serialized in either order
    let mut r1 = ServiceRegistry::new();
    r1.register_service("a".to_string(), "A".to_string(), vec!["ea".to_string()]);
    r1.register_service("b".to_string(), "B".to_string(), vec!["eb".to_string()]);

    let mut r2 = ServiceRegistry::new();
    r2.register_service("b".to_string(), "B".to_string(), vec!["eb".to_string()]);
    r2.register_service("a".to_string(), "A".to_string(), vec!["ea".to_string()]);

    assert_eq!(r1.get_all_services().len(), 2);
    assert_eq!(r2.get_all_services().len(), 2);
    for id in ["a", "b"] {
        let s1 = r1.get_service(id).unwrap();
        let s2 = r2.get_service(id).unwrap();
        assert_eq!(s1.name, s2.name);
        assert_eq!(s1.endpoints, s2.endpoints);
    }
}

#[test]
fn get_service_returns_an_owned_snapshot() {
    let mut r = ServiceRegistry::new();
    r.register_service("svc".to_string(), "S".to_string(), vec!["e".to_string()]);
    let snap = r.get_service("svc").unwrap();
    r.add_endpoint("svc", "e2".to_string());
    assert_eq!(snap.endpoints.len(), 1);
    assert_eq!(r.get_service("svc").unwrap().endpoints.len(), 2);
}

#[test]
fn clone_copies_the_registry() {
    let mut r = ServiceRegistry::new();
    r.register_service("svc".to_string(), "S".to_string(), vec!["e".to_string()]);
    let c = r.clone();
    assert_eq!(c.get_all_services().len(), 1);
    assert_eq!(c.get_service("svc").unwrap().name, "S");
}

#[test]
fn ids_compare_by_characters_beyond_ascii() {
    let mut r = ServiceRegistry::new();
    r.register_service("čaj".to_string(), "Tea".to_string(), vec!["e".to_string()]);
    assert!(r.get_service("čaj").is_some());
    assert!(r.get_service("caj").is_none());
    assert!(r.resolve_endpoint("čaj".to_string()).is_some());
}
