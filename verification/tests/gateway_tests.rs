use yoroi::gateway::{
    decision_response, route_request, split_path, GatewayAction, GatewayEvent, GatewayPhase,
    GatewayState, OneShot, RouteDecision,
};
use yoroi::registry::ServiceRegistry;
use yoroi::Yoroi;

#[test]
fn split_path_takes_first_segment_and_remainder() {
    let (key, rest) = split_path("/svc/health");
    assert_eq!(key, "svc");
    assert_eq!(rest, "/health");

    let (key, rest) = split_path("/svc");
    assert_eq!(key, "svc");
    assert_eq!(rest, "/");

    let (key, rest) = split_path("svc/a/b");
    assert_eq!(key, "svc");
    assert_eq!(rest, "/a/b");

    let (key, rest) = split_path("/");
    assert_eq!(key, "");
    assert_eq!(rest, "/");
}

#[test]
fn unknown_routing_key_gets_empty_success_response() {
    // no registration exists for id "ghost"
    let reg = ServiceRegistry::new();
    let d = route_request(&reg, false, "/ghost/anything", None);
    assert!(matches!(d, RouteDecision::NoRoute));
    let (status, body) = decision_response(&d).unwrap();
    assert_eq!(status, 200);
    assert_eq!(body, "");
}

#[test]
fn registered_key_forwards_with_segment_stripped() {
    let mut reg = ServiceRegistry::new();
    reg.register_service(
        "svc".to_string(),
        "Svc".to_string(),
        vec!["127.0.0.1:9100".to_string()],
    );
    let d = route_request(&reg, false, "/svc/health", None);
    match &d {
        RouteDecision::Forward { endpoint, path } => {
            assert_eq!(endpoint, "127.0.0.1:9100");
            assert_eq!(path, "/health");
        }
        other => panic!("expected a forward, got {:?}", other),
    }
    assert!(decision_response(&d).is_none());
}

#[test]
fn endpointless_key_is_a_routing_miss() {
    let mut reg = ServiceRegistry::new();
    reg.register_service("svc".to_string(), "Svc".to_string(), vec![]);
    let d = route_request(&reg, false, "/svc/x", None);
    assert!(matches!(d, RouteDecision::NoRoute));
}

#[test]
fn connect_with_valid_authority_tunnels_to_it() {
    let mut reg = ServiceRegistry::new();
    reg.register_service(
        "svc".to_string(),
        "Svc".to_string(),
        vec!["10.0.0.1:1".to_string()],
    );
    let d = route_request(&reg, true, "/svc/x", Some("93.184.216.34:443"));
    match &d {
        RouteDecision::Tunnel { target } => assert_eq!(target, "93.184.216.34:443"),
        other => panic!("expected a tunnel, got {:?}", other),
    }
    let (status, body) = decision_response(&d).unwrap();
    assert_eq!(status, 200);
    assert_eq!(body, "");
}

#[test]
fn connect_with_bad_authority_gets_client_error() {
    let mut reg = ServiceRegistry::new();
    reg.register_service(
        "svc".to_string(),
        "Svc".to_string(),
        vec!["10.0.0.1:1".to_string()],
    );
    for authority in [Some("example.com:443"), Some("not an address"), None] {
        let d = route_request(&reg, true, "/svc/x", authority);
        assert!(matches!(d, RouteDecision::BadConnect));
        let (status, body) = decision_response(&d).unwrap();
        assert_eq!(status, 400);
        assert_eq!(body, "CONNECT must be to a socket address");
    }
}

#[test]
fn shutdown_wins_the_race_and_stops_acceptance() {
    let mut st = GatewayState::new();
    assert_eq!(st.phase, GatewayPhase::Idle);
    assert_eq!(st.on_event(GatewayEvent::Started), GatewayAction::Ignore);
    assert_eq!(st.phase, GatewayPhase::Serving);

    assert_eq!(
        st.on_event(GatewayEvent::ConnectionReady),
        GatewayAction::AcceptAndSpawn
    );
    assert_eq!(st.pending, 1);

    assert_eq!(
        st.on_event(GatewayEvent::ShutdownReceived),
        GatewayAction::ExitAcceptLoop
    );
    assert_eq!(st.phase, GatewayPhase::Draining);

    // a connection arriving strictly after the shutdown is never accepted
    assert_eq!(
        st.on_event(GatewayEvent::ConnectionReady),
        GatewayAction::Ignore
    );
    assert_eq!(st.pending, 1);
    assert_eq!(st.phase, GatewayPhase::Draining);

    // serve returns only once the accepted connection's task finished
    assert_eq!(st.on_event(GatewayEvent::TaskFinished), GatewayAction::Ignore);
    assert_eq!(st.phase, GatewayPhase::Stopped);
    assert_eq!(st.pending, 0);
}

#[test]
fn shutdown_with_nothing_pending_stops_at_once() {
    let mut st = GatewayState::new();
    st.on_event(GatewayEvent::Started);
    assert_eq!(
        st.on_event(GatewayEvent::ShutdownReceived),
        GatewayAction::ExitAcceptLoop
    );
    assert_eq!(st.phase, GatewayPhase::Stopped);
    assert_eq!(st.pending, 0);
}

#[test]
fn accept_failure_keeps_the_loop_serving() {
    let mut st = GatewayState::new();
    st.on_event(GatewayEvent::Started);
    assert_eq!(st.on_event(GatewayEvent::AcceptFailed), GatewayAction::Ignore);
    assert_eq!(st.phase, GatewayPhase::Serving);
}

#[test]
fn shutdown_slot_delivers_exactly_once() {
    let mut slot = OneShot::new();
    assert!(slot.request());
    assert!(!slot.request());
    assert!(!slot.request());
}

#[test]
fn yoroi_embeds_a_fresh_server() {
    let mut yr = Yoroi::new("127.0.0.1:8000".to_string());
    assert_eq!(yr.address, "127.0.0.1:8000");
    assert_eq!(yr.server.state.phase, GatewayPhase::Idle);
    yr.registry().register_service(
        "kyc.Kyc".to_string(),
        "kyc".to_string(),
        vec!["localhost:50051".to_string()],
    );
    assert_eq!(yr.server.registry.get_all_services().len(), 1);
}
