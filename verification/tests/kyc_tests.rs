use yoroi::kyc::Service;

#[test]
fn ping_answers_pong() {
    assert_eq!(Service::default().ping_reply(), "pong");
}

#[test]
fn completed_registration_reply() {
    assert_eq!(
        Service::default().register_reply(),
        "Account created successfully"
    );
}

#[test]
fn registration_is_refused_when_the_account_exists() {
    let svc = Service::default();
    assert_eq!(
        svc.registration_gate(200),
        Err("user already exist".to_string())
    );
    assert_eq!(svc.registration_gate(404), Ok(()));
    assert_eq!(svc.registration_gate(500), Ok(()));
}

#[test]
fn insert_payload_is_the_expected_json() {
    let svc = Service::default();
    assert_eq!(
        svc.insert_payload("acme@gmail.com", "HASH"),
        "{\"email\": \"acme@gmail.com\", \"password\": \"HASH\"}"
    );
}

#[test]
fn insert_gate_accepts_success_only() {
    let svc = Service::default();
    assert_eq!(svc.insert_gate(200), Ok(()));
    assert_eq!(svc.insert_gate(201), Err("err".to_string()));
    assert_eq!(svc.insert_gate(500), Err("err".to_string()));
}
