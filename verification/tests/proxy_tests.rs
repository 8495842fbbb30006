use snare::authority::{load_ca, Authority};
use snare::connect::{connect_established_reply, parse_connect, strip_port, Handshake};
use snare::errors::HandshakeError;
use snare::flow::FlowLog;
use snare::forward::{plan_forward, Method};
use snare::gate::{accept_step, toggle_intercept, AcceptAction, InterceptGate};
use snare::script::{AppendScript, RefuseScript, Registry};
use snare::session::{capture_request, capture_response, CycleError};

fn test_authority() -> Authority {
    let key = rcgen::KeyPair::generate().unwrap();
    let params = rcgen::CertificateParams::new(Vec::<String>::new()).unwrap();
    let cert = params.self_signed(&key).unwrap();
    load_ca(&key.serialize_pem(), &cert.pem()).unwrap()
}

#[test]
fn minted_certificate_is_bound_to_connect_host() {
    // A valid CONNECT names host:port; the leaf must carry the bare host.
    let authority = test_authority();
    let hs = Handshake::new().on_connect("CONNECT example.com:443 HTTP/1.1\r\n\r\n", &authority);
    match hs {
        Handshake::Established { ref host, ref leaf } => {
            assert_eq!(host, "example.com");
            assert_eq!(leaf.host, "example.com");
            assert!(!leaf.cert_der.is_empty());
            assert!(!leaf.key_der.is_empty());
        }
        _ => panic!("handshake did not reach Established"),
    }
}

#[test]
fn malformed_connect_fails_tunnel() {
    let authority = test_authority();
    let hs = Handshake::new().on_connect("GET / HTTP/1.1\r\n\r\n", &authority);
    assert!(matches!(
        hs,
        Handshake::Failed { error: HandshakeError::MalformedConnect }
    ));
}

#[test]
fn unmintable_host_fails_with_certificate_error() {
    // The CONNECT parses, but its host cannot be encoded as a SAN.
    let authority = test_authority();
    let hs = Handshake::new().on_connect("CONNECT exämple.com:443 HTTP/1.1\r\n\r\n", &authority);
    assert!(matches!(
        hs,
        Handshake::Failed { error: HandshakeError::CertificateError }
    ));
}

#[test]
fn connect_without_target_fails() {
    assert_eq!(
        parse_connect("CONNECT"),
        Err(HandshakeError::MalformedConnect)
    );
}

#[test]
fn strip_port_cuts_at_first_colon() {
    assert_eq!(strip_port("example.com:443"), "example.com");
    assert_eq!(strip_port("example.com"), "example.com");
}

#[test]
fn tls_failure_closes_tunnel() {
    let authority = test_authority();
    let hs = Handshake::new()
        .on_connect("CONNECT h:443 x\r\n\r\n", &authority)
        .on_tls_result(false);
    assert!(matches!(
        hs,
        Handshake::Failed { error: HandshakeError::TlsError }
    ));
}

#[test]
fn gate_controls_accepting() {
    // Scenario: while the intercept flag is off, the accept loop services
    // nothing; toggling it on takes effect at the next poll.
    let mut gate = InterceptGate::new();
    assert_eq!(accept_step(&gate), AcceptAction::Pause);
    assert_eq!(accept_step(&gate), AcceptAction::Pause);
    toggle_intercept(&mut gate, true);
    assert_eq!(accept_step(&gate), AcceptAction::Service);
    toggle_intercept(&mut gate, false);
    assert_eq!(accept_step(&gate), AcceptAction::Pause);
}

#[test]
fn tunnel_cycle_end_to_end() {
    // Scenario: CONNECT, minted certificate, 200 reply, then one GET over
    // the tunnel: a request flow, a forward plan to the real origin, and
    // a paired response flow whose raw bytes go back to the client.
    let authority = test_authority();
    let hs = Handshake::new().on_connect("CONNECT example.com:443 HTTP/1.1\r\n\r\n", &authority);
    assert!(matches!(hs, Handshake::Established { .. }));
    assert_eq!(
        connect_established_reply(),
        "HTTP/1.1 200 Connection Established\r\n\r\n"
    );
    let hs = hs.on_tls_result(true);
    assert!(matches!(hs, Handshake::Open { .. }));

    let registry: Registry<AppendScript> = Registry::new();
    let mut log = FlowLog::new();
    let raw = "GET / HTTP/1.1\r\nHost: example.com\r\n\r\n".to_string();
    let (transformed, flow) = capture_request(&mut log, &registry, raw.clone()).unwrap();
    assert_eq!(transformed, raw);
    assert_eq!(flow.method, "GET");
    assert_eq!(flow.path, "/");
    assert_eq!(flow.host, "example.com");
    assert_eq!(flow.id.len(), 36);
    assert!(log.has_request_for(&flow.id));

    let plan = plan_forward(&transformed).unwrap();
    assert_eq!(plan.method, Method::Get);
    assert_eq!(plan.url, "https://example.com/");
    assert!(plan.body.is_none());

    let response = capture_response(
        &mut log,
        flow.id.clone(),
        "200 OK".to_string(),
        vec![("server".to_string(), "origin".to_string())],
        "hello".to_string(),
    );
    assert_eq!(response.id, flow.id);
    assert_eq!(
        response.raw,
        "HTTP/1.1 200 OK\r\nserver: origin\r\ncontent-length: 5\r\n\r\nhello"
    );
    assert_eq!(log.len(), 2);
}

#[test]
fn fresh_ids_differ_between_requests() {
    let registry: Registry<AppendScript> = Registry::new();
    let mut log = FlowLog::new();
    let raw = "GET / HTTP/1.1\r\n\r\n".to_string();
    let (_, a) = capture_request(&mut log, &registry, raw.clone()).unwrap();
    let (_, b) = capture_request(&mut log, &registry, raw).unwrap();
    assert_eq!(a.id.len(), 36);
    assert_eq!(b.id.len(), 36);
    assert_ne!(a.id, b.id);
}

#[test]
fn script_failure_emits_nothing_and_tunnel_continues() {
    // Scenario: a registered script fails for one request; that request
    // produces no flow pair and nothing to forward, but the next request
    // on the same tunnel is processed normally.
    let mut registry: Registry<RefuseScript> = Registry::new();
    registry.add_script(RefuseScript { label: "veto".to_string() }, "".to_string());
    let mut log = FlowLog::new();
    let raw = "GET / HTTP/1.1\r\nHost: h\r\n\r\n".to_string();
    match capture_request(&mut log, &registry, raw.clone()) {
        Err(CycleError::Script(pe)) => assert_eq!(pe.script, "veto"),
        other => panic!("expected a script failure, got {:?}", other),
    }
    assert_eq!(log.len(), 0);

    // The operator disables the failing script; the next request passes.
    registry.update_script("veto", "".to_string(), false).unwrap();
    let (transformed, flow) = capture_request(&mut log, &registry, raw.clone()).unwrap();
    assert_eq!(transformed, raw);
    assert_eq!(log.len(), 1);
    assert!(log.has_request_for(&flow.id));
}

#[test]
fn unparseable_transformed_request_emits_nothing() {
    let registry: Registry<AppendScript> = Registry::new();
    let mut log = FlowLog::new();
    match capture_request(&mut log, &registry, "".to_string()) {
        Err(CycleError::Parse(_)) => {}
        other => panic!("expected a parse failure, got {:?}", other),
    }
    assert_eq!(log.len(), 0);
}

#[test]
fn response_follows_its_request_across_interleaving() {
    // Two tunnels interleave on one log; each response still lands after
    // its own request.
    let registry: Registry<AppendScript> = Registry::new();
    let mut log = FlowLog::new();
    let raw = "GET /a HTTP/1.1\r\nHost: one\r\n\r\n".to_string();
    let (_, f1) = capture_request(&mut log, &registry, raw).unwrap();
    let raw = "GET /b HTTP/1.1\r\nHost: two\r\n\r\n".to_string();
    let (_, f2) = capture_request(&mut log, &registry, raw).unwrap();
    let r2 = capture_response(&mut log, f2.id.clone(), "204 No Content".to_string(), vec![], "".to_string());
    let r1 = capture_response(&mut log, f1.id.clone(), "200 OK".to_string(), vec![], "".to_string());
    assert_eq!(r1.id, f1.id);
    assert_eq!(r2.id, f2.id);
    assert_eq!(log.len(), 4);
    assert!(log.has_request_for(&f1.id));
    assert!(log.has_request_for(&f2.id));
}
