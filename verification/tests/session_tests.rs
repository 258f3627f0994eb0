use slipstream::codec::{encode_response, parse_query_name, TunnelDomain};
use slipstream::error::ErrorKind;
use slipstream::forward::{listening_line, may_open_stream, ForwardedStream, RelayAction, RelayEvent};
use slipstream::pinning::PinnedCertificateSet;
use slipstream::session::{
    ready_milestone, ResponseDisposition, SessionAction, SessionEvent, SessionState, TunnelSession,
    RETRY_BUDGET,
};

fn client_session(domain: &[u8], pinned: &[&[u8]]) -> TunnelSession {
    let dom = TunnelDomain::new(domain.to_vec()).unwrap();
    let mut pins = PinnedCertificateSet::new();
    for c in pinned {
        pins.add(c.to_vec());
    }
    TunnelSession::configure(dom, pins).unwrap()
}

#[test]
fn happy_path_reaches_ready_and_relays_bytes() {
    let server_cert: &[u8] = b"server certificate for test.example.com";
    let mut s = client_session(b"test.example.com", &[server_cert]);
    assert_eq!(s.state, SessionState::Idle);

    // No stream can open before the session is Ready; the local TCP
    // listener itself is active from startup and not gated here.
    assert!(!may_open_stream(s.state));
    assert!(ForwardedStream::open(s.state).is_none());

    assert!(matches!(s.step(SessionEvent::BindSucceeded), SessionAction::Proceed));
    assert_eq!(s.state, SessionState::SocketBound);
    assert!(matches!(s.step(SessionEvent::HandshakeStarted), SessionAction::Proceed));
    assert_eq!(s.state, SessionState::Handshaking);
    assert!(ForwardedStream::open(s.state).is_none());

    let action = s.handle_peer_certificate(&server_cert.to_vec());
    assert!(matches!(action, SessionAction::EmitReady));
    assert_eq!(s.state, SessionState::Ready);
    assert_eq!(ready_milestone(), "Connection ready");
    assert!(may_open_stream(s.state));

    // Bytes written to the local TCP socket cross to the QUIC stream
    // unchanged, and the peer's bytes cross back.
    let mut fwd = ForwardedStream::open(s.state).unwrap();
    match fwd.on_event(RelayEvent::LocalBytes(b"request bytes".to_vec())) {
        RelayAction::WriteToStream(w) => assert_eq!(w, b"request bytes".to_vec()),
        _ => panic!("expected a write to the stream"),
    }
    match fwd.on_event(RelayEvent::StreamBytes(b"reply bytes".to_vec())) {
        RelayAction::WriteToLocal(w) => assert_eq!(w, b"reply bytes".to_vec()),
        _ => panic!("expected a write to the local side"),
    }
    assert!(matches!(fwd.on_event(RelayEvent::StreamEnded), RelayAction::CloseBoth));
    assert!(matches!(
        fwd.on_event(RelayEvent::LocalBytes(b"late".to_vec())),
        RelayAction::Ignore
    ));
}

#[test]
fn query_response_cycle_and_idempotent_discard() {
    let mut s = client_session(b"test.example.com", &[]);
    s.step(SessionEvent::BindSucceeded);
    s.step(SessionEvent::HandshakeStarted);

    let dom = TunnelDomain::new(b"test.example.com".to_vec()).unwrap();
    let datagram = b"client hello datagram".to_vec();
    let frame = s.prepare_query(42, &datagram).unwrap();
    assert_eq!(frame.txid, 42);
    assert!(s.is_outstanding(42));

    // A reused transaction identifier is refused while in flight.
    let e = s.prepare_query(42, b"again").unwrap_err();
    assert_eq!(e.kind, ErrorKind::Transport);

    // The server side recovers the datagram and answers under the same
    // transaction identifier.
    let received = parse_query_name(&frame.qname, &dom).unwrap();
    assert_eq!(received, datagram);
    let resp = encode_response(frame.txid, b"server reply datagram");

    match s.handle_response(&resp) {
        ResponseDisposition::Delivered(p) => assert_eq!(p, b"server reply datagram".to_vec()),
        _ => panic!("expected the reply to be delivered"),
    }
    assert!(!s.is_outstanding(42));

    // Resubmitting the same response is a no-op: its identifier matches
    // no outstanding query any more.
    let state_before = s.state;
    let retries_before = s.retries_left;
    assert!(matches!(s.handle_response(&resp), ResponseDisposition::Unmatched));
    assert_eq!(s.state, state_before);
    assert_eq!(s.retries_left, retries_before);

    // A matched response whose payload does not decode is dropped and
    // the query stays in flight.
    let frame2 = s.prepare_query(43, b"second").unwrap();
    let mut bad = encode_response(frame2.txid, b"x");
    bad.answer[0] = b'!';
    match s.handle_response(&bad) {
        ResponseDisposition::Malformed(e) => assert_eq!(e.kind, ErrorKind::Transport),
        _ => panic!("expected a malformed disposition"),
    }
    assert!(s.is_outstanding(43));
}

#[test]
fn pin_mismatch_fails_the_session_and_never_readies() {
    let mut s = client_session(b"alt.example.com", &[b"pinned certificate that will not match"]);
    s.step(SessionEvent::BindSucceeded);
    s.step(SessionEvent::HandshakeStarted);

    let served = b"the certificate alt.example.com actually serves".to_vec();
    match s.handle_peer_certificate(&served) {
        SessionAction::Abort(e) => {
            assert_eq!(e.kind, ErrorKind::Pinning);
            assert_eq!(e.message, "peer certificate matched no pinned certificate");
        },
        _ => panic!("expected the session to abort"),
    }
    assert_eq!(s.state, SessionState::Failed);

    // The local listener may keep accepting, but no stream can ever
    // open on the failed session, so no byte is ever relayed.
    assert!(!may_open_stream(s.state));
    assert!(ForwardedStream::open(s.state).is_none());

    // Failed is absorbing: no later event revives the session.
    s.step(SessionEvent::BindSucceeded);
    s.step(SessionEvent::HandshakeStarted);
    assert!(matches!(
        s.handle_peer_certificate(&served),
        SessionAction::Proceed
    ));
    assert_eq!(s.state, SessionState::Failed);
}

#[test]
fn oversized_domain_fails_before_any_socket_work() {
    let e = TunnelDomain::new(vec![b'x'; 240]).unwrap_err();
    assert_eq!(e.kind, ErrorKind::Configuration);
    assert_eq!(e.message, "Domain name is too long for DNS transport");

    // A domain that floors the budget to zero also fails at setup.
    let dom = TunnelDomain::new(vec![b'x'; 239]).unwrap();
    let e = TunnelSession::configure(dom, PinnedCertificateSet::new()).unwrap_err();
    assert_eq!(e.kind, ErrorKind::Configuration);
    assert_eq!(e.message, "MTU computed to zero; check domain length");
}

#[test]
fn transport_anomalies_are_retried_then_fatal() {
    let mut s = client_session(b"test.example.com", &[]);
    s.step(SessionEvent::BindSucceeded);
    s.step(SessionEvent::HandshakeStarted);
    assert_eq!(s.retries_left, RETRY_BUDGET);
    for left in (0..RETRY_BUDGET).rev() {
        assert!(matches!(
            s.step(SessionEvent::TransportAnomalyObserved),
            SessionAction::Proceed
        ));
        assert_eq!(s.retries_left, left);
        assert_eq!(s.state, SessionState::Handshaking);
    }
    match s.step(SessionEvent::TransportAnomalyObserved) {
        SessionAction::Abort(e) => {
            assert_eq!(e.kind, ErrorKind::Handshake);
            assert_eq!(e.message, "transport anomaly retry budget exhausted");
        },
        _ => panic!("expected the exhausted budget to abort"),
    }
    assert_eq!(s.state, SessionState::Failed);
}

#[test]
fn orderly_close_path() {
    let mut s = client_session(b"test.example.com", &[]);
    s.step(SessionEvent::BindSucceeded);
    s.step(SessionEvent::HandshakeStarted);
    s.handle_peer_certificate(&b"anything, pinning disabled".to_vec());
    assert_eq!(s.state, SessionState::Ready);

    assert!(matches!(s.step(SessionEvent::ShutdownRequested), SessionAction::Proceed));
    assert_eq!(s.state, SessionState::Closing);
    assert!(matches!(s.step(SessionEvent::CloseCompleted), SessionAction::FinishClose));
    assert_eq!(s.state, SessionState::Closed);

    // Closed is terminal too.
    assert!(matches!(s.step(SessionEvent::HandshakeTimedOut), SessionAction::Proceed));
    assert_eq!(s.state, SessionState::Closed);
}

#[test]
fn bind_failure_and_handshake_timeout_are_fatal() {
    let mut s = client_session(b"test.example.com", &[]);
    match s.step(SessionEvent::BindFailed) {
        SessionAction::Abort(e) => {
            assert_eq!(e.kind, ErrorKind::Transport);
            assert_eq!(e.message, "local socket bind failed");
        },
        _ => panic!("expected a fatal bind failure"),
    }
    assert_eq!(s.state, SessionState::Failed);

    let mut s2 = client_session(b"test.example.com", &[]);
    s2.step(SessionEvent::BindSucceeded);
    s2.step(SessionEvent::HandshakeStarted);
    match s2.step(SessionEvent::HandshakeTimedOut) {
        SessionAction::Abort(e) => assert_eq!(e.kind, ErrorKind::Handshake),
        _ => panic!("expected a fatal handshake timeout"),
    }
    assert_eq!(s2.state, SessionState::Failed);
}

#[test]
fn streams_open_only_in_ready() {
    for st in [
        SessionState::Idle,
        SessionState::SocketBound,
        SessionState::Handshaking,
        SessionState::CertVerifying,
        SessionState::Closing,
        SessionState::Closed,
        SessionState::Failed,
    ] {
        assert!(!may_open_stream(st));
        assert!(ForwardedStream::open(st).is_none());
    }
    assert!(may_open_stream(SessionState::Ready));
    assert!(ForwardedStream::open(SessionState::Ready).unwrap().active);
}

#[test]
fn milestone_lines_are_stable() {
    assert_eq!(ready_milestone(), "Connection ready");
    assert_eq!(listening_line(8080), "Listening on TCP port 8080");
    assert_eq!(listening_line(0), "Listening on TCP port 0");
    assert_eq!(listening_line(65535), "Listening on TCP port 65535");
    assert_eq!(listening_line(7), "Listening on TCP port 7");
}

#[test]
fn session_mtu_matches_domain_budget() {
    let s = client_session(b"test.example.com", &[]);
    assert_eq!(s.mtu, 140);
    assert_eq!(s.retries_left, RETRY_BUDGET);
}
