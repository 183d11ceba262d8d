use rproxy::agent::backoff::Backoff;
use rproxy::agent::config::Config;
use rproxy::agent::stream::{StreamAction, StreamError, StreamEvent, StreamHandler};
use rproxy::agent::tunnel::{
    dialup, register_message, Tunnel, TunnelAction, TunnelError, TunnelEvent,
};
use rproxy::handshake::{Incoming, Payload};
use rproxy::proto::{write_proxy_request, CtrlMsg, ProtoError, ProxyAddr};
use rproxy::resolve::Resolution;

#[test]
fn agent_defaults() {
    let cfg = Config::default();
    assert_eq!(cfg.server_url, "ws://127.0.0.1:8888");
    assert_eq!(cfg.token, "change-me");
    assert_eq!((cfg.geo, cfg.label, cfg.accept_invalid_certs), (None, None, false));
}

#[test]
fn waits() {
    let mut b = Backoff::new();
    let waits: Vec<u64> = (0..9).map(|_| b.next_wait()).collect();
    assert_eq!(waits, [1, 2, 4, 8, 16, 32, 60, 60, 60]);
    assert_eq!(Backoff::default().next_wait(), 1);
}

fn config() -> Config {
    Config {
        server_url: "wss://example.com".to_string(),
        token: "t".to_string(),
        geo: Some("US-CA".to_string()),
        label: None,
        accept_invalid_certs: true,
    }
}

#[test]
fn connection_plan() {
    let plan = dialup(&config());
    assert_eq!(plan.url, "wss://example.com");
    assert_eq!(plan.max_message_size, 64 * 1024 * 1024);
    assert_eq!(plan.max_frame_size, 16 * 1024 * 1024);
    assert!(plan.accept_invalid_certs);
}

#[test]
fn registration() {
    match register_message(&config()) {
        CtrlMsg::Register { token, geo, label } => {
            assert_eq!(token, "t");
            assert_eq!(geo.as_deref(), Some("US-CA"));
            assert_eq!(label, None);
        }
        other => panic!("{:?}", other),
    }
}

fn tunnel_step(t: Tunnel, event: TunnelEvent) -> (Tunnel, TunnelAction) {
    assert!(t.accepts(&event));
    t.step(&config(), event)
}

fn tunnel_decoding() -> Tunnel {
    let (t, a) = tunnel_step(Tunnel::new(), TunnelEvent::Connected);
    assert!(matches!(
        a,
        TunnelAction::Send(CtrlMsg::Register { token, .. }) if token == "t"
    ));
    let (t, a) = tunnel_step(t, TunnelEvent::Sent);
    assert!(matches!(a, TunnelAction::Receive));
    let (t, a) = tunnel_step(t, TunnelEvent::Incoming(Incoming::Binary(vec![1, 2])));
    assert!(matches!(a, TunnelAction::Decode(Payload::Binary(b)) if b == [1, 2]));
    t
}

#[test]
fn tunnel_serves() {
    let registered = CtrlMsg::Registered { provider_id: "x".to_string() };
    let (t, a) = tunnel_step(tunnel_decoding(), TunnelEvent::Decoded(Ok(registered)));
    assert!(matches!(a, TunnelAction::Serve));
    let (t, a) = tunnel_step(t, TunnelEvent::Stream);
    assert!(matches!(a, TunnelAction::Spawn));
    let (t, a) = tunnel_step(t, TunnelEvent::Stream);
    assert!(matches!(a, TunnelAction::Spawn));
    let (t, a) = tunnel_step(t, TunnelEvent::Ended);
    assert!(matches!(a, TunnelAction::Close(None)));
    assert!(!t.accepts(&TunnelEvent::Stream));
}

#[test]
fn tunnel_is_rejected() {
    let rejected = CtrlMsg::Rejected { reason: "invalid token".to_string() };
    let (_, a) = tunnel_step(tunnel_decoding(), TunnelEvent::Decoded(Ok(rejected)));
    assert!(matches!(
        a,
        TunnelAction::Close(Some(e @ TunnelError::Rejected(_)))
            if e.message() == "registration rejected: invalid token"
    ));
}

#[test]
fn tunnel_failures() {
    let (_, a) = tunnel_step(Tunnel::new(), TunnelEvent::NotConnected("dns".to_string()));
    assert!(matches!(a, TunnelAction::Close(Some(TunnelError::NotConnected(e))) if e == "dns"));
    let (t, _) = tunnel_step(Tunnel::new(), TunnelEvent::Connected);
    let (_, a) = tunnel_step(t, TunnelEvent::Broken("reset".to_string()));
    assert!(matches!(a, TunnelAction::Close(Some(TunnelError::Io(e))) if e == "reset"));
    let (t, _) = tunnel_step(Tunnel::new(), TunnelEvent::Connected);
    let (t, _) = tunnel_step(t, TunnelEvent::Sent);
    let (_, a) = tunnel_step(t, TunnelEvent::Incoming(Incoming::Other("Ping".to_string())));
    assert!(matches!(a, TunnelAction::Close(Some(TunnelError::NotAMessage(w))) if w == "Ping"));
    let (_, a) = tunnel_step(tunnel_decoding(), TunnelEvent::Decoded(Err("eof".to_string())));
    assert!(matches!(a, TunnelAction::Close(Some(TunnelError::Malformed(e))) if e == "eof"));
    let (_, a) = tunnel_step(
        tunnel_decoding(),
        TunnelEvent::Decoded(Ok(register_message(&config()))),
    );
    assert!(matches!(
        a,
        TunnelAction::Close(Some(TunnelError::NotAnAnswer(CtrlMsg::Register { .. })))
    ));
    let registered = CtrlMsg::Registered { provider_id: "x".to_string() };
    let (t, _) = tunnel_step(tunnel_decoding(), TunnelEvent::Decoded(Ok(registered)));
    let (_, a) = tunnel_step(t, TunnelEvent::Failed("io".to_string()));
    assert!(matches!(a, TunnelAction::Close(Some(TunnelError::Multiplexer(e))) if e == "io"));
}

fn stream_step(s: StreamHandler, event: StreamEvent) -> (StreamHandler, StreamAction) {
    assert!(s.accepts(&event), "{:?} does not accept {:?}", s, event);
    s.step(event)
}

/// A stream whose request has arrived, and what it asks for then.
fn requested(addr: &ProxyAddr) -> (StreamHandler, StreamAction) {
    let mut header = Vec::new();
    assert!(write_proxy_request(&mut header, addr).is_ok());
    let (mut s, mut a) = StreamHandler::new();
    let mut at = 0;
    loop {
        match a {
            StreamAction::Receive(n) => {
                let data = header[at..at + n].to_vec();
                at += n;
                (s, a) = stream_step(s, StreamEvent::Received(data));
            }
            _ => {
                assert_eq!(at, header.len());
                return (s, a);
            }
        }
    }
}

/// The status that reports an error.
fn error_status(text: &str) -> Vec<u8> {
    [vec![1, text.len() as u8], text.as_bytes().to_vec()].concat()
}

fn domain() -> ProxyAddr {
    ProxyAddr::Domain("example.com".to_string(), 443)
}

fn stream_close(action: StreamAction) -> (Option<Vec<u8>>, Option<StreamError>) {
    match action {
        StreamAction::Close { reply, error } => (reply, error),
        other => panic!("{:?}", other),
    }
}

#[test]
fn stream_connects_the_first_reachable_address() {
    let (s, a) = requested(&domain());
    assert!(matches!(
        a,
        StreamAction::Resolve(Resolution::Lookup(q)) if q == "example.com:443"
    ));
    let (s, a) = stream_step(s, StreamEvent::Resolved(3));
    assert!(matches!(a, StreamAction::Dial(0)));
    let (s, a) = stream_step(s, StreamEvent::Refused("first".to_string()));
    assert!(matches!(a, StreamAction::Dial(1)));
    let (s, a) = stream_step(s, StreamEvent::Connected);
    assert!(matches!(a, StreamAction::Send(r) if r == [0]));
    let (s, a) = stream_step(s, StreamEvent::Sent);
    assert!(matches!(a, StreamAction::Relay));
    let (s, a) = stream_step(s, StreamEvent::Relayed(None));
    assert!(matches!(stream_close(a), (None, None)));
    assert!(!s.accepts(&StreamEvent::Sent));
}

#[test]
fn known_addresses_are_not_looked_up() {
    let (_, a) = requested(&ProxyAddr::Ipv4([9, 8, 7, 6], 5));
    assert!(matches!(a, StreamAction::Resolve(Resolution::Ipv4([9, 8, 7, 6], 5))));
    let (_, a) = requested(&ProxyAddr::Ipv6([1; 16], 5));
    assert!(matches!(a, StreamAction::Resolve(Resolution::Ipv6(o, 5)) if o == [1; 16]));
}

#[test]
fn last_error_is_reported() {
    let (s, _) = requested(&domain());
    let (s, _) = stream_step(s, StreamEvent::Resolved(2));
    let (s, _) = stream_step(s, StreamEvent::Refused("first".to_string()));
    let (_, a) = stream_step(s, StreamEvent::Refused("last".to_string()));
    assert!(matches!(
        stream_close(a),
        (Some(reply), Some(StreamError::Unreachable(e)))
            if reply == error_status("last") && e == "last"
    ));
}

#[test]
fn target_without_addresses() {
    let (s, _) = requested(&domain());
    let (_, a) = stream_step(s, StreamEvent::Resolved(0));
    let text = "no addresses for example.com:443";
    match stream_close(a) {
        (Some(reply), Some(StreamError::Unreachable(e))) => {
            assert_eq!(e, text);
            assert_eq!(reply, error_status(text));
        }
        other => panic!("{:?}", other),
    }
}

#[test]
fn stream_failures() {
    let (s, _) = StreamHandler::new();
    let (_, a) = stream_step(s, StreamEvent::Received(vec![9]));
    let text = "read proxy request: unsupported protocol version: 0x9";
    assert!(matches!(
        stream_close(a),
        (Some(reply), Some(StreamError::Request(ProtoError::UnsupportedVersion(9))))
            if reply == error_status(text)
    ));
    let (s, _) = StreamHandler::new();
    let (_, a) = stream_step(s, StreamEvent::Broken("eof".to_string()));
    assert!(matches!(stream_close(a), (None, Some(StreamError::Read(e))) if e == "eof"));
    let (s, _) = requested(&domain());
    let (_, a) = stream_step(s, StreamEvent::Unresolved("dns".to_string()));
    assert!(matches!(
        stream_close(a),
        (Some(reply), Some(StreamError::Unresolved(e)))
            if reply == error_status("dns") && e == "dns"
    ));
    let (s, _) = requested(&domain());
    let (s, _) = stream_step(s, StreamEvent::Resolved(1));
    let (s, _) = stream_step(s, StreamEvent::Connected);
    let (_, a) = stream_step(s, StreamEvent::Broken("reset".to_string()));
    assert!(matches!(stream_close(a), (None, Some(StreamError::Io(e))) if e == "reset"));
    let (s, _) = requested(&domain());
    let (s, _) = stream_step(s, StreamEvent::Resolved(1));
    let (s, _) = stream_step(s, StreamEvent::Connected);
    let (s, _) = stream_step(s, StreamEvent::Sent);
    let (_, a) = stream_step(s, StreamEvent::Relayed(Some("reset".to_string())));
    assert!(matches!(stream_close(a), (None, Some(StreamError::Io(e))) if e == "reset"));
}
