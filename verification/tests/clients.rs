use rproxy::proto::{Progress, ProtoError, ProxyAddr};
use rproxy::server::http_connect::{
    ends_headers, parse_connect_target, read_request_line, target_has_opening, trim_line,
    ConnectError,
};
use rproxy::server::session::{Action, Event, Front, Session, SessionError};
use rproxy::server::socks5::{read_connect, read_greeting, send_socks5_reply, Socks5Error};

#[test]
fn socks5_greeting() {
    assert!(matches!(read_greeting(&[]), Progress::Need(1)));
    assert!(matches!(read_greeting(&[5]), Progress::Need(1)));
    assert!(matches!(read_greeting(&[5, 2]), Progress::Need(2)));
    assert!(matches!(read_greeting(&[5, 2, 0]), Progress::Need(1)));
    assert!(matches!(read_greeting(&[5, 2, 0, 2]), Progress::Done((), 4)));
    assert!(matches!(read_greeting(&[5, 0]), Progress::Done((), 2)));
    assert!(matches!(
        read_greeting(&[4]),
        Progress::Fail(Socks5Error::UnsupportedVersion(4))
    ));
}

#[test]
fn socks5_requests() {
    assert!(matches!(read_connect(&[5, 1]), Progress::Need(2)));
    assert!(matches!(
        read_connect(&[5, 1, 0, 1, 10, 0, 0, 1, 0, 80]),
        Progress::Done(ProxyAddr::Ipv4([10, 0, 0, 1], 80), 10)
    ));
    let mut v6 = vec![5, 1, 99, 4];
    v6.extend_from_slice(&[1; 16]);
    assert!(matches!(read_connect(&v6), Progress::Need(2)));
    v6.extend_from_slice(&[1, 187, 42]);
    assert!(matches!(
        read_connect(&v6),
        Progress::Done(ProxyAddr::Ipv6(o, 443), 22) if o == [1; 16]
    ));
    match read_connect(&[5, 1, 0, 3, 2, b'a', b'b', 0, 7]) {
        Progress::Done(ProxyAddr::Domain(host, 7), 9) => assert_eq!(host, "ab"),
        other => panic!("{:?}", other),
    }
}

#[test]
fn socks5_refusals() {
    for (bytes, error, code) in [
        (vec![4u8, 1, 0, 1], Socks5Error::BadVersion(4), None),
        (vec![5, 2, 0, 1], Socks5Error::UnsupportedCommand(2), Some(7)),
        (vec![5, 1, 0, 2], Socks5Error::UnsupportedAtyp(2), Some(1)),
        (vec![5, 1, 0, 3, 1, 0xff, 0, 1], Socks5Error::InvalidDomain, None),
    ] {
        match read_connect(&bytes) {
            Progress::Fail(e) => {
                assert_eq!(format!("{:?}", e), format!("{:?}", error));
                assert_eq!(e.code(), code);
            }
            other => panic!("{:?}", other),
        }
    }
    // The domain is looked at once the port has arrived.
    assert!(matches!(read_connect(&[5, 1, 0, 3, 1, 0xff]), Progress::Need(2)));
}

#[test]
fn socks5_reply_bytes() {
    let mut w = vec![1];
    send_socks5_reply(&mut w, 7);
    assert_eq!(w, [1, 5, 7, 0, 1, 0, 0, 0, 0, 0, 0]);
}

#[test]
fn request_lines() {
    assert_eq!(trim_line("CONNECT a:1 HTTP/1.1\r\n"), "CONNECT a:1 HTTP/1.1");
    assert_eq!(trim_line(" x \t\u{a0}\u{3000}"), " x");
    assert_eq!(trim_line(""), "");
    match read_request_line("CONNECT a:1 HTTP/1.1") {
        Ok(t) => assert_eq!(t, "a:1"),
        Err(e) => panic!("{:?}", e),
    }
    match read_request_line("CONNECT  HTTP/1.1") {
        Ok(t) => assert_eq!(t, ""),
        Err(e) => panic!("{:?}", e),
    }
    match read_request_line("CONNECT a:1 b c d") {
        Ok(t) => assert_eq!(t, "a:1"),
        Err(e) => panic!("{:?}", e),
    }
    assert!(matches!(
        read_request_line("CONNECT a:1"),
        Err(ConnectError::MalformedRequest)
    ));
    assert!(matches!(read_request_line(""), Err(ConnectError::MalformedRequest)));
    match read_request_line("GET / HTTP/1.1") {
        Err(ConnectError::UnsupportedMethod(m)) => assert_eq!(m, "GET"),
        other => panic!("{:?}", other),
    }
    assert!(matches!(
        read_request_line("connect a:1 HTTP/1.1"),
        Err(ConnectError::UnsupportedMethod(m)) if m == "connect"
    ));
}

#[test]
fn end_of_headers() {
    assert!(ends_headers("\r\n"));
    assert!(ends_headers("\n"));
    assert!(ends_headers(""));
    assert!(!ends_headers(" \r\n"));
    assert!(!ends_headers("Host: a\r\n"));
}

fn target(s: &str) -> Result<String, String> {
    assert!(target_has_opening(s));
    match parse_connect_target(s) {
        Ok(addr) => Ok(format!("{:?}", addr)),
        Err(e) => Err(format!("{:?}", e)),
    }
}

#[test]
fn connect_targets() {
    assert_eq!(target("example.com:443"), Ok("Domain(\"example.com\", 443)".to_string()));
    assert_eq!(target("192.0.2.1:80"), Ok("Ipv4([192, 0, 2, 1], 80)".to_string()));
    assert_eq!(
        target("[::1]:8080"),
        Ok("Ipv6([0, 0, 0, 0, 0, 0, 0, 0, 0, 0, 0, 0, 0, 0, 0, 1], 8080)".to_string())
    );
    assert_eq!(target("256.0.0.1:80"), Ok("Domain(\"256.0.0.1\", 80)".to_string()));
    assert_eq!(target("::1:80"), Ok("Domain(\"::1\", 80)".to_string()));
    assert_eq!(target(":80"), Ok("Domain(\"\", 80)".to_string()));
    assert_eq!(target("a:+80"), Ok("Domain(\"a\", 80)".to_string()));
    assert_eq!(target("example.com"), Err("MissingPort(\"example.com\")".to_string()));
    assert_eq!(target("a:b"), Err("InvalidPort(\"b\")".to_string()));
    assert_eq!(target("a:65536"), Err("InvalidPort(\"65536\")".to_string()));
    assert_eq!(target("[::1]:x"), Err("InvalidPort(\"x\")".to_string()));
    assert_eq!(target("[::g]:1"), Err("InvalidIpv6(\"::g\")".to_string()));
    assert_eq!(target("[]:1"), Err("InvalidIpv6(\"\")".to_string()));
    assert!(!target_has_opening("]:1"));
    assert!(!target_has_opening("ü]:1"));
}

#[test]
fn targets_are_read_from_their_text() {
    for addr in [
        ProxyAddr::Ipv4([10, 20, 30, 40], 50),
        ProxyAddr::Ipv6([0xab; 16], 65535),
        ProxyAddr::Ipv6([0; 16], 1),
        ProxyAddr::Domain("a.b-c.example".to_string(), 0),
    ] {
        assert_eq!(target(&addr.display()), Ok(format!("{:?}", addr)));
    }
}

/// Takes a step that the session can take.
fn step(session: Session, event: Event) -> (Session, Action) {
    assert!(session.accepts(&event), "{:?} does not accept {:?}", session, event);
    session.step(event)
}

fn close(action: Action) -> (Option<Vec<u8>>, bool, Option<SessionError>) {
    match action {
        Action::Close { reply, release, error } => (reply, release, error),
        other => panic!("{:?}", other),
    }
}

/// A SOCKS5 session whose client has asked for `example.com:443`.
fn socks5_picking() -> Session {
    let (s, a) = Session::new(Front::Socks5);
    assert!(matches!(a, Action::Receive(1)));
    let (s, a) = step(s, Event::Received(vec![5]));
    assert!(matches!(a, Action::Receive(1)));
    let (s, a) = step(s, Event::Received(vec![1]));
    assert!(matches!(a, Action::Receive(1)));
    let (s, a) = step(s, Event::Received(vec![0]));
    match a {
        Action::Send(bytes) => assert_eq!(bytes, [5, 0]),
        other => panic!("{:?}", other),
    }
    let (s, a) = step(s, Event::Sent);
    assert!(matches!(a, Action::Receive(4)));
    let (s, a) = step(s, Event::Received(vec![5, 1, 0, 3]));
    assert!(matches!(a, Action::Receive(1)));
    let (s, a) = step(s, Event::Received(vec![11]));
    assert!(matches!(a, Action::Receive(11)));
    let (s, a) = step(s, Event::Received(b"example.com".to_vec()));
    assert!(matches!(a, Action::Receive(2)));
    let (s, a) = step(s, Event::Received(vec![1, 187]));
    assert!(matches!(a, Action::Pick));
    s
}

/// An HTTP session whose client has asked for `192.0.2.1:80`.
fn http_picking() -> Session {
    let (s, a) = Session::new(Front::Http);
    assert!(matches!(a, Action::ReceiveLine));
    let (s, a) = step(s, Event::Line("CONNECT 192.0.2.1:80 HTTP/1.1\r\n".to_string()));
    assert!(matches!(a, Action::ReceiveLine));
    let (s, a) = step(s, Event::Line("Host: x\r\n".to_string()));
    assert!(matches!(a, Action::ReceiveLine));
    let (s, a) = step(s, Event::Line("\r\n".to_string()));
    assert!(matches!(a, Action::Pick));
    s
}

/// The session after the request has gone through the tunnel.
fn awaiting(session: Session) -> (Session, Vec<u8>) {
    let (s, a) = step(session, Event::Picked);
    assert!(matches!(a, Action::Open));
    let (s, a) = step(s, Event::Opened);
    let header = match a {
        Action::SendTunnel(bytes) => bytes,
        other => panic!("{:?}", other),
    };
    let (s, a) = step(s, Event::Sent);
    assert!(matches!(a, Action::ReceiveTunnel(1)));
    (s, header)
}

#[test]
fn socks5_session() {
    let (s, header) = awaiting(socks5_picking());
    assert_eq!(header, [vec![1, 3, 1, 187, 11], b"example.com".to_vec()].concat());
    let (s, a) = step(s, Event::TunnelReceived(vec![0]));
    match a {
        Action::Send(bytes) => assert_eq!(bytes, [5, 0, 0, 1, 0, 0, 0, 0, 0, 0]),
        other => panic!("{:?}", other),
    }
    let (s, a) = step(s, Event::Sent);
    assert!(matches!(a, Action::Relay));
    let (s, a) = step(s, Event::Relayed(None));
    assert!(matches!(close(a), (None, true, None)));
    assert!(!s.accepts(&Event::Sent));
    assert!(!s.accepts(&Event::Broken(String::new())));
}

#[test]
fn http_session() {
    let (s, header) = awaiting(http_picking());
    assert_eq!(header, [1, 1, 0, 80, 192, 0, 2, 1]);
    let (s, a) = step(s, Event::TunnelReceived(vec![0]));
    match a {
        Action::Send(bytes) => {
            assert_eq!(bytes, b"HTTP/1.1 200 Connection Established\r\n\r\n")
        }
        other => panic!("{:?}", other),
    }
    let (s, a) = step(s, Event::Sent);
    assert!(matches!(a, Action::Relay));
    let (_, a) = step(s, Event::Relayed(Some("reset".to_string())));
    assert!(matches!(close(a), (None, true, Some(SessionError::Io(e))) if e == "reset"));
}

#[test]
fn no_provider() {
    let failure = vec![5, 1, 0, 1, 0, 0, 0, 0, 0, 0];
    let (_, a) = step(socks5_picking(), Event::NoProvider);
    assert!(matches!(
        close(a),
        (Some(reply), false, Some(SessionError::NoProviders)) if reply == failure
    ));
    let (_, a) = step(http_picking(), Event::NoProvider);
    assert!(matches!(
        close(a),
        (Some(reply), false, Some(SessionError::NoProviders))
            if reply == b"HTTP/1.1 503 Service Unavailable\r\n\r\n"
    ));
}

#[test]
fn no_stream() {
    let failure = vec![5, 1, 0, 1, 0, 0, 0, 0, 0, 0];
    let (s, _) = step(socks5_picking(), Event::Picked);
    let (_, a) = step(s, Event::NotOpened("gone".to_string()));
    assert!(matches!(
        close(a),
        (Some(reply), false, Some(SessionError::Open(e))) if reply == failure && e == "gone"
    ));
    let (s, _) = step(http_picking(), Event::Picked);
    let (_, a) = step(s, Event::NotOpened("gone".to_string()));
    assert!(matches!(
        close(a),
        (Some(reply), false, Some(SessionError::Open(_)))
            if reply == b"HTTP/1.1 502 Bad Gateway\r\n\r\n"
    ));
}

#[test]
fn agent_error() {
    let failure = vec![5, 1, 0, 1, 0, 0, 0, 0, 0, 0];
    let (s, _) = awaiting(socks5_picking());
    let (s, a) = step(s, Event::TunnelReceived(vec![1]));
    assert!(matches!(a, Action::ReceiveTunnel(1)));
    let (s, a) = step(s, Event::TunnelReceived(vec![2]));
    assert!(matches!(a, Action::ReceiveTunnel(2)));
    let (_, a) = step(s, Event::TunnelReceived(b"no".to_vec()));
    assert!(matches!(
        close(a),
        (Some(reply), true, Some(SessionError::Proto(ProtoError::AgentError(e))))
            if reply == failure && e == "no"
    ));
    let (s, _) = awaiting(http_picking());
    let (_, a) = step(s, Event::Broken("eof".to_string()));
    assert!(matches!(
        close(a),
        (Some(reply), true, Some(SessionError::Io(e)))
            if reply == b"HTTP/1.1 502 Bad Gateway\r\n\r\n" && e == "eof"
    ));
    let (s, _) = awaiting(http_picking());
    let (_, a) = step(s, Event::TunnelReceived(vec![9]));
    assert!(matches!(
        close(a),
        (Some(_), true, Some(SessionError::Proto(ProtoError::UnknownStatus(9))))
    ));
}

#[test]
fn refused_socks5_clients() {
    let (s, _) = Session::new(Front::Socks5);
    let (_, a) = step(s, Event::Received(vec![4]));
    assert!(matches!(
        close(a),
        (None, false, Some(SessionError::Socks5(Socks5Error::UnsupportedVersion(4))))
    ));
    let (s, _) = Session::new(Front::Socks5);
    let (s, _) = step(s, Event::Received(vec![5]));
    let (s, _) = step(s, Event::Received(vec![0]));
    let (s, _) = step(s, Event::Sent);
    assert!(!s.accepts(&Event::Received(vec![5, 3])));
    let (_, a) = step(s, Event::Received(vec![5, 3, 0, 1]));
    assert!(matches!(
        close(a),
        (Some(reply), false, Some(SessionError::Socks5(Socks5Error::UnsupportedCommand(3))))
            if reply == [5, 7, 0, 1, 0, 0, 0, 0, 0, 0]
    ));
    let (s, _) = Session::new(Front::Socks5);
    let (_, a) = step(s, Event::Broken("eof".to_string()));
    assert!(matches!(close(a), (None, false, Some(SessionError::Io(_)))));
}

fn http_reply(line: &str) -> (Option<Vec<u8>>, Option<SessionError>) {
    let (s, _) = Session::new(Front::Http);
    let (s, _) = step(s, Event::Line(line.to_string()));
    let (_, a) = step(s, Event::Line(String::new()));
    let (reply, release, error) = close(a);
    assert!(!release);
    (reply, error)
}

#[test]
fn refused_http_clients() {
    assert!(matches!(
        http_reply("CONNECT\r\n"),
        (Some(r), Some(SessionError::Http(ConnectError::MalformedRequest)))
            if r == b"HTTP/1.1 400 Bad Request\r\n\r\n"
    ));
    assert!(matches!(
        http_reply("GET / HTTP/1.1\r\n"),
        (Some(r), Some(SessionError::Http(ConnectError::UnsupportedMethod(_))))
            if r == b"HTTP/1.1 405 Method Not Allowed\r\n\r\n"
    ));
    assert!(matches!(
        http_reply("CONNECT a HTTP/1.1\r\n"),
        (None, Some(SessionError::Http(ConnectError::MissingPort(_))))
    ));
    let (s, _) = Session::new(Front::Http);
    let (s, _) = step(s, Event::Line("CONNECT ]:1 HTTP/1.1\r\n".to_string()));
    assert!(!s.accepts(&Event::Line("\r\n".to_string())));
}

#[test]
fn domain_that_no_header_can_hold() {
    let (s, _) = Session::new(Front::Http);
    let line = format!("CONNECT {}:1 HTTP/1.1\r\n", "a".repeat(256));
    let (s, _) = step(s, Event::Line(line));
    let (s, _) = step(s, Event::Line("\n".to_string()));
    let (s, _) = step(s, Event::Picked);
    let (_, a) = step(s, Event::Opened);
    assert!(matches!(
        close(a),
        (None, false, Some(SessionError::Proto(ProtoError::DomainTooLong(_))))
    ));
}

#[test]
fn payload_after_a_socks5_request_is_left() {
    let mut stream = vec![5u8, 1, 0, 3, 2, b'a', b'b', 0, 7];
    let request = stream.len();
    stream.extend_from_slice(b"payload");
    let mut have = 0;
    loop {
        match read_connect(&stream[..have]) {
            Progress::Need(n) => have += n,
            Progress::Done(addr, n) => {
                assert_eq!((have, n), (request, request));
                assert_eq!(addr.display(), "ab:7");
                return;
            }
            Progress::Fail(e) => panic!("{:?}", e),
        }
    }
}

#[test]
fn payload_after_an_http_request_is_left() {
    let takes = |a: &Action| matches!(a, Action::Receive(_) | Action::ReceiveLine);
    let (mut s, mut a) = step(http_picking(), Event::Picked);
    for event in [Event::Opened, Event::Sent, Event::TunnelReceived(vec![0]), Event::Sent] {
        assert!(!takes(&a));
        (s, a) = step(s, event);
    }
    assert!(matches!(a, Action::Relay));
    let (_, a) = step(s, Event::Relayed(None));
    assert!(!takes(&a));
}
