use rproxy::agent::stream::StreamError;
use rproxy::agent::tunnel::TunnelError;
use rproxy::messages::show_register;
use rproxy::proto::{CtrlMsg, ProtoError};
use rproxy::server::http_connect::ConnectError;
use rproxy::server::pool::PoolError;
use rproxy::server::provider::ProviderError;
use rproxy::server::session::SessionError;
use rproxy::server::socks5::Socks5Error;

fn text(s: &str) -> String {
    s.to_string()
}

#[test]
fn protocol_errors() {
    for (e, says) in [
        (ProtoError::DomainTooLong(text("x")), "domain too long: x"),
        (ProtoError::UnsupportedVersion(0x2a), "unsupported protocol version: 0x2a"),
        (ProtoError::UnknownAddrType(2), "unknown address type: 0x2"),
        (ProtoError::InvalidDomain(text("why")), "invalid domain: why"),
        (ProtoError::AgentError(text("no route")), "agent error: no route"),
        (ProtoError::UnknownStatus(255), "unknown response status: 0xff"),
    ] {
        assert_eq!(e.message(), says);
    }
}

#[test]
fn client_errors() {
    for (e, says) in [
        (Socks5Error::UnsupportedVersion(4), "unsupported SOCKS version: 4"),
        (Socks5Error::BadVersion(200), "bad version in request: 200"),
        (Socks5Error::UnsupportedCommand(2), "unsupported SOCKS5 command: 2"),
        (Socks5Error::UnsupportedAtyp(9), "unsupported atyp: 9"),
        (Socks5Error::InvalidDomain, "invalid domain"),
    ] {
        assert_eq!(e.message(), says);
    }
    for (e, says) in [
        (ConnectError::MalformedRequest, "malformed request"),
        (ConnectError::UnsupportedMethod(text("GET")), "unsupported method: GET"),
        (ConnectError::InvalidPort(text("x")), "invalid port: x"),
        (ConnectError::InvalidIpv6(text("g")), "invalid IPv6: g"),
        (ConnectError::MissingPort(text("a")), "missing port in: a"),
    ] {
        assert_eq!(e.message(), says);
    }
}

#[test]
fn session_errors() {
    assert_eq!(PoolError::NoProviders.message(), "no providers available");
    for (e, says) in [
        (SessionError::Socks5(Socks5Error::InvalidDomain), "invalid domain"),
        (SessionError::Http(ConnectError::MalformedRequest), "malformed request"),
        (SessionError::Proto(ProtoError::AgentError(text("x"))), "agent error: x"),
        (SessionError::NoProviders, "no providers available"),
        (SessionError::Open(text("gone")), "gone"),
        (SessionError::Io(text("reset")), "reset"),
    ] {
        assert_eq!(e.message(), says);
    }
}

#[test]
fn stream_errors() {
    for (e, says) in [
        (
            StreamError::Request(ProtoError::UnknownAddrType(16)),
            "read proxy request: unknown address type: 0x10",
        ),
        (StreamError::Read(text("eof")), "read proxy request: eof"),
        (StreamError::Unresolved(text("dns")), "dns"),
        (StreamError::Unreachable(text("refused")), "refused"),
        (StreamError::Io(text("reset")), "reset"),
    ] {
        assert_eq!(e.message(), says);
    }
}

fn odd() -> CtrlMsg {
    CtrlMsg::Rejected { reason: text("a \"b\"\n") }
}

#[test]
fn control_messages_are_shown() {
    let register = |geo: Option<&str>, label: Option<&str>| CtrlMsg::Register {
        token: text("t\\"),
        geo: geo.map(text),
        label: label.map(text),
    };
    for msg in [
        register(None, None),
        register(Some("US-CA"), None),
        register(None, Some("caf\u{e9} \u{301}")),
        CtrlMsg::Registered { provider_id: text("7") },
        odd(),
    ] {
        assert_eq!(msg.shown(), format!("{:?}", msg));
    }
    assert_eq!(odd().shown(), "Rejected { reason: \"a \\\"b\\\"\\n\" }");
    assert_eq!(
        show_register(&text("A"), &Some(text("B")), &None),
        "Register { token: A, geo: Some(B), label: None }"
    );
}

#[test]
fn provider_errors() {
    for (e, says) in [
        (ProviderError::NotAMessage(text("None")), "expected register message, got None"),
        (ProviderError::Malformed(text("eof")), "eof"),
        (
            ProviderError::NotARegistration(CtrlMsg::Registered { provider_id: text("7") }),
            "expected Register, got Registered { provider_id: \"7\" }",
        ),
        (ProviderError::InvalidToken, "invalid provider token"),
        (ProviderError::Io(text("reset")), "reset"),
    ] {
        assert_eq!(e.message(), says);
    }
}

#[test]
fn tunnel_errors() {
    for (e, says) in [
        (TunnelError::NotConnected(text("dns")), "WebSocket connect failed: dns"),
        (TunnelError::NotAMessage(text("None")), "unexpected auth response: None"),
        (TunnelError::Malformed(text("eof")), "eof"),
        (TunnelError::Rejected(text("invalid token")), "registration rejected: invalid token"),
        (
            TunnelError::NotAnAnswer(odd()),
            "unexpected response: Rejected { reason: \"a \\\"b\\\"\\n\" }",
        ),
        (TunnelError::Multiplexer(text("io")), "yamux error: io"),
        (TunnelError::Io(text("reset")), "reset"),
    ] {
        assert_eq!(e.message(), says);
    }
}
