//! A client's session: from its first bytes to the end of its connection.
//!
//! A session is a machine.  It asks for one thing at a time (bytes from the
//! client, a provider, a stream to it) and is told what came of it.

use crate::proto::{
    encodable, read_proxy_response, request_bytes, response_progress, write_proxy_request, Parsed,
    Progress, ProtoError, ProxyAddr, Refusal, Target,
};
use crate::server::http_connect::{
    connect_target, ends_headers, has_opening, is_blank_line, parse_connect_target,
    read_request_line, request_target, target_has_opening, trim_end, trim_line, ConnectError,
    Rejection,
};
use crate::server::socks5::{
    connect_progress, greeting_progress, read_connect, read_greeting, reply_bytes,
    send_socks5_reply, Socks5Error, NO_AUTH, REP_GENERAL_FAILURE, REP_SUCCESS, SOCKS5_VERSION,
};
use vstd::prelude::*;
use vstd::slice::slice_to_vec;
use vstd::utf8::encode_utf8;

verus! {

/// The protocol that a client speaks.
#[derive(Debug, Clone, Copy, PartialEq, Eq, Structural)]
pub enum Front {
    Socks5,
    Http,
}

/// Why a session ends early.
#[derive(Debug)]
pub enum SessionError {
    Socks5(Socks5Error),
    Http(ConnectError),
    /// The tunnel cannot carry the request, or the agent reports an error.
    Proto(ProtoError),
    /// There is no provider.
    NoProviders,
    /// The provider opens no stream.
    Open(String),
    /// A connection failed.
    Io(String),
}

/// A [`SessionError`] as a mathematical value.
#[verifier::ext_equal]
pub enum Failure {
    Socks5(Socks5Error),
    Http(Rejection),
    Proto(Refusal),
    NoProviders,
    Open(Seq<char>),
    Io(Seq<char>),
}

impl View for SessionError {
    type V = Failure;

    open spec fn view(&self) -> Failure {
        match *self {
            SessionError::Socks5(e) => Failure::Socks5(e),
            SessionError::Http(e) => Failure::Http(e@),
            SessionError::Proto(e) => Failure::Proto(e@),
            SessionError::NoProviders => Failure::NoProviders,
            SessionError::Open(e) => Failure::Open(e@),
            SessionError::Io(e) => Failure::Io(e@),
        }
    }
}

/// Where a session stands.
#[derive(Debug)]
pub enum Stage {
    /// The SOCKS5 greeting is arriving.
    Greeting(Vec<u8>),
    /// The greeting is being answered.
    GreetingReply,
    /// The SOCKS5 request is arriving.
    Request(Vec<u8>),
    /// The HTTP request line is arriving.
    RequestLine,
    /// The HTTP headers are arriving, after this request line.
    Headers(String),
    /// A provider for the target is being picked.
    Picking(ProxyAddr),
    /// A stream to the provider is being opened.
    Opening(ProxyAddr),
    /// The request is being sent through the tunnel.
    Requesting,
    /// The agent's response is arriving.
    Awaiting(Vec<u8>),
    /// The client is being told that it is connected.
    Confirming,
    /// Bytes are relayed both ways.
    Relaying,
    /// The session has ended.
    Closed,
}

/// A [`Stage`] as a mathematical value.
#[verifier::ext_equal]
pub enum At {
    Greeting(Seq<u8>),
    GreetingReply,
    Request(Seq<u8>),
    RequestLine,
    Headers(Seq<char>),
    Picking(Target),
    Opening(Target),
    Requesting,
    Awaiting(Seq<u8>),
    Confirming,
    Relaying,
    Closed,
}

impl View for Stage {
    type V = At;

    open spec fn view(&self) -> At {
        match *self {
            Stage::Greeting(buf) => At::Greeting(buf@),
            Stage::GreetingReply => At::GreetingReply,
            Stage::Request(buf) => At::Request(buf@),
            Stage::RequestLine => At::RequestLine,
            Stage::Headers(line) => At::Headers(line@),
            Stage::Picking(t) => At::Picking(t@),
            Stage::Opening(t) => At::Opening(t@),
            Stage::Requesting => At::Requesting,
            Stage::Awaiting(buf) => At::Awaiting(buf@),
            Stage::Confirming => At::Confirming,
            Stage::Relaying => At::Relaying,
            Stage::Closed => At::Closed,
        }
    }
}

/// What came of what the session asked for.
#[derive(Debug)]
pub enum Event {
    /// The bytes that were asked for came from the client.
    Received(Vec<u8>),
    /// A line came from the client, or nothing where it has stopped sending.
    Line(String),
    /// The bytes were sent.
    Sent,
    /// A provider was picked.
    Picked,
    /// There is no provider.
    NoProvider,
    /// A stream to the provider is open.
    Opened,
    /// No stream could be opened.
    NotOpened(String),
    /// The bytes that were asked for came through the tunnel.
    TunnelReceived(Vec<u8>),
    /// The relaying has ended, with an error or without.
    Relayed(Option<String>),
    /// Receiving or sending has failed.
    Broken(String),
}

/// What the session asks for.
#[derive(Debug)]
pub enum Action {
    /// Receive this many bytes from the client.
    Receive(usize),
    /// Receive a line from the client.
    ReceiveLine,
    /// Send bytes to the client.
    Send(Vec<u8>),
    /// Pick a provider.
    Pick,
    /// Open a stream to the provider.
    Open,
    /// Send bytes through the tunnel.
    SendTunnel(Vec<u8>),
    /// Receive this many bytes through the tunnel.
    ReceiveTunnel(usize),
    /// Relay bytes both ways.
    Relay,
    /// End the session: try to send the reply, tell the provider that the
    /// stream is done where `release` is set, and report the error.
    Close { reply: Option<Vec<u8>>, release: bool, error: Option<SessionError> },
}

/// An [`Action`] as a mathematical value.
#[verifier::ext_equal]
pub enum Act {
    Receive(nat),
    ReceiveLine,
    Send(Seq<u8>),
    Pick,
    Open,
    SendTunnel(Seq<u8>),
    ReceiveTunnel(nat),
    Relay,
    Close { reply: Option<Seq<u8>>, release: bool, error: Option<Failure> },
}

impl View for Action {
    type V = Act;

    open spec fn view(&self) -> Act {
        match *self {
            Action::Receive(n) => Act::Receive(n as nat),
            Action::ReceiveLine => Act::ReceiveLine,
            Action::Send(bytes) => Act::Send(bytes@),
            Action::Pick => Act::Pick,
            Action::Open => Act::Open,
            Action::SendTunnel(bytes) => Act::SendTunnel(bytes@),
            Action::ReceiveTunnel(n) => Act::ReceiveTunnel(n as nat),
            Action::Relay => Act::Relay,
            Action::Close { reply, release, error } => Act::Close {
                reply: match reply {
                    Some(bytes) => Some(bytes@),
                    None => None,
                },
                release,
                error: match error {
                    Some(e) => Some(e@),
                    None => None,
                },
            },
        }
    }
}

/// What stands between a client and its target.
#[derive(Debug, Clone, Copy, PartialEq, Eq, Structural)]
pub enum Obstacle {
    /// There is no provider.
    Pick,
    /// The provider opens no stream.
    Open,
    /// The agent does not connect.
    Agent,
}

/// The reply to a client that cannot be connected.
pub open spec fn failure_reply(front: Front, why: Obstacle) -> Seq<u8> {
    match front {
        Front::Socks5 => reply_bytes(REP_GENERAL_FAILURE),
        Front::Http => if why == Obstacle::Pick {
            encode_utf8("HTTP/1.1 503 Service Unavailable\r\n\r\n"@)
        } else {
            encode_utf8("HTTP/1.1 502 Bad Gateway\r\n\r\n"@)
        },
    }
}

/// The reply to a client that is connected.
pub open spec fn success_reply(front: Front) -> Seq<u8> {
    match front {
        Front::Socks5 => reply_bytes(REP_SUCCESS),
        Front::Http => encode_utf8("HTTP/1.1 200 Connection Established\r\n\r\n"@),
    }
}

/// The reply to an HTTP client whose request is turned away, if any.
pub open spec fn rejection_reply(e: Rejection) -> Option<Seq<u8>> {
    match e {
        Rejection::MalformedRequest => Some(encode_utf8("HTTP/1.1 400 Bad Request\r\n\r\n"@)),
        Rejection::UnsupportedMethod(_) => Some(
            encode_utf8("HTTP/1.1 405 Method Not Allowed\r\n\r\n"@),
        ),
        _ => None,
    }
}

/// The reply to a SOCKS5 client whose request is turned away, if any.
pub open spec fn socks5_reply(e: Socks5Error) -> Option<Seq<u8>> {
    match e.reply_code() {
        Some(code) => Some(reply_bytes(code)),
        None => None,
    }
}

/// The end of a session with an error.
pub open spec fn fail(reply: Option<Seq<u8>>, release: bool, error: Failure) -> (At, Act) {
    (At::Closed, Act::Close { reply, release, error: Some(error) })
}

/// What follows when this much of the greeting has arrived.
pub open spec fn on_greeting(buf: Seq<u8>) -> (At, Act) {
    match greeting_progress(buf) {
        Parsed::Need(n) => (At::Greeting(buf), Act::Receive(n)),
        Parsed::Done(_, _) => (At::GreetingReply, Act::Send(seq![SOCKS5_VERSION, NO_AUTH])),
        Parsed::Fail(e) => fail(None, false, Failure::Socks5(e)),
    }
}

/// What follows when this much of the request has arrived.
pub open spec fn on_request(buf: Seq<u8>) -> (At, Act) {
    match connect_progress(buf) {
        Parsed::Need(n) => (At::Request(buf), Act::Receive(n)),
        Parsed::Done(t, _) => (At::Picking(t), Act::Pick),
        Parsed::Fail(e) => fail(socks5_reply(e), false, Failure::Socks5(e)),
    }
}

/// What follows when the headers after this request line have ended.
pub open spec fn on_headers(line: Seq<char>) -> Option<(At, Act)> {
    match request_target(line) {
        Err(e) => Some(fail(rejection_reply(e), false, Failure::Http(e))),
        Ok(text) => if has_opening(text) {
            match connect_target(text) {
                Err(e) => Some(fail(None, false, Failure::Http(e))),
                Ok(t) => Some((At::Picking(t), Act::Pick)),
            }
        } else {
            None
        },
    }
}

/// What follows when this much of the agent's response has arrived.
pub open spec fn on_response(front: Front, buf: Seq<u8>) -> (At, Act) {
    match response_progress(buf) {
        Parsed::Need(n) => (At::Awaiting(buf), Act::ReceiveTunnel(n)),
        Parsed::Done(_, _) => (At::Confirming, Act::Send(success_reply(front))),
        Parsed::Fail(e) => fail(
            Some(failure_reply(front, Obstacle::Agent)),
            true,
            Failure::Proto(e),
        ),
    }
}

/// Where a session starts.
pub open spec fn start(front: Front) -> (At, Act) {
    match front {
        Front::Socks5 => on_greeting(Seq::empty()),
        Front::Http => (At::RequestLine, Act::ReceiveLine),
    }
}

/// Where a session goes from a stage on an event, and what it asks for; `None`
/// where the event is not one that the session asked for.  A target without an
/// address to read takes a session nowhere either.
pub open spec fn next(front: Front, at: At, event: Event) -> Option<(At, Act)> {
    match (at, event) {
        (At::Greeting(buf), Event::Received(data)) => if greeting_progress(buf) == Parsed::<
            (),
            Socks5Error,
        >::Need(data@.len()) {
            Some(on_greeting(buf + data@))
        } else {
            None
        },
        (At::GreetingReply, Event::Sent) => Some(on_request(Seq::empty())),
        (At::Request(buf), Event::Received(data)) => if connect_progress(buf) == Parsed::<
            Target,
            Socks5Error,
        >::Need(data@.len()) {
            Some(on_request(buf + data@))
        } else {
            None
        },
        (At::RequestLine, Event::Line(line)) => Some(
            (At::Headers(trim_end(line@)), Act::ReceiveLine),
        ),
        (At::Headers(request), Event::Line(line)) => if is_blank_line(line@) {
            on_headers(request)
        } else {
            Some((At::Headers(request), Act::ReceiveLine))
        },
        (At::Picking(t), Event::Picked) => Some((At::Opening(t), Act::Open)),
        (At::Picking(_), Event::NoProvider) => Some(
            fail(Some(failure_reply(front, Obstacle::Pick)), false, Failure::NoProviders),
        ),
        (At::Opening(t), Event::Opened) => if encodable(t) {
            Some((At::Requesting, Act::SendTunnel(request_bytes(t))))
        } else {
            Some(fail(None, false, Failure::Proto(Refusal::DomainTooLong(t->Domain_0))))
        },
        (At::Opening(_), Event::NotOpened(e)) => Some(
            fail(Some(failure_reply(front, Obstacle::Open)), false, Failure::Open(e@)),
        ),
        (At::Requesting, Event::Sent) => Some(on_response(front, Seq::empty())),
        (At::Awaiting(buf), Event::TunnelReceived(data)) => if response_progress(buf) == Parsed::<
            (),
            Refusal,
        >::Need(data@.len()) {
            Some(on_response(front, buf + data@))
        } else {
            None
        },
        (At::Awaiting(_), Event::Broken(e)) => Some(
            fail(Some(failure_reply(front, Obstacle::Agent)), true, Failure::Io(e@)),
        ),
        (At::Confirming, Event::Sent) => Some((At::Relaying, Act::Relay)),
        (At::Relaying, Event::Relayed(end)) => Some(
            (
                At::Closed,
                Act::Close {
                    reply: None,
                    release: true,
                    error: match end {
                        Some(e) => Some(Failure::Io(e@)),
                        None => None,
                    },
                },
            ),
        ),
        (At::Picking(_), Event::Broken(_)) => None,
        (At::Opening(_), Event::Broken(_)) => None,
        (At::Relaying, Event::Broken(_)) => None,
        (At::Closed, _) => None,
        (_, Event::Broken(e)) => Some(fail(None, false, Failure::Io(e@))),
        _ => None,
    }
}

/// A client's session.
#[derive(Debug)]
pub struct Session {
    front: Front,
    stage: Stage,
}

impl Session {
    /// The protocol that the client speaks.
    pub closed spec fn front(&self) -> Front {
        self.front
    }

    /// Where the session stands.
    pub closed spec fn at(&self) -> At {
        self.stage@
    }
}

/// Bytes of a text.
fn text_bytes(s: &str) -> (res: Vec<u8>)
    ensures
        res@ == encode_utf8(s@),
{
    slice_to_vec(s.as_bytes())
}

/// A SOCKS5 reply.
fn socks5_reply_to(rep: u8) -> (res: Vec<u8>)
    ensures
        res@ == reply_bytes(rep),
{
    let mut w: Vec<u8> = Vec::new();
    send_socks5_reply(&mut w, rep);
    assert(w@ =~= reply_bytes(rep));
    w
}

/// Makes the reply to a client that cannot be connected.
pub fn refuse(front: Front, why: Obstacle) -> (res: Vec<u8>)
    ensures
        res@ == failure_reply(front, why),
{
    match front {
        Front::Socks5 => socks5_reply_to(REP_GENERAL_FAILURE),
        Front::Http => match why {
            Obstacle::Pick => text_bytes("HTTP/1.1 503 Service Unavailable\r\n\r\n"),
            _ => text_bytes("HTTP/1.1 502 Bad Gateway\r\n\r\n"),
        },
    }
}

/// Makes the reply to a client that is connected.
pub fn confirm(front: Front) -> (res: Vec<u8>)
    ensures
        res@ == success_reply(front),
{
    match front {
        Front::Socks5 => socks5_reply_to(REP_SUCCESS),
        Front::Http => text_bytes("HTTP/1.1 200 Connection Established\r\n\r\n"),
    }
}

/// Makes the reply to an HTTP client whose request is turned away.
pub fn reject(e: &ConnectError) -> (res: Option<Vec<u8>>)
    ensures
        match res {
            Some(bytes) => rejection_reply(e@) == Some(bytes@),
            None => rejection_reply(e@) is None,
        },
{
    match e {
        ConnectError::MalformedRequest => Some(text_bytes("HTTP/1.1 400 Bad Request\r\n\r\n")),
        ConnectError::UnsupportedMethod(_) => Some(
            text_bytes("HTTP/1.1 405 Method Not Allowed\r\n\r\n"),
        ),
        _ => None,
    }
}

/// Ends a session with an error.
fn close(reply: Option<Vec<u8>>, release: bool, error: SessionError) -> (res: (Stage, Action))
    ensures
        (res.0@, res.1@) == fail(
            match reply {
                Some(bytes) => Some(bytes@),
                None => None,
            },
            release,
            error@,
        ),
{
    (Stage::Closed, Action::Close { reply, release, error: Some(error) })
}

fn greeting_step(buf: Vec<u8>) -> (res: (Stage, Action))
    ensures
        (res.0@, res.1@) == on_greeting(buf@),
{
    match read_greeting(buf.as_slice()) {
        Progress::Need(n) => (Stage::Greeting(buf), Action::Receive(n)),
        Progress::Done(_, _) => {
            let reply: [u8; 2] = [SOCKS5_VERSION, NO_AUTH];
            let bytes = slice_to_vec(reply.as_slice());
            assert(bytes@ =~= seq![SOCKS5_VERSION, NO_AUTH]);
            (Stage::GreetingReply, Action::Send(bytes))
        },
        Progress::Fail(e) => close(None, false, SessionError::Socks5(e)),
    }
}

fn request_step(buf: Vec<u8>) -> (res: (Stage, Action))
    ensures
        (res.0@, res.1@) == on_request(buf@),
{
    match read_connect(buf.as_slice()) {
        Progress::Need(n) => (Stage::Request(buf), Action::Receive(n)),
        Progress::Done(t, _) => (Stage::Picking(t), Action::Pick),
        Progress::Fail(e) => {
            let reply = match e.code() {
                Some(code) => Some(socks5_reply_to(code)),
                None => None,
            };
            close(reply, false, SessionError::Socks5(e))
        },
    }
}

fn headers_step(line: String) -> (res: (Stage, Action))
    requires
        on_headers(line@) is Some,
    ensures
        Some((res.0@, res.1@)) == on_headers(line@),
{
    match read_request_line(line.as_str()) {
        Err(e) => close(reject(&e), false, SessionError::Http(e)),
        Ok(text) => match parse_connect_target(text.as_str()) {
            Err(e) => close(None, false, SessionError::Http(e)),
            Ok(t) => (Stage::Picking(t), Action::Pick),
        },
    }
}

fn response_step(front: Front, buf: Vec<u8>) -> (res: (Stage, Action))
    ensures
        (res.0@, res.1@) == on_response(front, buf@),
{
    match read_proxy_response(buf.as_slice()) {
        Progress::Need(n) => (Stage::Awaiting(buf), Action::ReceiveTunnel(n)),
        Progress::Done(_, _) => (Stage::Confirming, Action::Send(confirm(front))),
        Progress::Fail(e) => close(
            Some(refuse(front, Obstacle::Agent)),
            true,
            SessionError::Proto(e),
        ),
    }
}

/// The bytes that have arrived, and those that arrive now.
fn joined(buf: Vec<u8>, data: Vec<u8>) -> (res: Vec<u8>)
    ensures
        res@ == buf@ + data@,
{
    let mut buf = buf;
    let mut data = data;
    buf.append(&mut data);
    buf
}

impl Session {
    /// A session with a client that has just connected, and what it asks for
    /// first.
    pub fn new(front: Front) -> (res: (Self, Action))
        ensures
            res.0.front() == front,
            (res.0.at(), res.1@) == start(front),
    {
        let (stage, action) = match front {
            Front::Socks5 => {
                let none: Vec<u8> = Vec::new();
                assert(none@ =~= Seq::<u8>::empty());
                greeting_step(none)
            },
            Front::Http => (Stage::RequestLine, Action::ReceiveLine),
        };
        (Session { front, stage }, action)
    }

    /// Whether an event is one that the session asked for and can go on from.
    pub fn accepts(&self, event: &Event) -> (res: bool)
        ensures
            res == (next(self.front(), self.at(), *event) is Some),
    {
        match (&self.stage, event) {
            (Stage::Greeting(buf), Event::Received(data)) => match read_greeting(buf.as_slice()) {
                Progress::Need(n) => n == data.len(),
                _ => false,
            },
            (Stage::GreetingReply, Event::Sent) => true,
            (Stage::Request(buf), Event::Received(data)) => match read_connect(buf.as_slice()) {
                Progress::Need(n) => n == data.len(),
                _ => false,
            },
            (Stage::RequestLine, Event::Line(_)) => true,
            (Stage::Headers(request), Event::Line(line)) => {
                if !ends_headers(line.as_str()) {
                    return true;
                }
                match read_request_line(request.as_str()) {
                    Err(_) => true,
                    Ok(text) => target_has_opening(text.as_str()),
                }
            },
            (Stage::Picking(_), Event::Picked) => true,
            (Stage::Picking(_), Event::NoProvider) => true,
            (Stage::Opening(_), Event::Opened) => true,
            (Stage::Opening(_), Event::NotOpened(_)) => true,
            (Stage::Requesting, Event::Sent) => true,
            (Stage::Awaiting(buf), Event::TunnelReceived(data)) => match read_proxy_response(
                buf.as_slice(),
            ) {
                Progress::Need(n) => n == data.len(),
                _ => false,
            },
            (Stage::Confirming, Event::Sent) => true,
            (Stage::Relaying, Event::Relayed(_)) => true,
            (Stage::Picking(_), Event::Broken(_)) => false,
            (Stage::Opening(_), Event::Broken(_)) => false,
            (Stage::Relaying, Event::Broken(_)) => false,
            (Stage::Closed, _) => false,
            (_, Event::Broken(_)) => true,
            _ => false,
        }
    }

    /// Takes the session's next step.
    pub fn step(self, event: Event) -> (res: (Self, Action))
        requires
            next(self.front(), self.at(), event) is Some,
        ensures
            res.0.front() == self.front(),
            Some((res.0.at(), res.1@)) == next(self.front(), self.at(), event),
    {
        let front = self.front;
        let (stage, action) = match (self.stage, event) {
            (Stage::Greeting(buf), Event::Received(data)) => greeting_step(joined(buf, data)),
            (Stage::GreetingReply, Event::Sent) => {
                let none: Vec<u8> = Vec::new();
                assert(none@ =~= Seq::<u8>::empty());
                request_step(none)
            },
            (Stage::Request(buf), Event::Received(data)) => request_step(joined(buf, data)),
            (Stage::RequestLine, Event::Line(line)) => {
                (Stage::Headers(trim_line(line.as_str())), Action::ReceiveLine)
            },
            (Stage::Headers(request), Event::Line(line)) => {
                if ends_headers(line.as_str()) {
                    headers_step(request)
                } else {
                    (Stage::Headers(request), Action::ReceiveLine)
                }
            },
            (Stage::Picking(t), Event::Picked) => (Stage::Opening(t), Action::Open),
            (Stage::Picking(_), Event::NoProvider) => close(
                Some(refuse(front, Obstacle::Pick)),
                false,
                SessionError::NoProviders,
            ),
            (Stage::Opening(t), Event::Opened) => {
                let mut header: Vec<u8> = Vec::new();
                match write_proxy_request(&mut header, &t) {
                    Ok(()) => {
                        assert(header@ =~= request_bytes(t@));
                        (Stage::Requesting, Action::SendTunnel(header))
                    },
                    Err(e) => close(None, false, SessionError::Proto(e)),
                }
            },
            (Stage::Opening(_), Event::NotOpened(e)) => close(
                Some(refuse(front, Obstacle::Open)),
                false,
                SessionError::Open(e),
            ),
            (Stage::Requesting, Event::Sent) => {
                let none: Vec<u8> = Vec::new();
                assert(none@ =~= Seq::<u8>::empty());
                response_step(front, none)
            },
            (Stage::Awaiting(buf), Event::TunnelReceived(data)) => response_step(
                front,
                joined(buf, data),
            ),
            (Stage::Awaiting(_), Event::Broken(e)) => close(
                Some(refuse(front, Obstacle::Agent)),
                true,
                SessionError::Io(e),
            ),
            (Stage::Confirming, Event::Sent) => (Stage::Relaying, Action::Relay),
            (Stage::Relaying, Event::Relayed(end)) => {
                let error = match end {
                    Some(e) => Some(SessionError::Io(e)),
                    None => None,
                };
                (Stage::Closed, Action::Close { reply: None, release: true, error })
            },
            (_, Event::Broken(e)) => close(None, false, SessionError::Io(e)),
            (_, _) => (Stage::Closed, Action::Close { reply: None, release: false, error: None }),
        };
        (Session { front, stage }, action)
    }
}

} // verus!
