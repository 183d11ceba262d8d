//! What errors say.

use crate::addr_display::{hex, push_hex};
use crate::agent::stream::{Fault, StreamError};
use crate::agent::tunnel::TunnelError;
use crate::proto::{text_view, Ctrl, CtrlMsg, ProtoError, Refusal};
use crate::server::http_connect::{ConnectError, Rejection};
use crate::server::pool::PoolError;
use crate::server::provider::ProviderError;
use crate::server::session::{Failure, SessionError};
use crate::server::socks5::Socks5Error;
use crate::text::{decimal, push_decimal, quote, quoted_text};
use vstd::prelude::*;
use vstd::string::StringExecFns;

verus! {

/// A text after some words.
fn saying(words: &str, text: &String) -> (res: String)
    ensures
        res@ == words@ + text@,
{
    let mut s = words.to_owned();
    s.append(text.as_str());
    s
}

/// A number in decimal after some words.
fn counting(words: &str, n: u8) -> (res: String)
    ensures
        res@ == words@ + decimal(n as nat),
{
    let mut s = words.to_owned();
    push_decimal(&mut s, n as u64);
    s
}

/// A number in hexadecimal after some words.
fn coding(words: &str, n: u8) -> (res: String)
    ensures
        res@ == words@ + "0x"@ + hex(n as nat),
{
    let mut s = words.to_owned();
    s.append("0x");
    push_hex(&mut s, n as u64);
    s
}

/// What a [`ProtoError`] says.
pub open spec fn refusal_message(e: Refusal) -> Seq<char> {
    match e {
        Refusal::DomainTooLong(host) => "domain too long: "@ + host,
        Refusal::UnsupportedVersion(v) => "unsupported protocol version: "@ + "0x"@ + hex(v as nat),
        Refusal::UnknownAddrType(t) => "unknown address type: "@ + "0x"@ + hex(t as nat),
        Refusal::InvalidDomain(why) => "invalid domain: "@ + why,
        Refusal::AgentError(msg) => "agent error: "@ + msg,
        Refusal::UnknownStatus(s) => "unknown response status: "@ + "0x"@ + hex(s as nat),
    }
}

impl ProtoError {
    /// What the error says.
    pub fn message(&self) -> (res: String)
        ensures
            res@ == refusal_message(self@),
    {
        match self {
            ProtoError::DomainTooLong(host) => saying("domain too long: ", host),
            ProtoError::UnsupportedVersion(v) => coding("unsupported protocol version: ", *v),
            ProtoError::UnknownAddrType(t) => coding("unknown address type: ", *t),
            ProtoError::InvalidDomain(why) => saying("invalid domain: ", why),
            ProtoError::AgentError(msg) => saying("agent error: ", msg),
            ProtoError::UnknownStatus(s) => coding("unknown response status: ", *s),
        }
    }
}

/// What a [`Socks5Error`] says.
pub open spec fn socks5_message(e: Socks5Error) -> Seq<char> {
    match e {
        Socks5Error::UnsupportedVersion(v) => "unsupported SOCKS version: "@ + decimal(v as nat),
        Socks5Error::BadVersion(v) => "bad version in request: "@ + decimal(v as nat),
        Socks5Error::UnsupportedCommand(c) => "unsupported SOCKS5 command: "@ + decimal(c as nat),
        Socks5Error::UnsupportedAtyp(t) => "unsupported atyp: "@ + decimal(t as nat),
        Socks5Error::InvalidDomain => "invalid domain"@,
    }
}

impl Socks5Error {
    /// What the error says.
    pub fn message(&self) -> (res: String)
        ensures
            res@ == socks5_message(*self),
    {
        match self {
            Socks5Error::UnsupportedVersion(v) => counting("unsupported SOCKS version: ", *v),
            Socks5Error::BadVersion(v) => counting("bad version in request: ", *v),
            Socks5Error::UnsupportedCommand(c) => counting("unsupported SOCKS5 command: ", *c),
            Socks5Error::UnsupportedAtyp(t) => counting("unsupported atyp: ", *t),
            Socks5Error::InvalidDomain => "invalid domain".to_owned(),
        }
    }
}

/// What a [`ConnectError`] says.
pub open spec fn rejection_message(e: Rejection) -> Seq<char> {
    match e {
        Rejection::MalformedRequest => "malformed request"@,
        Rejection::UnsupportedMethod(m) => "unsupported method: "@ + m,
        Rejection::InvalidPort(p) => "invalid port: "@ + p,
        Rejection::InvalidIpv6(h) => "invalid IPv6: "@ + h,
        Rejection::MissingPort(t) => "missing port in: "@ + t,
    }
}

impl ConnectError {
    /// What the error says.
    pub fn message(&self) -> (res: String)
        ensures
            res@ == rejection_message(self@),
    {
        match self {
            ConnectError::MalformedRequest => "malformed request".to_owned(),
            ConnectError::UnsupportedMethod(m) => saying("unsupported method: ", m),
            ConnectError::InvalidPort(p) => saying("invalid port: ", p),
            ConnectError::InvalidIpv6(h) => saying("invalid IPv6: ", h),
            ConnectError::MissingPort(t) => saying("missing port in: ", t),
        }
    }
}

impl PoolError {
    /// What the error says.
    pub fn message(&self) -> (res: String)
        ensures
            res@ == "no providers available"@,
    {
        "no providers available".to_owned()
    }
}

/// What a [`SessionError`] says.
pub open spec fn failure_message(e: Failure) -> Seq<char> {
    match e {
        Failure::Socks5(e) => socks5_message(e),
        Failure::Http(e) => rejection_message(e),
        Failure::Proto(e) => refusal_message(e),
        Failure::NoProviders => "no providers available"@,
        Failure::Open(e) => e,
        Failure::Io(e) => e,
    }
}

impl SessionError {
    /// What the error says.
    pub fn message(&self) -> (res: String)
        ensures
            res@ == failure_message(self@),
    {
        match self {
            SessionError::Socks5(e) => e.message(),
            SessionError::Http(e) => e.message(),
            SessionError::Proto(e) => e.message(),
            SessionError::NoProviders => PoolError::NoProviders.message(),
            SessionError::Open(e) => e.clone(),
            SessionError::Io(e) => e.clone(),
        }
    }
}

/// What a [`StreamError`] says.
pub open spec fn fault_message(e: Fault) -> Seq<char> {
    match e {
        Fault::Request(e) => "read proxy request: "@ + refusal_message(e),
        Fault::Read(e) => "read proxy request: "@ + e,
        Fault::Unresolved(e) => e,
        Fault::Unreachable(e) => e,
        Fault::Io(e) => e,
    }
}

impl StreamError {
    /// What the error says.
    pub fn message(&self) -> (res: String)
        ensures
            res@ == fault_message(self@),
    {
        match self {
            StreamError::Request(e) => saying("read proxy request: ", &e.message()),
            StreamError::Read(e) => saying("read proxy request: ", e),
            StreamError::Unresolved(e) => e.clone(),
            StreamError::Unreachable(e) => e.clone(),
            StreamError::Io(e) => e.clone(),
        }
    }
}

/// An optional value as `Debug` shows it, given how it shows the value.
pub open spec fn option_shown(shown: Option<Seq<char>>) -> Seq<char> {
    match shown {
        Some(s) => "Some("@ + s + ")"@,
        None => "None"@,
    }
}

/// A registration as `Debug` shows it, given how it shows the texts.
pub open spec fn register_shown(
    token: Seq<char>,
    geo: Option<Seq<char>>,
    label: Option<Seq<char>>,
) -> Seq<char> {
    "Register { token: "@ + token + ", geo: "@ + option_shown(geo) + ", label: "@ + option_shown(
        label,
    ) + " }"@
}

/// An optional text in quotes.
pub open spec fn quoted_option(t: Option<Seq<char>>) -> Option<Seq<char>> {
    match t {
        Some(s) => Some(quoted_text(s)),
        None => None,
    }
}

/// A control message as `Debug` shows it.
pub open spec fn ctrl_shown(msg: Ctrl) -> Seq<char> {
    match msg {
        Ctrl::Register { token, geo, label } => register_shown(
            quoted_text(token),
            quoted_option(geo),
            quoted_option(label),
        ),
        Ctrl::Registered { provider_id } => "Registered { provider_id: "@ + quoted_text(provider_id)
            + " }"@,
        Ctrl::Rejected { reason } => "Rejected { reason: "@ + quoted_text(reason) + " }"@,
    }
}

/// A text between others.
fn between(before: &str, text: &str, after: &str) -> (res: String)
    ensures
        res@ == before@ + text@ + after@,
{
    let mut s = before.to_owned();
    s.append(text);
    s.append(after);
    s
}

fn show_option(shown: &Option<String>) -> (res: String)
    ensures
        res@ == option_shown(text_view(*shown)),
{
    match shown {
        Some(s) => between("Some(", s.as_str(), ")"),
        None => "None".to_owned(),
    }
}

/// Shows a registration, given its texts as they are shown.
pub fn show_register(token: &String, geo: &Option<String>, label: &Option<String>) -> (res: String)
    ensures
        res@ == register_shown(token@, text_view(*geo), text_view(*label)),
{
    let mut s = between("Register { token: ", token.as_str(), ", geo: ");
    s.append(show_option(geo).as_str());
    s.append(", label: ");
    s.append(show_option(label).as_str());
    s.append(" }");
    s
}

fn quote_option(t: &Option<String>) -> (res: Option<String>)
    ensures
        text_view(res) == quoted_option(text_view(*t)),
{
    match t {
        Some(s) => Some(quote(s.as_str())),
        None => None,
    }
}

impl CtrlMsg {
    /// The message as `Debug` shows it.
    pub fn shown(&self) -> (res: String)
        ensures
            res@ == ctrl_shown(self@),
    {
        match self {
            CtrlMsg::Register { token, geo, label } => show_register(
                &quote(token.as_str()),
                &quote_option(geo),
                &quote_option(label),
            ),
            CtrlMsg::Registered { provider_id } => between(
                "Registered { provider_id: ",
                quote(provider_id.as_str()).as_str(),
                " }",
            ),
            CtrlMsg::Rejected { reason } => between(
                "Rejected { reason: ",
                quote(reason.as_str()).as_str(),
                " }",
            ),
        }
    }
}

/// What a [`ProviderError`] says.
pub open spec fn provider_message(e: ProviderError) -> Seq<char> {
    match e {
        ProviderError::NotAMessage(what) => "expected register message, got "@ + what@,
        ProviderError::Malformed(e) => e@,
        ProviderError::NotARegistration(msg) => "expected Register, got "@ + ctrl_shown(msg@),
        ProviderError::InvalidToken => "invalid provider token"@,
        ProviderError::Io(e) => e@,
    }
}

impl ProviderError {
    /// What the error says.
    pub fn message(&self) -> (res: String)
        ensures
            res@ == provider_message(*self),
    {
        match self {
            ProviderError::NotAMessage(what) => saying("expected register message, got ", what),
            ProviderError::Malformed(e) => e.clone(),
            ProviderError::NotARegistration(msg) => saying(
                "expected Register, got ",
                &msg.shown(),
            ),
            ProviderError::InvalidToken => "invalid provider token".to_owned(),
            ProviderError::Io(e) => e.clone(),
        }
    }
}

/// What a [`TunnelError`] says.
pub open spec fn tunnel_message(e: TunnelError) -> Seq<char> {
    match e {
        TunnelError::NotConnected(e) => "WebSocket connect failed: "@ + e@,
        TunnelError::NotAMessage(what) => "unexpected auth response: "@ + what@,
        TunnelError::Malformed(e) => e@,
        TunnelError::Rejected(reason) => "registration rejected: "@ + reason@,
        TunnelError::NotAnAnswer(msg) => "unexpected response: "@ + ctrl_shown(msg@),
        TunnelError::Multiplexer(e) => "yamux error: "@ + e@,
        TunnelError::Io(e) => e@,
    }
}

impl TunnelError {
    /// What the error says.
    pub fn message(&self) -> (res: String)
        ensures
            res@ == tunnel_message(*self),
    {
        match self {
            TunnelError::NotConnected(e) => saying("WebSocket connect failed: ", e),
            TunnelError::NotAMessage(what) => saying("unexpected auth response: ", what),
            TunnelError::Malformed(e) => e.clone(),
            TunnelError::Rejected(reason) => saying("registration rejected: ", reason),
            TunnelError::NotAnAnswer(msg) => saying("unexpected response: ", &msg.shown()),
            TunnelError::Multiplexer(e) => saying("yamux error: ", e),
            TunnelError::Io(e) => e.clone(),
        }
    }
}

} // verus!
