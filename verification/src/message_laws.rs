//! Laws of what errors say.

use crate::agent::stream::Fault;
use crate::agent::tunnel::TunnelError;
use crate::messages::{
    ctrl_shown, failure_message, fault_message, option_shown, provider_message, quoted_option,
    refusal_message, rejection_message, socks5_message, tunnel_message,
};
use crate::proto::{Ctrl, Refusal};
use crate::server::http_connect::Rejection;
use crate::server::ids::uuid_text;
use crate::server::pool::about;
use crate::server::provider::ProviderError;
use crate::server::session::Failure;
use crate::server::socks5::Socks5Error;
use crate::text::quoted_text;
use crate::text_laws::{
    is_decimal, law_decimal_stands_for_the_number, law_hex_stands_for_the_number, positional,
};
use vstd::prelude::*;

verus! {

/// Whether a message is these words and then this text, all of it.
pub open spec fn says(message: Seq<char>, words: Seq<char>, text: Seq<char>) -> bool {
    message.len() == words.len() + text.len() && message.take(words.len() as int) == words
        && message.skip(words.len() as int) == text
}

proof fn lemma_says(words: Seq<char>, text: Seq<char>)
    ensures
        says(words + text, words, text),
{
    assert((words + text).take(words.len() as int) =~= words);
    assert((words + text).skip(words.len() as int) =~= text);
}

/// Whether a message is these words and then a number in decimal.
pub open spec fn says_number(message: Seq<char>, words: Seq<char>, n: int) -> bool {
    message.len() > words.len() && message.take(words.len() as int) == words && is_decimal(
        message.skip(words.len() as int),
    ) && positional(message.skip(words.len() as int), 10) == n
}

/// Whether a message is these words and then a number in hexadecimal, after `0x`.
pub open spec fn says_code(message: Seq<char>, words: Seq<char>, n: int) -> bool {
    message.len() > words.len() + 2 && message.take(words.len() as int) == words
        && message[words.len() as int] == '0' && message[words.len() as int + 1] == 'x'
        && positional(message.skip(words.len() as int + 2), 16) == n
}

proof fn lemma_says_number(words: Seq<char>, n: u8)
    ensures
        says_number(words + crate::text::decimal(n as nat), words, n as int),
{
    lemma_says(words, crate::text::decimal(n as nat));
    law_decimal_stands_for_the_number(n as nat);
}

proof fn lemma_says_code(words: Seq<char>, n: u8)
    ensures
        says_code(words + "0x"@ + crate::addr_display::hex(n as nat), words, n as int),
{
    let digits = crate::addr_display::hex(n as nat);
    let message = words + "0x"@ + digits;
    reveal_strlit("0x");
    law_hex_stands_for_the_number(n as nat);
    assert(message.take(words.len() as int) =~= words);
    assert(message.skip(words.len() as int + 2) =~= digits);
}

/// An error of the wire protocol says what is wrong, and with what.
pub proof fn law_protocol_errors_say_what_is_wrong(text: Seq<char>, n: u8)
    ensures
        says(refusal_message(Refusal::DomainTooLong(text)), "domain too long: "@, text),
        says(refusal_message(Refusal::InvalidDomain(text)), "invalid domain: "@, text),
        says(refusal_message(Refusal::AgentError(text)), "agent error: "@, text),
        says_code(
            refusal_message(Refusal::UnsupportedVersion(n)),
            "unsupported protocol version: "@,
            n as int,
        ),
        says_code(
            refusal_message(Refusal::UnknownAddrType(n)),
            "unknown address type: "@,
            n as int,
        ),
        says_code(
            refusal_message(Refusal::UnknownStatus(n)),
            "unknown response status: "@,
            n as int,
        ),
{
    lemma_says("domain too long: "@, text);
    lemma_says("invalid domain: "@, text);
    lemma_says("agent error: "@, text);
    lemma_says_code("unsupported protocol version: "@, n);
    lemma_says_code("unknown address type: "@, n);
    lemma_says_code("unknown response status: "@, n);
}

/// A client's error says what is wrong, and with what.
pub proof fn law_client_errors_say_what_is_wrong(text: Seq<char>, n: u8)
    ensures
        says_number(
            socks5_message(Socks5Error::UnsupportedVersion(n)),
            "unsupported SOCKS version: "@,
            n as int,
        ),
        says_number(
            socks5_message(Socks5Error::BadVersion(n)),
            "bad version in request: "@,
            n as int,
        ),
        says_number(
            socks5_message(Socks5Error::UnsupportedCommand(n)),
            "unsupported SOCKS5 command: "@,
            n as int,
        ),
        says_number(
            socks5_message(Socks5Error::UnsupportedAtyp(n)),
            "unsupported atyp: "@,
            n as int,
        ),
        says(
            rejection_message(Rejection::UnsupportedMethod(text)),
            "unsupported method: "@,
            text,
        ),
        says(rejection_message(Rejection::InvalidPort(text)), "invalid port: "@, text),
        says(rejection_message(Rejection::InvalidIpv6(text)), "invalid IPv6: "@, text),
        says(rejection_message(Rejection::MissingPort(text)), "missing port in: "@, text),
{
    lemma_says_number("unsupported SOCKS version: "@, n);
    lemma_says_number("bad version in request: "@, n);
    lemma_says_number("unsupported SOCKS5 command: "@, n);
    lemma_says_number("unsupported atyp: "@, n);
    lemma_says("unsupported method: "@, text);
    lemma_says("invalid port: "@, text);
    lemma_says("invalid IPv6: "@, text);
    lemma_says("missing port in: "@, text);
}

/// An error that wraps another, or the text of another, says what that says.
pub proof fn law_wrapped_errors_say_the_same(
    text: Seq<char>,
    refusal: Refusal,
    rejection: Rejection,
    client: Socks5Error,
)
    ensures
        failure_message(Failure::Proto(refusal)) == refusal_message(refusal),
        failure_message(Failure::Http(rejection)) == rejection_message(rejection),
        failure_message(Failure::Socks5(client)) == socks5_message(client),
        failure_message(Failure::Open(text)) == text,
        failure_message(Failure::Io(text)) == text,
        fault_message(Fault::Unresolved(text)) == text,
        fault_message(Fault::Unreachable(text)) == text,
        fault_message(Fault::Io(text)) == text,
        says(fault_message(Fault::Read(text)), "read proxy request: "@, text),
        says(
            fault_message(Fault::Request(refusal)),
            "read proxy request: "@,
            refusal_message(refusal),
        ),
{
    lemma_says("read proxy request: "@, text);
    lemma_says("read proxy request: "@, refusal_message(refusal));
}

/// An error of a registration says what is wrong, and with what.
pub proof fn law_registration_errors_say_what_is_wrong(text: String)
    ensures
        says(
            provider_message(ProviderError::NotAMessage(text)),
            "expected register message, got "@,
            text@,
        ),
        provider_message(ProviderError::Malformed(text)) == text@,
        provider_message(ProviderError::Io(text)) == text@,
        says(
            tunnel_message(TunnelError::NotConnected(text)),
            "WebSocket connect failed: "@,
            text@,
        ),
        says(
            tunnel_message(TunnelError::NotAMessage(text)),
            "unexpected auth response: "@,
            text@,
        ),
        tunnel_message(TunnelError::Malformed(text)) == text@,
        says(tunnel_message(TunnelError::Rejected(text)), "registration rejected: "@, text@),
        says(tunnel_message(TunnelError::Multiplexer(text)), "yamux error: "@, text@),
        tunnel_message(TunnelError::Io(text)) == text@,
{
    lemma_says("expected register message, got "@, text@);
    lemma_says("WebSocket connect failed: "@, text@);
    lemma_says("unexpected auth response: "@, text@);
    lemma_says("registration rejected: "@, text@);
    lemma_says("yamux error: "@, text@);
}

/// A control message is shown with its texts, each under its name.
pub proof fn law_shown_message_holds_its_texts(
    text: Seq<char>,
    geo: Option<Seq<char>>,
    label: Option<Seq<char>>,
)
    ensures
        says(
            ctrl_shown(Ctrl::Rejected { reason: text }),
            "Rejected { reason: "@,
            quoted_text(text) + " }"@,
        ),
        says(
            ctrl_shown(Ctrl::Registered { provider_id: text }),
            "Registered { provider_id: "@,
            quoted_text(text) + " }"@,
        ),
        says(
            ctrl_shown(Ctrl::Register { token: text, geo, label }),
            "Register { token: "@ + quoted_text(text),
            ", geo: "@ + (shown_as(geo) + (", label: "@ + (shown_as(label) + " }"@))),
        ),
{
    let rejected = "Rejected { reason: "@;
    let registered = "Registered { provider_id: "@;
    let end = quoted_text(text) + " }"@;
    lemma_says(rejected, end);
    lemma_says(registered, end);
    assert(rejected + quoted_text(text) + " }"@ =~= rejected + end);
    assert(registered + quoted_text(text) + " }"@ =~= registered + end);
    lemma_shown_as(geo);
    lemma_shown_as(label);
    let token = "Register { token: "@ + quoted_text(text);
    let rest = ", geo: "@ + (shown_as(geo) + (", label: "@ + (shown_as(label) + " }"@)));
    lemma_says(token, rest);
    assert(ctrl_shown(Ctrl::Register { token: text, geo, label }) =~= token + rest);
}

/// An optional text, shown: `None`, or the text, quoted, in brackets after `Some`.
pub open spec fn shown_as(value: Option<Seq<char>>) -> Seq<char> {
    if value is None {
        seq!['N', 'o', 'n', 'e']
    } else {
        seq!['S', 'o', 'm', 'e', '('] + quoted_text(value->0) + seq![')']
    }
}

proof fn lemma_shown_as(value: Option<Seq<char>>)
    ensures
        option_shown(quoted_option(value)) == shown_as(value),
{
    reveal_strlit("None");
    reveal_strlit("Some(");
    reveal_strlit(")");
    assert(option_shown(quoted_option(value)) =~= shown_as(value));
}

/// A sentence about a provider names it by its identifier, and says what is to be
/// said.
pub proof fn law_provider_is_named(id: u128, what: Seq<char>)
    ensures
        says(about(id, what), "provider "@, uuid_text(id) + what),
{
    lemma_says("provider "@, uuid_text(id) + what);
    assert(about(id, what) =~= "provider "@ + (uuid_text(id) + what));
}

} // verus!
