//! Laws of what values stand for: the bytes and texts that a caller is handed are
//! those that the contracts speak of.

use crate::agent::stream::{Fault, StreamAct, StreamAction, StreamError};
use crate::agent::tunnel::{TunnelAction, Wants};
use crate::messages::{failure_message, fault_message, refusal_message, rejection_message};
use crate::proto::{
    response_bytes, result_view, CtrlMsg, Parsed, Progress, ProtoError, ProxyAddr, Refusal, Target,
};
use crate::server::driver::{Answer, Reply};
use crate::server::http_connect::{ConnectError, Rejection};
use crate::server::provider::{Asks, ProviderAction};
use crate::server::session::{Act, Action, Failure, SessionError};
use crate::ws_stream::{ReadStep, Reading, WriteStep, Writing};
use vstd::prelude::*;
use vstd::utf8::encode_utf8;

verus! {

/// A session asks for what stands in its action: these bytes to be sent, or so many
/// to be received, on the side that the action names.
pub proof fn law_session_action_is_what_is_asked(a: Action, bytes: Seq<u8>, n: nat)
    ensures
        a@ == Act::Send(bytes) <==> (a matches Action::Send(b) && b@ == bytes),
        a@ == Act::SendTunnel(bytes) <==> (a matches Action::SendTunnel(b) && b@ == bytes),
        a@ == Act::Receive(n) <==> (a matches Action::Receive(k) && k == n),
        a@ == Act::ReceiveTunnel(n) <==> (a matches Action::ReceiveTunnel(k) && k == n),
        a@ is ReceiveLine <==> a is ReceiveLine,
        a@ is Pick <==> a is Pick,
        a@ is Open <==> a is Open,
        a@ is Relay <==> a is Relay,
        a@ is Close <==> a is Close,
{
}

/// The end of a session is told with the reply and the error that stand in the
/// action.
pub proof fn law_session_end_is_what_is_told(
    reply: Option<Vec<u8>>,
    release: bool,
    error: Option<SessionError>,
)
    ensures
        ({
            let told = (Action::Close { reply, release, error })@;
            &&& told is Close
            &&& told->release == release
            &&& told->reply is None <==> reply is None
            &&& reply is Some ==> told->reply == Some(reply->0@)
            &&& told->error is None <==> error is None
            &&& error is Some ==> told->error == Some(error->0@)
        }),
{
}

/// An agent's stream asks for what stands in its action.
pub proof fn law_stream_action_is_what_is_asked(a: StreamAction, bytes: Seq<u8>, n: nat)
    ensures
        a@ == StreamAct::Send(bytes) <==> (a matches StreamAction::Send(b) && b@ == bytes),
        a@ == StreamAct::Receive(n) <==> (a matches StreamAction::Receive(k) && k == n),
        a@ == StreamAct::Dial(n) <==> (a matches StreamAction::Dial(k) && k == n),
        a matches StreamAction::Resolve(r) ==> a@ == StreamAct::Resolve(r@),
        a@ is Resolve <==> a is Resolve,
        a@ is Relay <==> a is Relay,
        a@ is Close <==> a is Close,
{
}

/// The end of a stream is told with the reply and the error that stand in the
/// action.
pub proof fn law_stream_end_is_what_is_told(reply: Option<Vec<u8>>, error: Option<StreamError>)
    ensures
        ({
            let told = (StreamAction::Close { reply, error })@;
            &&& told is Close
            &&& told->reply is None <==> reply is None
            &&& reply is Some ==> told->reply == Some(reply->0@)
            &&& told->error is None <==> error is None
            &&& error is Some ==> told->error == Some(error->0@)
        }),
{
}

/// A tunnel asks for what stands in its action.
pub proof fn law_tunnel_action_is_what_is_asked(a: TunnelAction)
    ensures
        a matches TunnelAction::Send(msg) ==> a@ == Wants::Send(msg@),
        a matches TunnelAction::Decode(p) ==> a@ == Wants::Decode(p),
        a matches TunnelAction::Close(e) ==> a@ == Wants::Close(e),
        a@ is Send <==> a is Send,
        a@ is Decode <==> a is Decode,
        a@ is Close <==> a is Close,
        a@ is Receive <==> a is Receive,
        a@ is Serve <==> a is Serve,
        a@ is Spawn <==> a is Spawn,
{
}

/// A provider's session asks for what stands in its action.
pub proof fn law_provider_action_is_what_is_asked(a: ProviderAction)
    ensures
        a matches ProviderAction::Send(msg) ==> a@ == Asks::Send(msg@),
        a matches ProviderAction::Decode(p) ==> a@ == Asks::Decode(p),
        a matches ProviderAction::Drive(id) ==> a@ == Asks::Drive(id),
        a@ is Send <==> a is Send,
        a@ is Decode <==> a is Decode,
        a@ is Drive <==> a is Drive,
        a@ is Receive <==> a is Receive,
        a@ is Close <==> a is Close,
{
}

/// The end of a provider's session is told with the reply and the error that
/// stand in the action.
pub proof fn law_provider_end_is_what_is_told(a: ProviderAction)
    ensures
        a matches ProviderAction::Close { reply, error } ==> {
            &&& a@->error == error
            &&& a@->reply is None <==> reply is None
            &&& reply is Some ==> a@->reply == Some(reply->0@)
        },
{
}

/// A message to or from an agent is told apart by its kind, and holds its texts.
pub proof fn law_message_holds_its_texts(msg: CtrlMsg)
    ensures
        msg matches CtrlMsg::Register { token, geo, label } ==> {
            &&& msg@ is Register
            &&& msg@->token == token@
            &&& geo is None <==> msg@->geo is None
            &&& geo is Some ==> msg@->geo->0 == geo->0@
            &&& label is None <==> msg@->label is None
            &&& label is Some ==> msg@->label->0 == label->0@
        },
        msg matches CtrlMsg::Registered { provider_id } ==> msg@ is Registered && msg@->provider_id
            == provider_id@,
        msg matches CtrlMsg::Rejected { reason } ==> msg@ is Rejected && msg@->reason == reason@,
{
}

/// A reader is handed the bytes, and told the error, that stand in the step; and a
/// writer likewise.
pub proof fn law_steps_are_what_is_told(read: ReadStep, write: WriteStep, bytes: Seq<u8>)
    ensures
        read@ == Reading::Data(bytes) <==> (read matches ReadStep::Data(b) && b@ == bytes),
        read matches ReadStep::Failed(e) ==> read@ == Reading::Failed(e@),
        read@ is Failed <==> read is Failed,
        read@ is Poll <==> read is Poll,
        read@ is Pending <==> read is Pending,
        read@ is Eof <==> read is Eof,
        write@ == Writing::Send(bytes) <==> (write matches WriteStep::Send(b) && b@ == bytes),
        write matches WriteStep::Failed(e) ==> write@ == Writing::Failed(e@),
        write@ is Failed <==> write is Failed,
        write@ is Pending <==> write is Pending,
{
}

/// A request for a stream gets the answer that stands there.
pub proof fn law_answer_is_what_is_told<T>(answer: Answer<T>)
    ensures
        answer matches Answer::Stream(t) ==> answer@ == Reply::Stream(t),
        answer matches Answer::Error(t, msg) ==> answer@ == Reply::Error(t, msg@),
        answer@ is Stream <==> answer is Stream,
{
}

/// A reader of headers is told as many bytes as stand there, and the target and
/// the error.
pub proof fn law_progress_is_what_is_told(p: Progress<ProxyAddr, ProtoError>)
    ensures
        p matches Progress::Need(n) ==> p@ == Parsed::<Target, Refusal>::Need(n as nat),
        p matches Progress::Done(t, n) ==> p@ == Parsed::<Target, Refusal>::Done(t@, n as nat),
        p matches Progress::Fail(e) ==> p@ == Parsed::<Target, Refusal>::Fail(e@),
{
}

/// An agent answers with the reason that it is given.
pub proof fn law_given_reason_is_answered(reason: String)
    ensures
        ({
            let response = response_bytes(result_view(Err(reason)));
            &&& response.len() >= 2
            &&& response.skip(2) == encode_utf8(reason@).take(response.len() - 2)
            &&& response.len() == 257 || response.len() - 2 == encode_utf8(reason@).len()
        }),
        response_bytes(result_view(Ok(()))).len() == 1,
{
    let response = response_bytes(result_view(Err(reason)));
    assert(response.skip(2) =~= encode_utf8(reason@).take(response.len() - 2));
}

/// An error keeps the text that it is made with, and is told apart by its kind.
pub proof fn law_protocol_error_keeps_its_text(text: String, n: u8)
    ensures
        refusal_message(ProtoError::DomainTooLong(text)@) == "domain too long: "@ + text@,
        refusal_message(ProtoError::InvalidDomain(text)@) == "invalid domain: "@ + text@,
        refusal_message(ProtoError::AgentError(text)@) == "agent error: "@ + text@,
        ProtoError::UnsupportedVersion(n)@ == Refusal::UnsupportedVersion(n),
        ProtoError::UnknownAddrType(n)@ == Refusal::UnknownAddrType(n),
        ProtoError::UnknownStatus(n)@ == Refusal::UnknownStatus(n),
{
}

/// An error of a request keeps the text that it is made with.
pub proof fn law_request_error_keeps_its_text(text: String)
    ensures
        rejection_message(ConnectError::UnsupportedMethod(text)@) == "unsupported method: "@
            + text@,
        rejection_message(ConnectError::InvalidPort(text)@) == "invalid port: "@ + text@,
        rejection_message(ConnectError::InvalidIpv6(text)@) == "invalid IPv6: "@ + text@,
        rejection_message(ConnectError::MissingPort(text)@) == "missing port in: "@ + text@,
        ConnectError::MalformedRequest@ == Rejection::MalformedRequest,
{
}

/// An error of a session says what the error that it holds says.
pub proof fn law_session_error_says_the_same(e: SessionError)
    ensures
        e matches SessionError::Open(text) ==> failure_message(e@) == text@,
        e matches SessionError::Io(text) ==> failure_message(e@) == text@,
        e matches SessionError::Http(h) ==> failure_message(e@) == rejection_message(h@),
        e matches SessionError::Proto(p) ==> failure_message(e@) == refusal_message(p@),
        e matches SessionError::Socks5(s) ==> e@ == Failure::Socks5(s),
        e is NoProviders <==> e@ is NoProviders,
{
}

/// An error of a stream says what the error that it holds says.
pub proof fn law_stream_error_says_the_same(e: StreamError)
    ensures
        e matches StreamError::Request(p) ==> e@ == Fault::Request(p@),
        e matches StreamError::Read(text) ==> fault_message(e@) == "read proxy request: "@ + text@,
        e matches StreamError::Unresolved(text) ==> fault_message(e@) == text@,
        e matches StreamError::Unreachable(text) ==> fault_message(e@) == text@,
        e matches StreamError::Io(text) ==> fault_message(e@) == text@,
{
}

} // verus!
