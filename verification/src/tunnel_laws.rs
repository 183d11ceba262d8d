//! What the gateway and an agent achieve together.

use crate::agent::config::Config;
use crate::agent::stream::{on_header, stream_next, StreamAct, StreamAt, StreamEvent};
use crate::agent::stream_laws::law_request_is_resolved;
use crate::agent::tunnel::{
    give_up, registration, tunnel_next, TunnelError, TunnelEvent, TunnelStage, Wants,
};
use crate::messages::{provider_message, tunnel_message};
use crate::proto::{encodable, response_bytes, text_view, Ctrl, CtrlMsg, Target};
use crate::proto_laws::{law_long_message_is_cut, law_response_round_trip, received_result};
use crate::resolve::route;
use crate::server::ids::uuid_text;
use crate::server::pool::ProviderHandle;
use crate::server::provider::{
    provider_next, turn_away, Asks, ProviderError, ProviderEvent, ProviderStage,
};
use crate::server::session::{
    fail, failure_reply, next, on_response, success_reply, Act, At, Event, Failure, Front, Obstacle,
};
use vstd::prelude::*;
use vstd::utf8::encode_utf8;

verus! {

/// An agent that has the gateway's token is registered, under its own labels,
/// and told its identifier; any other is turned away.
pub proof fn law_agent_is_registered_by_its_token(
    cfg: Config,
    msg: CtrlMsg,
    token: Seq<char>,
    pool: Map<u128, ProviderHandle>,
    id: u128,
)
    requires
        msg@ == registration(cfg),
    ensures
        cfg.token@ == token ==> {
            &&& provider_next(
                token,
                ProviderStage::Decoding,
                pool,
                ProviderEvent::Decoded(Ok(msg)),
                id,
            ) matches Some(c)
            &&& c.at matches ProviderStage::Registering(handle)
            &&& handle.id == id
            &&& text_view(handle.geo) == text_view(cfg.geo)
            &&& text_view(handle.label) == text_view(cfg.label)
            &&& c.asks == Asks::Send(Ctrl::Registered { provider_id: uuid_text(id) })
            &&& c.pool == pool
        },
        cfg.token@ != token ==> provider_next(
            token,
            ProviderStage::Decoding,
            pool,
            ProviderEvent::Decoded(Ok(msg)),
            id,
        ) == turn_away(
            Some(Ctrl::Rejected { reason: "invalid token"@ }),
            ProviderError::InvalidToken,
            pool,
        ),
        provider_message(ProviderError::InvalidToken) == "invalid provider token"@,
{
}

/// An agent serves when the gateway has registered it, and gives up, saying the
/// gateway's reason, when the gateway has rejected it.
pub proof fn law_agent_heeds_the_answer(cfg: Config, msg: CtrlMsg)
    ensures
        msg@ is Registered ==> tunnel_next(
            cfg,
            TunnelStage::Decoding,
            TunnelEvent::Decoded(Ok(msg)),
        ) == Some((TunnelStage::Serving, Wants::Serve)),
        msg@ matches Ctrl::Rejected { reason } ==> exists|error: TunnelError|
            tunnel_next(cfg, TunnelStage::Decoding, TunnelEvent::Decoded(Ok(msg)))
                == #[trigger] give_up(error) && error is Rejected && tunnel_message(error)
                == "registration rejected: "@ + reason,
{
    match msg {
        CtrlMsg::Rejected { reason } => {
            assert(tunnel_next(cfg, TunnelStage::Decoding, TunnelEvent::Decoded(Ok(msg)))
                == give_up(TunnelError::Rejected(reason)));
        },
        _ => {},
    }
}

/// The agent connects to the target that the client asked for, and to no other:
/// what the gateway sends it makes it look for that target.
pub proof fn law_agent_is_sent_to_the_target(front: Front, t: Target)
    requires
        encodable(t),
    ensures
        next(front, At::Opening(t), Event::Opened) matches Some((_, Act::SendTunnel(header)))
            && on_header(header) == (StreamAt::Resolving(t), StreamAct::Resolve(route(t))),
{
    law_request_is_resolved(t);
}

/// When the agent has connected the target, the client is told that it is
/// connected.
pub proof fn law_connected_target_is_confirmed(front: Front, at: StreamAt)
    requires
        at is Dialing,
    ensures
        stream_next(at, StreamEvent::Connected) matches Some((_, StreamAct::Send(response)))
            && on_response(front, response) == (At::Confirming, Act::Send(success_reply(front))),
{
    law_response_round_trip(Ok(()), Seq::empty());
    assert(response_bytes(Ok(())) + Seq::<u8>::empty() =~= response_bytes(Ok(())));
}

/// When the agent reports that it cannot connect the target, the client is told
/// that it is not connected, and the gateway knows the agent's reason: all of
/// it, or the text of its first 255 bytes.
pub proof fn law_agent_error_reaches_the_client(front: Front, why: Seq<char>)
    ensures
        on_response(front, response_bytes(Err(why))) == fail(
            Some(failure_reply(front, Obstacle::Agent)),
            true,
            Failure::Proto(received_result(Err(why))->Err_0),
        ),
{
    if encode_utf8(why).len() <= 255 {
        law_response_round_trip(Err(why), Seq::empty());
    } else {
        law_long_message_is_cut(why, Seq::empty());
    }
    assert(response_bytes(Err(why)) + Seq::<u8>::empty() =~= response_bytes(Err(why)));
}

} // verus!
