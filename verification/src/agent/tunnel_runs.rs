//! What an agent does, from its connection to the gateway on.

use crate::agent::config::Config;
use crate::agent::tunnel::{tunnel_next, TunnelError, TunnelEvent, TunnelStage, Wants};
use crate::handshake::{Incoming, Payload};
use crate::proto::CtrlMsg;
use crate::server::pool::ProviderHandle;
use crate::server::provider::{provider_next, ProviderEvent, ProviderStage};
use vstd::prelude::*;

verus! {

/// Whether two optional texts say the same.
pub open spec fn same_text(a: Option<String>, b: Option<String>) -> bool {
    match (a, b) {
        (Some(s), Some(t)) => s@ == t@,
        (None, None) => true,
        _ => false,
    }
}

/// Whether a message is the registration of an agent with this configuration,
/// field by field.
pub open spec fn registers_as(msg: CtrlMsg, cfg: Config) -> bool {
    msg matches CtrlMsg::Register { token, geo, label } && token@ == cfg.token@ && same_text(
        geo,
        cfg.geo,
    ) && same_text(label, cfg.label)
}

/// Once it is connected, an agent sends one message, and that registers it with
/// its own token, geographic label and label.
pub proof fn law_agent_registers_as_configured(cfg: Config, msg: CtrlMsg)
    ensures
        tunnel_next(cfg, TunnelStage::Connecting, TunnelEvent::Connected) matches Some((at, wants))
            && at == TunnelStage::Registering && wants is Send,
        tunnel_next(cfg, TunnelStage::Connecting, TunnelEvent::Connected) == Some(
            (TunnelStage::Registering, Wants::Send(msg@)),
        ) <==> registers_as(msg, cfg),
{
}

/// A gateway that has the token of a connected agent, and gets what the agent
/// sends, puts that agent into its pool, with the agent's own labels.
pub proof fn law_gateway_pools_the_agent_as_configured(
    cfg: Config,
    msg: CtrlMsg,
    pool: Map<u128, ProviderHandle>,
    later: Map<u128, ProviderHandle>,
    id: u128,
    other: u128,
)
    requires
        tunnel_next(cfg, TunnelStage::Connecting, TunnelEvent::Connected) == Some(
            (TunnelStage::Registering, Wants::Send(msg@)),
        ),
    ensures
        ({
            let decoded = ProviderEvent::Decoded(Ok(msg));
            &&& provider_next(cfg.token@, ProviderStage::Decoding, pool, decoded, id) matches Some(
                registering,
            )
            &&& registering.pool == pool
            &&& provider_next(
                cfg.token@,
                registering.at,
                later,
                ProviderEvent::Sent,
                other,
            ) matches Some(serving)
            &&& serving.at == ProviderStage::Serving(id)
            &&& serving.pool.contains_key(id)
            &&& serving.pool[id].id == id
            &&& same_text(serving.pool[id].geo, cfg.geo)
            &&& same_text(serving.pool[id].label, cfg.label)
            &&& serving.pool.remove(id) == later.remove(id)
        }),
{
    law_agent_registers_as_configured(cfg, msg);
    let decoded = ProviderEvent::Decoded(Ok(msg));
    let registering = provider_next(cfg.token@, ProviderStage::Decoding, pool, decoded, id)->0;
    let serving = provider_next(
        cfg.token@,
        registering.at,
        later,
        ProviderEvent::Sent,
        other,
    )->0;
    assert(serving.pool.remove(id) =~= later.remove(id));
}

/// Whether a tunnel ends with an error.
pub open spec fn gives_up(next: Option<(TunnelStage, Wants)>, error: TunnelError) -> bool {
    next == Some((TunnelStage::Closed, Wants::Close(Some(error))))
}

/// What an agent receives it hands on unchanged to be decoded, and what is no
/// message with text or bytes ends the tunnel.
pub proof fn law_answer_is_decoded_as_it_came(cfg: Config, text: String, bytes: Vec<u8>)
    ensures
        tunnel_next(
            cfg,
            TunnelStage::Waiting,
            TunnelEvent::Incoming(Incoming::Text(text)),
        ) == Some((TunnelStage::Decoding, Wants::Decode(Payload::Text(text)))),
        tunnel_next(
            cfg,
            TunnelStage::Waiting,
            TunnelEvent::Incoming(Incoming::Binary(bytes)),
        ) == Some((TunnelStage::Decoding, Wants::Decode(Payload::Binary(bytes)))),
        gives_up(
            tunnel_next(cfg, TunnelStage::Waiting, TunnelEvent::Incoming(Incoming::Other(text))),
            TunnelError::NotAMessage(text),
        ),
{
}

/// Every failure ends the tunnel, with an error that keeps what was said of it.
pub proof fn law_failures_end_the_tunnel(cfg: Config, why: String, msg: CtrlMsg)
    ensures
        gives_up(
            tunnel_next(cfg, TunnelStage::Connecting, TunnelEvent::NotConnected(why)),
            TunnelError::NotConnected(why),
        ),
        gives_up(
            tunnel_next(cfg, TunnelStage::Registering, TunnelEvent::Broken(why)),
            TunnelError::Io(why),
        ),
        gives_up(
            tunnel_next(cfg, TunnelStage::Decoding, TunnelEvent::Decoded(Err(why))),
            TunnelError::Malformed(why),
        ),
        gives_up(
            tunnel_next(cfg, TunnelStage::Serving, TunnelEvent::Failed(why)),
            TunnelError::Multiplexer(why),
        ),
        msg is Register ==> gives_up(
            tunnel_next(cfg, TunnelStage::Decoding, TunnelEvent::Decoded(Ok(msg))),
            TunnelError::NotAnAnswer(msg),
        ),
{
}

/// A registered agent takes every stream that the gateway opens, for as long as
/// the connection stands, and ends without an error when it is closed.
pub proof fn law_every_stream_is_taken(cfg: Config, event: TunnelEvent)
    ensures
        tunnel_next(cfg, TunnelStage::Serving, TunnelEvent::Stream) == Some(
            (TunnelStage::Serving, Wants::Spawn),
        ),
        tunnel_next(cfg, TunnelStage::Serving, TunnelEvent::Ended) == Some(
            (TunnelStage::Closed, Wants::Close(None)),
        ),
        tunnel_next(cfg, TunnelStage::Serving, event) matches Some((_, Wants::Spawn)) ==> event
            == TunnelEvent::Stream,
        tunnel_next(cfg, TunnelStage::Registering, TunnelEvent::Sent) == Some(
            (TunnelStage::Waiting, Wants::Receive),
        ),
{
}

/// A tunnel sends nothing but its registration, and that once: when it has just
/// been connected.
pub proof fn law_only_the_registration_is_sent(cfg: Config, at: TunnelStage, event: TunnelEvent)
    ensures
        tunnel_next(cfg, at, event) matches Some((_, Wants::Send(_))) ==> at
            == TunnelStage::Connecting && event == TunnelEvent::Connected,
        tunnel_next(cfg, at, event) matches Some((to, _)) ==> to != TunnelStage::Connecting,
{
}

} // verus!
