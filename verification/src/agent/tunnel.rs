//! The agent's tunnel to the gateway: it connects, registers, and takes the
//! streams that the gateway opens.

use crate::agent::config::Config;
use crate::handshake::{payload, payload_of, Incoming, Payload};
use crate::proto::{text_view, Ctrl, CtrlMsg};
use vstd::prelude::*;

verus! {

/// The longest WebSocket message that the agent takes: 64 MiB.
pub const MAX_MESSAGE_SIZE: usize = 67_108_864;

/// The longest WebSocket frame that the agent takes: 16 MiB.
pub const MAX_FRAME_SIZE: usize = 16_777_216;

/// How to connect to the gateway.
#[derive(Debug)]
pub struct Dialup {
    pub url: String,
    pub max_message_size: usize,
    pub max_frame_size: usize,
    pub accept_invalid_certs: bool,
}

/// Makes the plan to connect to the gateway that a configuration names.
pub fn dialup(cfg: &Config) -> (res: Dialup)
    ensures
        res.url@ == cfg.server_url@,
        res.max_message_size == MAX_MESSAGE_SIZE,
        res.max_frame_size == MAX_FRAME_SIZE,
        res.accept_invalid_certs == cfg.accept_invalid_certs,
{
    Dialup {
        url: cfg.server_url.clone(),
        max_message_size: MAX_MESSAGE_SIZE,
        max_frame_size: MAX_FRAME_SIZE,
        accept_invalid_certs: cfg.accept_invalid_certs,
    }
}

/// A copy of an optional text.
fn copy_text(t: &Option<String>) -> (res: Option<String>)
    ensures
        text_view(res) == text_view(*t),
{
    match t {
        Some(s) => Some(s.clone()),
        None => None,
    }
}

/// The registration of an agent with this configuration.
pub open spec fn registration(cfg: Config) -> Ctrl {
    Ctrl::Register {
        token: cfg.token@,
        geo: text_view(cfg.geo),
        label: text_view(cfg.label),
    }
}

/// Makes the registration of an agent with this configuration.
pub fn register_message(cfg: &Config) -> (res: CtrlMsg)
    ensures
        res@ == registration(*cfg),
{
    CtrlMsg::Register {
        token: cfg.token.clone(),
        geo: copy_text(&cfg.geo),
        label: copy_text(&cfg.label),
    }
}

/// Why a tunnel ends early.
#[derive(Debug)]
pub enum TunnelError {
    /// The gateway could not be connected.
    NotConnected(String),
    /// Something other than a message with JSON came.
    NotAMessage(String),
    /// The JSON is not a control message.
    Malformed(String),
    /// The gateway rejected the registration, for this reason.
    Rejected(String),
    /// The control message does not answer a registration.
    NotAnAnswer(CtrlMsg),
    /// The multiplexer failed.
    Multiplexer(String),
    /// The connection failed.
    Io(String),
}

/// Where a tunnel stands.
#[derive(Debug)]
pub enum TunnelStage {
    /// The gateway is being connected.
    Connecting,
    /// The registration is being sent.
    Registering,
    /// The answer is awaited.
    Waiting,
    /// The answer is being decoded.
    Decoding,
    /// Streams are awaited.
    Serving,
    /// The tunnel has ended.
    Closed,
}

/// What came of what the tunnel asked for.
#[derive(Debug)]
pub enum TunnelEvent {
    /// The gateway is connected.
    Connected,
    /// The gateway could not be connected.
    NotConnected(String),
    /// The message was sent.
    Sent,
    /// Sending the message failed.
    Broken(String),
    /// This came from the gateway.
    Incoming(Incoming),
    /// The JSON was decoded, or not.
    Decoded(Result<CtrlMsg, String>),
    /// The gateway has opened a stream.
    Stream,
    /// The multiplexer failed.
    Failed(String),
    /// The connection was closed.
    Ended,
}

/// What the tunnel asks for.
#[derive(Debug)]
pub enum TunnelAction {
    /// Send a message.
    Send(CtrlMsg),
    /// Receive a message.
    Receive,
    /// Decode JSON.
    Decode(Payload),
    /// Start the multiplexer, and await a stream.
    Serve,
    /// Hand the stream to a task of its own, and await the next.
    Spawn,
    /// End the tunnel, and report the error.
    Close(Option<TunnelError>),
}

/// A [`TunnelAction`] as a mathematical value.
#[verifier::ext_equal]
pub enum Wants {
    Send(Ctrl),
    Receive,
    Decode(Payload),
    Serve,
    Spawn,
    Close(Option<TunnelError>),
}

impl View for TunnelAction {
    type V = Wants;

    open spec fn view(&self) -> Wants {
        match *self {
            TunnelAction::Send(msg) => Wants::Send(msg@),
            TunnelAction::Receive => Wants::Receive,
            TunnelAction::Decode(p) => Wants::Decode(p),
            TunnelAction::Serve => Wants::Serve,
            TunnelAction::Spawn => Wants::Spawn,
            TunnelAction::Close(error) => Wants::Close(error),
        }
    }
}

/// The end of a tunnel with an error.
pub open spec fn give_up(error: TunnelError) -> Option<(TunnelStage, Wants)> {
    Some((TunnelStage::Closed, Wants::Close(Some(error))))
}

/// Where a tunnel goes from a stage on an event, and what it asks for; `None`
/// where the event is not one that the tunnel asked for.
pub open spec fn tunnel_next(cfg: Config, at: TunnelStage, event: TunnelEvent) -> Option<
    (TunnelStage, Wants),
> {
    match (at, event) {
        (TunnelStage::Connecting, TunnelEvent::Connected) => Some(
            (TunnelStage::Registering, Wants::Send(registration(cfg))),
        ),
        (TunnelStage::Connecting, TunnelEvent::NotConnected(e)) => give_up(
            TunnelError::NotConnected(e),
        ),
        (TunnelStage::Registering, TunnelEvent::Sent) => Some(
            (TunnelStage::Waiting, Wants::Receive),
        ),
        (TunnelStage::Registering, TunnelEvent::Broken(e)) => give_up(TunnelError::Io(e)),
        (TunnelStage::Waiting, TunnelEvent::Incoming(incoming)) => match payload_of(incoming) {
            Ok(p) => Some((TunnelStage::Decoding, Wants::Decode(p))),
            Err(what) => give_up(TunnelError::NotAMessage(what)),
        },
        (TunnelStage::Decoding, TunnelEvent::Decoded(Err(e))) => give_up(
            TunnelError::Malformed(e),
        ),
        (TunnelStage::Decoding, TunnelEvent::Decoded(Ok(msg))) => match msg {
            CtrlMsg::Registered { .. } => Some((TunnelStage::Serving, Wants::Serve)),
            CtrlMsg::Rejected { reason } => give_up(TunnelError::Rejected(reason)),
            CtrlMsg::Register { .. } => give_up(TunnelError::NotAnAnswer(msg)),
        },
        (TunnelStage::Serving, TunnelEvent::Stream) => Some((TunnelStage::Serving, Wants::Spawn)),
        (TunnelStage::Serving, TunnelEvent::Failed(e)) => give_up(TunnelError::Multiplexer(e)),
        (TunnelStage::Serving, TunnelEvent::Ended) => Some(
            (TunnelStage::Closed, Wants::Close(None)),
        ),
        _ => None,
    }
}

/// The agent's tunnel to the gateway.
#[derive(Debug)]
pub struct Tunnel {
    stage: TunnelStage,
}

fn given_up(error: TunnelError) -> (res: (TunnelStage, TunnelAction))
    ensures
        Some((res.0, res.1@)) == give_up(error),
{
    (TunnelStage::Closed, TunnelAction::Close(Some(error)))
}

impl Tunnel {
    /// Where the tunnel stands.
    pub closed spec fn at(&self) -> TunnelStage {
        self.stage
    }

    /// A tunnel to a gateway that is being connected as [`dialup`] says.
    pub fn new() -> (res: Self)
        ensures
            res.at() == TunnelStage::Connecting,
    {
        Tunnel { stage: TunnelStage::Connecting }
    }

    /// Whether an event is one that the tunnel asked for.
    pub fn accepts(&self, event: &TunnelEvent) -> (res: bool)
        ensures
            forall|cfg: Config|
                res == (#[trigger] tunnel_next(cfg, self.at(), *event) is Some),
    {
        match (&self.stage, event) {
            (TunnelStage::Connecting, TunnelEvent::Connected) => true,
            (TunnelStage::Connecting, TunnelEvent::NotConnected(_)) => true,
            (TunnelStage::Registering, TunnelEvent::Sent) => true,
            (TunnelStage::Registering, TunnelEvent::Broken(_)) => true,
            (TunnelStage::Waiting, TunnelEvent::Incoming(_)) => true,
            (TunnelStage::Decoding, TunnelEvent::Decoded(_)) => true,
            (TunnelStage::Serving, TunnelEvent::Stream) => true,
            (TunnelStage::Serving, TunnelEvent::Failed(_)) => true,
            (TunnelStage::Serving, TunnelEvent::Ended) => true,
            _ => false,
        }
    }

    /// Takes the tunnel's next step.
    pub fn step(self, cfg: &Config, event: TunnelEvent) -> (res: (Self, TunnelAction))
        requires
            tunnel_next(*cfg, self.at(), event) is Some,
        ensures
            Some((res.0.at(), res.1@)) == tunnel_next(*cfg, self.at(), event),
    {
        let (stage, action) = match (self.stage, event) {
            (TunnelStage::Connecting, TunnelEvent::Connected) => {
                (TunnelStage::Registering, TunnelAction::Send(register_message(cfg)))
            },
            (TunnelStage::Connecting, TunnelEvent::NotConnected(e)) => given_up(
                TunnelError::NotConnected(e),
            ),
            (TunnelStage::Registering, TunnelEvent::Sent) => {
                (TunnelStage::Waiting, TunnelAction::Receive)
            },
            (TunnelStage::Registering, TunnelEvent::Broken(e)) => given_up(TunnelError::Io(e)),
            (TunnelStage::Waiting, TunnelEvent::Incoming(incoming)) => match payload(incoming) {
                Ok(p) => (TunnelStage::Decoding, TunnelAction::Decode(p)),
                Err(what) => given_up(TunnelError::NotAMessage(what)),
            },
            (TunnelStage::Decoding, TunnelEvent::Decoded(Err(e))) => given_up(
                TunnelError::Malformed(e),
            ),
            (TunnelStage::Decoding, TunnelEvent::Decoded(Ok(msg))) => match msg {
                CtrlMsg::Registered { .. } => (TunnelStage::Serving, TunnelAction::Serve),
                CtrlMsg::Rejected { reason } => given_up(TunnelError::Rejected(reason)),
                other => given_up(TunnelError::NotAnAnswer(other)),
            },
            (TunnelStage::Serving, TunnelEvent::Stream) => {
                (TunnelStage::Serving, TunnelAction::Spawn)
            },
            (TunnelStage::Serving, TunnelEvent::Failed(e)) => given_up(
                TunnelError::Multiplexer(e),
            ),
            (TunnelStage::Serving, TunnelEvent::Ended) => {
                (TunnelStage::Closed, TunnelAction::Close(None))
            },
            (_, _) => (TunnelStage::Closed, TunnelAction::Close(None)),
        };
        (Tunnel { stage }, action)
    }
}

/// Where a tunnel stands after the events; `None` where an event was not one
/// that it asked for.
pub open spec fn tunnel_run(cfg: Config, events: Seq<TunnelEvent>) -> Option<TunnelStage>
    decreases events.len(),
{
    if events.len() == 0 {
        Some(TunnelStage::Connecting)
    } else {
        match tunnel_run(cfg, events.drop_last()) {
            None => None,
            Some(at) => match tunnel_next(cfg, at, events.last()) {
                None => None,
                Some((to, _)) => Some(to),
            },
        }
    }
}

/// Whether the gateway has accepted the registration.
pub open spec fn has_been_registered(events: Seq<TunnelEvent>) -> bool {
    exists|i: int|
        0 <= i < events.len() && (#[trigger] events[i] matches TunnelEvent::Decoded(
            Ok(CtrlMsg::Registered { .. }),
        ))
}

/// An agent serves streams only once the gateway has accepted its registration.
pub proof fn law_served_only_when_registered(cfg: Config, events: Seq<TunnelEvent>)
    requires
        tunnel_run(cfg, events) is Some,
    ensures
        tunnel_run(cfg, events) == Some(TunnelStage::Serving) ==> has_been_registered(events),
    decreases events.len(),
{
    if events.len() > 0 && tunnel_run(cfg, events) == Some(TunnelStage::Serving) {
        let before = events.drop_last();
        law_served_only_when_registered(cfg, before);
        let was = tunnel_run(cfg, before)->0;
        if was is Serving {
            let i = choose|i: int|
                0 <= i < before.len() && (#[trigger] before[i] matches TunnelEvent::Decoded(
                    Ok(CtrlMsg::Registered { .. }),
                ));
            assert(events[i] == before[i]);
        } else {
            assert(events[events.len() - 1] == events.last());
        }
    }
}

} // verus!
