//! A provider agent's session with the gateway: it registers, serves while its
//! connection is driven, and leaves.

use crate::handshake::{payload, payload_of, Incoming, Payload};
use crate::proto::{Ctrl, CtrlMsg};
use crate::server::ids::{is_random_uuid, new_provider_id, provider_id_text, uuid_text};
use crate::server::pool::{ProviderHandle, ProviderPool};
use std::sync::Arc;
use vstd::prelude::*;

verus! {

/// Why a provider's session ends early.
#[derive(Debug)]
pub enum ProviderError {
    /// Something other than a message with JSON came.
    NotAMessage(String),
    /// The JSON is not a control message.
    Malformed(String),
    /// The control message is not a registration.
    NotARegistration(CtrlMsg),
    /// The token is wrong.
    InvalidToken,
    /// The connection failed.
    Io(String),
}

/// Where a provider's session stands.
#[derive(Debug)]
pub enum ProviderStage {
    /// The registration is awaited.
    Waiting,
    /// The registration is being decoded.
    Decoding,
    /// The provider is being told that it is registered.
    Registering(Arc<ProviderHandle>),
    /// The provider serves.
    Serving(u128),
    /// The session has ended.
    Closed,
}

/// What came of what the session asked for.
#[derive(Debug)]
pub enum ProviderEvent {
    /// This came from the agent.
    Incoming(Incoming),
    /// The JSON was decoded, or not.
    Decoded(Result<CtrlMsg, String>),
    /// The message was sent.
    Sent,
    /// Sending the message failed.
    Broken(String),
    /// The connection is no longer driven.
    Stopped,
}

/// What the session asks for.
#[derive(Debug)]
pub enum ProviderAction {
    /// Receive a message.
    Receive,
    /// Decode JSON.
    Decode(Payload),
    /// Send a message.
    Send(CtrlMsg),
    /// Drive the connection of the provider with this identifier until it
    /// closes.
    Drive(u128),
    /// End the session: try to send the reply, and report the error.
    Close { reply: Option<CtrlMsg>, error: Option<ProviderError> },
}

/// A [`ProviderAction`] as a mathematical value.
#[verifier::ext_equal]
pub enum Asks {
    Receive,
    Decode(Payload),
    Send(Ctrl),
    Drive(u128),
    Close { reply: Option<Ctrl>, error: Option<ProviderError> },
}

impl View for ProviderAction {
    type V = Asks;

    open spec fn view(&self) -> Asks {
        match *self {
            ProviderAction::Receive => Asks::Receive,
            ProviderAction::Decode(p) => Asks::Decode(p),
            ProviderAction::Send(msg) => Asks::Send(msg@),
            ProviderAction::Drive(id) => Asks::Drive(id),
            ProviderAction::Close { reply, error } => Asks::Close {
                reply: match reply {
                    Some(msg) => Some(msg@),
                    None => None,
                },
                error,
            },
        }
    }
}

/// Where a session and the pool go.
#[verifier::ext_equal]
pub struct Course {
    pub at: ProviderStage,
    pub asks: Asks,
    pub pool: Map<u128, ProviderHandle>,
}

/// The end of a session with an error, before the provider is in the pool.
pub open spec fn turn_away(
    reply: Option<Ctrl>,
    error: ProviderError,
    pool: Map<u128, ProviderHandle>,
) -> Option<Course> {
    Some(
        Course {
            at: ProviderStage::Closed,
            asks: Asks::Close { reply, error: Some(error) },
            pool,
        },
    )
}

/// Where a session goes from a stage on an event, given the token that agents
/// must present and the identifier that the provider gets if it registers;
/// `None` where the event is not one that the session asked for.
pub open spec fn provider_next(
    token: Seq<char>,
    at: ProviderStage,
    pool: Map<u128, ProviderHandle>,
    event: ProviderEvent,
    id: u128,
) -> Option<Course> {
    match (at, event) {
        (ProviderStage::Waiting, ProviderEvent::Incoming(incoming)) => match payload_of(incoming) {
            Ok(p) => Some(Course { at: ProviderStage::Decoding, asks: Asks::Decode(p), pool }),
            Err(what) => turn_away(None, ProviderError::NotAMessage(what), pool),
        },
        (ProviderStage::Decoding, ProviderEvent::Decoded(Err(e))) => turn_away(
            None,
            ProviderError::Malformed(e),
            pool,
        ),
        (
            ProviderStage::Decoding,
            ProviderEvent::Decoded(Ok(CtrlMsg::Register { token: given, geo, label })),
        ) => if given@ == token {
            Some(
                Course {
                    at: ProviderStage::Registering(Arc::new(ProviderHandle { id, label, geo })),
                    asks: Asks::Send(Ctrl::Registered { provider_id: uuid_text(id) }),
                    pool,
                },
            )
        } else {
            turn_away(
                Some(Ctrl::Rejected { reason: "invalid token"@ }),
                ProviderError::InvalidToken,
                pool,
            )
        },
        (ProviderStage::Decoding, ProviderEvent::Decoded(Ok(other))) => turn_away(
            None,
            ProviderError::NotARegistration(other),
            pool,
        ),
        (ProviderStage::Registering(handle), ProviderEvent::Sent) => Some(
            Course {
                at: ProviderStage::Serving(handle.id),
                asks: Asks::Drive(handle.id),
                pool: pool.insert(handle.id, *handle),
            },
        ),
        (ProviderStage::Registering(_), ProviderEvent::Broken(e)) => turn_away(
            None,
            ProviderError::Io(e),
            pool,
        ),
        (ProviderStage::Serving(served), ProviderEvent::Stopped) => Some(
            Course {
                at: ProviderStage::Closed,
                asks: Asks::Close { reply: None, error: None },
                pool: pool.remove(served),
            },
        ),
        _ => None,
    }
}

/// Whether an event registers a provider.
pub open spec fn registers(token: Seq<char>, at: ProviderStage, event: ProviderEvent) -> bool {
    at is Decoding && (event matches ProviderEvent::Decoded(
        Ok(CtrlMsg::Register { token: given, .. }),
    ) && given@ == token)
}

/// A provider agent's session.
#[derive(Debug)]
pub struct ProviderSession {
    stage: ProviderStage,
}

impl ProviderSession {
    /// Where the session stands.
    pub closed spec fn at(&self) -> ProviderStage {
        self.stage
    }

    /// A session with an agent that has just connected, and what it asks for
    /// first.
    pub fn new() -> (res: (Self, ProviderAction))
        ensures
            res.0.at() == ProviderStage::Waiting,
            res.1@ == Asks::Receive,
    {
        (ProviderSession { stage: ProviderStage::Waiting }, ProviderAction::Receive)
    }

    /// Whether an event is one that the session asked for.
    pub fn accepts(&self, event: &ProviderEvent) -> (res: bool)
        ensures
            forall|token: Seq<char>, pool: Map<u128, ProviderHandle>, id: u128|
                res == (#[trigger] provider_next(token, self.at(), pool, *event, id) is Some),
    {
        match (&self.stage, event) {
            (ProviderStage::Waiting, ProviderEvent::Incoming(_)) => true,
            (ProviderStage::Decoding, ProviderEvent::Decoded(_)) => true,
            (ProviderStage::Registering(_), ProviderEvent::Sent) => true,
            (ProviderStage::Registering(_), ProviderEvent::Broken(_)) => true,
            (ProviderStage::Serving(_), ProviderEvent::Stopped) => true,
            _ => false,
        }
    }

    /// Takes the session's next step, with the identifier that the provider
    /// gets if it registers.
    pub fn step_with_id(
        self,
        token: &String,
        pool: &mut ProviderPool,
        event: ProviderEvent,
        id: u128,
    ) -> (res: (Self, ProviderAction))
        requires
            old(pool).wf(),
            provider_next(token@, self.at(), old(pool)@, event, id) is Some,
        ensures
            final(pool).wf(),
            final(pool).picks() == old(pool).picks(),
            Some(Course { at: res.0.at(), asks: res.1@, pool: final(pool)@ }) == provider_next(
                token@,
                self.at(),
                old(pool)@,
                event,
                id,
            ),
    {
        let (stage, action) = match (self.stage, event) {
            (ProviderStage::Waiting, ProviderEvent::Incoming(incoming)) => match payload(incoming) {
                Ok(p) => (ProviderStage::Decoding, ProviderAction::Decode(p)),
                Err(what) => closed(None, ProviderError::NotAMessage(what)),
            },
            (ProviderStage::Decoding, ProviderEvent::Decoded(Err(e))) => closed(
                None,
                ProviderError::Malformed(e),
            ),
            (
                ProviderStage::Decoding,
                ProviderEvent::Decoded(Ok(CtrlMsg::Register { token: given, geo, label })),
            ) => {
                if given == *token {
                    let handle = ProviderHandle::new(id, label, geo);
                    let reply = CtrlMsg::Registered { provider_id: provider_id_text(id) };
                    (ProviderStage::Registering(handle), ProviderAction::Send(reply))
                } else {
                    let reply = CtrlMsg::Rejected { reason: "invalid token".to_owned() };
                    closed(Some(reply), ProviderError::InvalidToken)
                }
            },
            (ProviderStage::Decoding, ProviderEvent::Decoded(Ok(other))) => closed(
                None,
                ProviderError::NotARegistration(other),
            ),
            (ProviderStage::Registering(handle), ProviderEvent::Sent) => {
                let served = handle.id;
                pool.insert(handle);
                (ProviderStage::Serving(served), ProviderAction::Drive(served))
            },
            (ProviderStage::Registering(_), ProviderEvent::Broken(e)) => closed(
                None,
                ProviderError::Io(e),
            ),
            (ProviderStage::Serving(served), ProviderEvent::Stopped) => {
                pool.remove(&served);
                (ProviderStage::Closed, ProviderAction::Close { reply: None, error: None })
            },
            (_, _) => (ProviderStage::Closed, ProviderAction::Close { reply: None, error: None }),
        };
        (ProviderSession { stage }, action)
    }

    /// Whether an event registers a provider.
    fn is_registration(&self, token: &String, event: &ProviderEvent) -> (res: bool)
        ensures
            res == registers(token@, self.at(), *event),
    {
        match (&self.stage, event) {
            (
                ProviderStage::Decoding,
                ProviderEvent::Decoded(Ok(CtrlMsg::Register { token: given, .. })),
            ) => *given == *token,
            _ => false,
        }
    }

    /// Takes the session's next step.  A provider that registers gets a random
    /// identifier.
    pub fn step(self, token: &String, pool: &mut ProviderPool, event: ProviderEvent) -> (res: (
        Self,
        ProviderAction,
    ))
        requires
            old(pool).wf(),
            provider_next(token@, self.at(), old(pool)@, event, 0) is Some,
        ensures
            final(pool).wf(),
            final(pool).picks() == old(pool).picks(),
            exists|id: u128|
                (registers(token@, self.at(), event) ==> is_random_uuid(id)) && Some(
                    Course { at: res.0.at(), asks: res.1@, pool: final(pool)@ },
                ) == #[trigger] provider_next(token@, self.at(), old(pool)@, event, id),
    {
        let id = if self.is_registration(token, &event) {
            new_provider_id()
        } else {
            0
        };
        self.step_with_id(token, pool, event, id)
    }
}

/// Ends a session with an error.
fn closed(reply: Option<CtrlMsg>, error: ProviderError) -> (res: (ProviderStage, ProviderAction))
    ensures
        res.0 is Closed,
        res.1@ == (Asks::Close {
            reply: match reply {
                Some(msg) => Some(msg@),
                None => None,
            },
            error: Some(error),
        }),
{
    (ProviderStage::Closed, ProviderAction::Close { reply, error: Some(error) })
}

} // verus!
