//! What holds of every provider session, whatever the agent does.

use crate::handshake::{Incoming, Payload};
use crate::proto::{Ctrl, CtrlMsg};
use crate::server::pool::ProviderHandle;
use crate::server::provider::{
    provider_next, registers, Asks, Course, ProviderError, ProviderEvent, ProviderStage,
};
use std::sync::Arc;
use vstd::prelude::*;

verus! {

/// Where a session and the pool stand after events, each with the identifier
/// that a provider would have got on it; `None` where some event was not one
/// that the session asked for.
pub open spec fn provider_run(
    token: Seq<char>,
    pool: Map<u128, ProviderHandle>,
    steps: Seq<(ProviderEvent, u128)>,
) -> Option<Course>
    decreases steps.len(),
{
    if steps.len() == 0 {
        Some(Course { at: ProviderStage::Waiting, asks: Asks::Receive, pool })
    } else {
        match provider_run(token, pool, steps.drop_last()) {
            Some(c) => provider_next(token, c.at, c.pool, steps.last().0, steps.last().1),
            None => None,
        }
    }
}

/// Whether a step is the registration of this provider, with this token.
pub open spec fn is_registration_of(
    step: (ProviderEvent, u128),
    token: Seq<char>,
    handle: ProviderHandle,
) -> bool {
    step.1 == handle.id && (step.0 matches ProviderEvent::Decoded(
        Ok(CtrlMsg::Register { token: given, geo, label }),
    ) && given@ == token && geo == handle.geo && label == handle.label)
}

/// Whether a provider was registered in the course of events, with this token.
pub open spec fn has_registered(
    steps: Seq<(ProviderEvent, u128)>,
    token: Seq<char>,
    handle: ProviderHandle,
) -> bool {
    exists|i: int| 0 <= i < steps.len() && is_registration_of(#[trigger] steps[i], token, handle)
}

/// A pool with one provider more.
pub open spec fn with_provider(
    pool: Map<u128, ProviderHandle>,
    handle: ProviderHandle,
) -> Map<u128, ProviderHandle> {
    pool.insert(handle.id, handle)
}

/// Whether a session that serves this provider has put it, and nothing else,
/// into a pool that did not hold it.
pub open spec fn serves(
    pool: Map<u128, ProviderHandle>,
    now: Map<u128, ProviderHandle>,
    id: u128,
    handle: ProviderHandle,
) -> bool {
    handle.id == id && !pool.contains_key(id) && now == with_provider(pool, handle)
}

/// Whether what a session did accounts for the difference between the pool at
/// its start and now: one provider more, while the session serves it.
pub open spec fn accounts_for(
    token: Seq<char>,
    pool: Map<u128, ProviderHandle>,
    steps: Seq<(ProviderEvent, u128)>,
    now: Course,
) -> bool {
    match now.at {
        ProviderStage::Serving(id) => exists|handle: ProviderHandle| #[trigger]
            serves(pool, now.pool, id, handle) && has_registered(steps, token, handle),
        ProviderStage::Registering(handle) => now.pool == pool && !pool.contains_key(handle.id)
            && has_registered(steps, token, *handle),
        _ => now.pool == pool,
    }
}

/// Whether the step with this number registers a provider.
pub open spec fn registers_at(
    token: Seq<char>,
    pool: Map<u128, ProviderHandle>,
    steps: Seq<(ProviderEvent, u128)>,
    i: int,
) -> bool {
    provider_run(token, pool, steps.take(i)) matches Some(c) && registers(token, c.at, steps[i].0)
}

/// The pool holds a provider exactly while its session serves it, as the
/// provider that registered with the right token; the session changes nothing
/// else in the pool, and leaves it as it was.  (The identifier that the provider
/// gets is new to the pool, and no other session changes the pool meanwhile.)
pub proof fn law_pool_holds_provider_while_served(
    token: Seq<char>,
    pool: Map<u128, ProviderHandle>,
    steps: Seq<(ProviderEvent, u128)>,
)
    requires
        provider_run(token, pool, steps) is Some,
        forall|i: int|
            0 <= i < steps.len() && #[trigger] registers_at(token, pool, steps, i)
                ==> !pool.contains_key(steps[i].1),
    ensures
        accounts_for(token, pool, steps, provider_run(token, pool, steps)->0),
    decreases steps.len(),
{
    if steps.len() > 0 {
        let before = steps.drop_last();
        let (event, id) = steps.last();
        let last = steps.len() - 1;
        assert(steps.take(last) =~= before);
        assert forall|i: int|
            0 <= i < before.len() && #[trigger] registers_at(
                token,
                pool,
                before,
                i,
            ) implies !pool.contains_key(before[i].1) by {
            assert(before.take(i) =~= steps.take(i));
            assert(registers_at(token, pool, steps, i));
        }
        law_pool_holds_provider_while_served(token, pool, before);
        let was = provider_run(token, pool, before)->0;
        let now = provider_run(token, pool, steps)->0;
        match (was.at, event) {
            (
                ProviderStage::Decoding,
                ProviderEvent::Decoded(Ok(CtrlMsg::Register { token: given, geo, label })),
            ) => {
                if given@ == token {
                    assert(registers_at(token, pool, steps, last));
                    assert(is_registration_of(steps[last], token, *now.at->Registering_0));
                }
            },
            (ProviderStage::Registering(handle), ProviderEvent::Sent) => {
                lemma_registered_before(steps, token, &*handle);
                let served = now.at->Serving_0;
                assert(serves(pool, now.pool, served, *handle) && has_registered(
                    steps,
                    token,
                    *handle,
                ));
            },
            (ProviderStage::Serving(served), ProviderEvent::Stopped) => {
                assert(now.pool =~= pool);
            },
            _ => {},
        }
    }
}

/// What was registered before the last event was registered.
proof fn lemma_registered_before(
    steps: Seq<(ProviderEvent, u128)>,
    token: Seq<char>,
    handle: &ProviderHandle,
)
    requires
        steps.len() > 0,
        has_registered(steps.drop_last(), token, *handle),
    ensures
        has_registered(steps, token, *handle),
{
    let before = steps.drop_last();
    let i = choose|i: int|
        0 <= i < before.len() && is_registration_of(#[trigger] before[i], token, *handle);
    assert(is_registration_of(steps[i], token, *handle));
}

/// An agent that presents a wrong token is told that it is rejected, and the
/// session ends with the pool as it was.
pub proof fn law_wrong_token_is_rejected(
    token: Seq<char>,
    pool: Map<u128, ProviderHandle>,
    given: String,
    geo: Option<String>,
    label: Option<String>,
    id: u128,
)
    requires
        given@ != token,
    ensures
        provider_next(
            token,
            ProviderStage::Decoding,
            pool,
            ProviderEvent::Decoded(Ok(CtrlMsg::Register { token: given, geo, label })),
            id,
        ) == Some(
            Course {
                at: ProviderStage::Closed,
                asks: Asks::Close {
                    reply: Some(Ctrl::Rejected { reason: "invalid token"@ }),
                    error: Some(ProviderError::InvalidToken),
                },
                pool,
            },
        ),
{
}

/// A session touches no provider but the one that it registers.
pub proof fn law_step_keeps_other_providers(
    token: Seq<char>,
    at: ProviderStage,
    pool: Map<u128, ProviderHandle>,
    event: ProviderEvent,
    id: u128,
    other: u128,
)
    requires
        provider_next(token, at, pool, event, id) is Some,
        match at {
            ProviderStage::Registering(handle) => other != handle.id,
            ProviderStage::Serving(served) => other != served,
            _ => true,
        },
    ensures
        ({
            let now = provider_next(token, at, pool, event, id)->0.pool;
            now.contains_key(other) == pool.contains_key(other) && (pool.contains_key(other)
                ==> now[other] == pool[other])
        }),
{
}

/// What an agent sends first is handed on unchanged to be decoded, and what is no
/// message with text or bytes ends the session.
pub proof fn law_registration_is_decoded_as_it_came(
    token: Seq<char>,
    pool: Map<u128, ProviderHandle>,
    id: u128,
    text: String,
    bytes: Vec<u8>,
)
    ensures
        provider_next(
            token,
            ProviderStage::Waiting,
            pool,
            ProviderEvent::Incoming(Incoming::Text(text)),
            id,
        ) == Some(
            Course {
                at: ProviderStage::Decoding,
                asks: Asks::Decode(Payload::Text(text)),
                pool,
            },
        ),
        provider_next(
            token,
            ProviderStage::Waiting,
            pool,
            ProviderEvent::Incoming(Incoming::Binary(bytes)),
            id,
        ) == Some(
            Course {
                at: ProviderStage::Decoding,
                asks: Asks::Decode(Payload::Binary(bytes)),
                pool,
            },
        ),
        ends_with(
            provider_next(
                token,
                ProviderStage::Waiting,
                pool,
                ProviderEvent::Incoming(Incoming::Other(text)),
                id,
            ),
            pool,
            ProviderError::NotAMessage(text),
        ),
{
}

/// Whether a session ends with an error, without a word to the agent, and with
/// the pool as it was.
pub open spec fn ends_with(
    next: Option<Course>,
    pool: Map<u128, ProviderHandle>,
    error: ProviderError,
) -> bool {
    next == Some(
        Course {
            at: ProviderStage::Closed,
            asks: Asks::Close { reply: None, error: Some(error) },
            pool,
        },
    )
}

/// JSON that is no control message, a message that is no registration, and a
/// connection that fails before the agent is told that it is registered, end the
/// session and leave the pool alone.
pub proof fn law_failures_end_the_session(
    token: Seq<char>,
    pool: Map<u128, ProviderHandle>,
    id: u128,
    why: String,
    msg: CtrlMsg,
    handle: ProviderHandle,
)
    ensures
        ends_with(
            provider_next(
                token,
                ProviderStage::Decoding,
                pool,
                ProviderEvent::Decoded(Err(why)),
                id,
            ),
            pool,
            ProviderError::Malformed(why),
        ),
        !(msg is Register) ==> ends_with(
            provider_next(
                token,
                ProviderStage::Decoding,
                pool,
                ProviderEvent::Decoded(Ok(msg)),
                id,
            ),
            pool,
            ProviderError::NotARegistration(msg),
        ),
        ends_with(
            provider_next(
                token,
                ProviderStage::Registering(Arc::new(handle)),
                pool,
                ProviderEvent::Broken(why),
                id,
            ),
            pool,
            ProviderError::Io(why),
        ),
{
}

/// A provider that has been told that it is registered is put into the pool and
/// its connection is driven; when that stops, it is taken out.
pub proof fn law_registered_provider_is_driven(
    token: Seq<char>,
    pool: Map<u128, ProviderHandle>,
    id: u128,
    handle: ProviderHandle,
)
    ensures
        ({
            let served = provider_next(
                token,
                ProviderStage::Registering(Arc::new(handle)),
                pool,
                ProviderEvent::Sent,
                id,
            );
            &&& served matches Some(c)
            &&& c.at == ProviderStage::Serving(handle.id)
            &&& c.asks == Asks::Drive(handle.id)
            &&& c.pool.contains_key(handle.id)
            &&& c.pool[handle.id] == handle
            &&& forall|k: u128|
                k != handle.id ==> (#[trigger] c.pool.contains_key(k) <==> pool.contains_key(k))
        }),
        ({
            let stopped = provider_next(
                token,
                ProviderStage::Serving(handle.id),
                pool,
                ProviderEvent::Stopped,
                id,
            );
            &&& stopped matches Some(c)
            &&& c.at == ProviderStage::Closed
            &&& c.asks == (Asks::Close { reply: None, error: None })
            &&& !c.pool.contains_key(handle.id)
            &&& forall|k: u128|
                k != handle.id ==> (#[trigger] c.pool.contains_key(k) <==> pool.contains_key(k))
        }),
{
}

} // verus!
