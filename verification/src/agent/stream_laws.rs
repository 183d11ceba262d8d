//! What holds of every proxied connection that the agent handles.

use crate::agent::stream::{
    no_addresses, on_header, stream_next, Fault, StreamAct, StreamAt, StreamEvent,
};
use crate::messages::fault_message;
use crate::proto::{
    encodable, request_bytes, request_progress, response_bytes, Parsed, Target,
};
use crate::proto_laws::law_request_round_trip;
use crate::resolve::route;
use vstd::prelude::*;

verus! {

/// Where a stream stands after the events, and what it has asked for on the way;
/// `None` where an event was not one that it asked for.
pub open spec fn stream_run(events: Seq<StreamEvent>) -> Option<(StreamAt, Seq<StreamAct>)>
    decreases events.len(),
{
    if events.len() == 0 {
        let (at, act) = on_header(Seq::empty());
        Some((at, seq![act]))
    } else {
        match stream_run(events.drop_last()) {
            None => None,
            Some((at, acts)) => match stream_next(at, events.last()) {
                None => None,
                Some((to, act)) => Some((to, acts.push(act))),
            },
        }
    }
}

/// The indices of the addresses that were dialled.
pub open spec fn dials(acts: Seq<StreamAct>) -> Seq<nat>
    decreases acts.len(),
{
    if acts.len() == 0 {
        Seq::empty()
    } else {
        let before = dials(acts.drop_last());
        match acts.last() {
            StreamAct::Dial(i) => before.push(i),
            _ => before,
        }
    }
}

/// The errors of the addresses that could not be connected.
pub open spec fn refusals(events: Seq<StreamEvent>) -> Seq<Seq<char>>
    decreases events.len(),
{
    if events.len() == 0 {
        Seq::empty()
    } else {
        let before = refusals(events.drop_last());
        match events.last() {
            StreamEvent::Refused(e) => before.push(e@),
            _ => before,
        }
    }
}

/// How often an address was connected.
pub open spec fn connections(events: Seq<StreamEvent>) -> nat
    decreases events.len(),
{
    if events.len() == 0 {
        0
    } else {
        connections(events.drop_last()) + (if events.last() is Connected {
            1nat
        } else {
            0
        })
    }
}

/// The first numbers, in order.
pub open spec fn first(n: nat) -> Seq<nat> {
    Seq::new(n, |i: int| i as nat)
}

/// The dials, refusals and connections that bring a stream to a stage.
pub open spec fn history(
    at: StreamAt,
    dialled: nat,
    refused: nat,
    connected: nat,
) -> bool {
    match at {
        StreamAt::Reading(_) => dialled == 0 && refused == 0 && connected == 0,
        StreamAt::Resolving(_) => dialled == 0 && refused == 0 && connected == 0,
        StreamAt::Dialing { count, index } => index < count && dialled == index + 1 && refused
            == index && connected == 0,
        StreamAt::Reporting => dialled == refused + 1 && connected == 1,
        StreamAt::Relaying => dialled == refused + 1 && connected == 1,
        StreamAt::Closed => dialled == refused + connected && connected <= 1,
    }
}

/// A stream tries the target's addresses one by one, from the first on, and
/// stops at the first that it can connect: every address before it was refused.
pub proof fn law_first_reachable_address_is_used(events: Seq<StreamEvent>)
    requires
        stream_run(events) is Some,
    ensures
        dials((stream_run(events)->0).1) == first(dials((stream_run(events)->0).1).len()),
        history(
            (stream_run(events)->0).0,
            dials((stream_run(events)->0).1).len(),
            refusals(events).len(),
            connections(events),
        ),
    decreases events.len(),
{
    let (at, acts) = stream_run(events)->0;
    if events.len() == 0 {
        reveal_with_fuel(dials, 2);
        assert(dials(acts) =~= first(0));
    } else {
        let before = events.drop_last();
        law_first_reachable_address_is_used(before);
        let (was, acts_before) = stream_run(before)->0;
        assert(acts.drop_last() =~= acts_before);
        assert(dials(acts) =~= first(dials(acts).len()));
    }
}

/// Why a stream ends before its target is connected, once its request has been
/// refused, the lookup has failed, or no address is left to try.
pub open spec fn refused_because(at: StreamAt, event: StreamEvent) -> Option<Fault> {
    match (at, event) {
        (StreamAt::Reading(buf), StreamEvent::Received(data)) => match request_progress(
            buf + data@,
        ) {
            Parsed::Fail(e) => Some(Fault::Request(e)),
            _ => None,
        },
        (StreamAt::Resolving(_), StreamEvent::Unresolved(e)) => Some(Fault::Unresolved(e@)),
        (StreamAt::Resolving(t), StreamEvent::Resolved(count)) => if count == 0 {
            Some(Fault::Unreachable(no_addresses(t)))
        } else {
            None
        },
        (StreamAt::Dialing { count, index }, StreamEvent::Refused(e)) => if index + 1 < count {
            None
        } else {
            Some(Fault::Unreachable(e@))
        },
        _ => None,
    }
}

/// When a request is refused, its target cannot be looked up, or none of its
/// addresses can be connected, the gateway is told why, and the stream ends with
/// that error.  Of several addresses the error is that of the last.
pub proof fn law_unreachable_target_is_reported(at: StreamAt, event: StreamEvent)
    requires
        stream_next(at, event) is Some,
    ensures
        match refused_because(at, event) {
            Some(error) => stream_next(at, event)->0 == (
                StreamAt::Closed,
                StreamAct::Close {
                    reply: Some(response_bytes(Err(fault_message(error)))),
                    error: Some(error),
                },
            ),
            None => !((stream_next(at, event)->0).1 matches StreamAct::Close {
                reply: Some(_),
                ..
            }),
        },
{
}

/// How often the gateway was sent a status.
pub open spec fn statuses(acts: Seq<StreamAct>) -> nat
    decreases acts.len(),
{
    if acts.len() == 0 {
        0
    } else {
        statuses(acts.drop_last()) + (match acts.last() {
            StreamAct::Send(_) => 1nat,
            StreamAct::Close { reply: Some(_), .. } => 1nat,
            _ => 0nat,
        })
    }
}

/// Whether a stream ended before its request had arrived.
pub open spec fn ended_unread(act: StreamAct) -> bool {
    act matches StreamAct::Close { error: Some(Fault::Read(_)), .. }
}

/// Every request that arrives is answered with one status: before bytes are
/// relayed, or when the stream ends.
pub proof fn law_every_request_gets_one_status(events: Seq<StreamEvent>)
    ensures
        stream_run(events) matches Some((at, acts)) ==> acts.len() > 0 && statuses(acts) == (
        match at {
            StreamAt::Reading(_) => 0nat,
            StreamAt::Resolving(_) => 0nat,
            StreamAt::Dialing { .. } => 0nat,
            StreamAt::Reporting => 1nat,
            StreamAt::Relaying => 1nat,
            StreamAt::Closed => if ended_unread(acts.last()) {
                0nat
            } else {
                1nat
            },
        }),
    decreases events.len(),
{
    if events.len() == 0 {
        reveal_with_fuel(statuses, 2);
    } else {
        let before = events.drop_last();
        law_every_request_gets_one_status(before);
        if let Some((at, acts)) = stream_run(before) {
            if let Some((to, act)) = stream_next(at, events.last()) {
                assert(acts.push(act).drop_last() =~= acts);
            }
        }
    }
}

/// Bytes are relayed only once an address is connected and the gateway has been
/// told so.
pub proof fn law_relay_follows_success(at: StreamAt, event: StreamEvent)
    requires
        stream_next(at, event) is Some,
    ensures
        (stream_next(at, event)->0).1 == StreamAct::Relay <==> at == StreamAt::Reporting && event
            == StreamEvent::Sent,
        (stream_next(at, event)->0).0 == StreamAt::Reporting <==> at is Dialing && event
            == StreamEvent::Connected,
        (stream_next(at, event)->0).0 == StreamAt::Reporting ==> (stream_next(at, event)->0).1
            == StreamAct::Send(response_bytes(Ok(()))),
{
}

/// Once its request has arrived, a stream looks for the very target that the
/// gateway asked for.
pub proof fn law_request_is_resolved(t: Target)
    requires
        encodable(t),
    ensures
        on_header(request_bytes(t)) == (StreamAt::Resolving(t), StreamAct::Resolve(route(t))),
{
    law_request_round_trip(t, Seq::empty());
    assert(request_bytes(t) + Seq::<u8>::empty() =~= request_bytes(t));
}

} // verus!
