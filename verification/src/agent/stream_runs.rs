//! What a proxied connection comes to at the agent, from its first bytes on.

use crate::agent::stream::{stream_next, Fault, StreamAct, StreamAt, StreamEvent};
use crate::agent::stream_laws::stream_run;
use crate::proto::{encodable, request_bytes, request_progress, response_bytes, Parsed, Target};
use crate::proto_laws::{
    law_request_is_canonical, law_request_reader_stays_in_header, law_request_round_trip,
};
use crate::resolve::route;
use crate::text::decimal;
use vstd::prelude::*;

verus! {

/// The bytes that came from the gateway before the relaying.
pub open spec fn received(events: Seq<StreamEvent>) -> Seq<u8>
    decreases events.len(),
{
    if events.len() == 0 {
        Seq::empty()
    } else {
        match events.last() {
            StreamEvent::Received(data) => received(events.drop_last()) + data@,
            _ => received(events.drop_last()),
        }
    }
}

/// A header that is whole once more bytes come ends with them: the reader asks
/// for none that follow.
proof fn lemma_header_ends(buf: Seq<u8>, more: Seq<u8>)
    requires
        request_progress(buf) == Parsed::<Target, crate::proto::Refusal>::Need(more.len()),
        request_progress(buf + more) is Done,
    ensures
        request_progress(buf + more)->Done_1 == (buf + more).len(),
{
    let s = buf + more;
    let t = request_progress(s)->Done_0;
    let n = request_progress(s)->Done_1;
    law_request_is_canonical(s);
    let h = request_bytes(t);
    assert(h.len() == n);
    if n <= buf.len() {
        law_request_round_trip(t, buf.skip(n as int));
        assert(buf =~= h + buf.skip(n as int));
    } else {
        assert(buf =~= h.take(buf.len() as int));
        law_request_reader_stays_in_header(t, buf.len());
    }
}

spec fn matches_received(at: StreamAt, bytes: Seq<u8>) -> bool {
    match at {
        StreamAt::Reading(buf) => buf == bytes && request_progress(buf) is Need,
        StreamAt::Resolving(t) => encodable(t) && bytes == request_bytes(t),
        _ => true,
    }
}

proof fn lemma_received(events: Seq<StreamEvent>)
    requires
        stream_run(events) is Some,
    ensures
        matches_received((stream_run(events)->0).0, received(events)),
    decreases events.len(),
{
    if events.len() > 0 {
        let before = events.drop_last();
        lemma_received(before);
        let (at, acts) = stream_run(before)->0;
        match (at, events.last()) {
            (StreamAt::Reading(buf), StreamEvent::Received(data)) => {
                let s = buf + data@;
                if request_progress(s) is Done {
                    lemma_header_ends(buf, data@);
                    law_request_is_canonical(s);
                    assert(s.take(s.len() as int) =~= s);
                }
            },
            _ => {},
        }
    }
}

/// A stream looks for a target only when it has received the header that names
/// it, and no byte more.
pub proof fn law_only_the_named_target_is_looked_for(events: Seq<StreamEvent>)
    requires
        stream_run(events) is Some,
    ensures
        (stream_run(events)->0).0 matches StreamAt::Resolving(t) ==> received(events)
            == request_bytes(t),
{
    lemma_received(events);
}

/// A stream that has received the header of a target, however its bytes arrived,
/// looks for that target.
pub proof fn law_named_target_is_looked_for(events: Seq<StreamEvent>, t: Target)
    requires
        stream_run(events) is Some,
        events.len() > 0,
        events.last() is Received,
        encodable(t),
        received(events) == request_bytes(t),
    ensures
        (stream_run(events)->0).0 == StreamAt::Resolving(t),
        (stream_run(events)->0).1.last() == StreamAct::Resolve(route(t)),
{
    let before = events.drop_last();
    lemma_received(before);
    law_request_round_trip(t, Seq::empty());
    assert(request_bytes(t) + Seq::<u8>::empty() =~= request_bytes(t));
}

/// Each address that the lookup found is tried in turn, from the first to the
/// last, until one is connected.
pub proof fn law_addresses_are_tried_in_turn(t: Target, count: usize, index: nat, why: String)
    ensures
        count > 0 ==> stream_next(StreamAt::Resolving(t), StreamEvent::Resolved(count)) == Some(
            (StreamAt::Dialing { count: count as nat, index: 0 }, StreamAct::Dial(0)),
        ),
        index + 1 < count ==> stream_next(
            StreamAt::Dialing { count: count as nat, index },
            StreamEvent::Refused(why),
        ) == Some(
            (
                StreamAt::Dialing { count: count as nat, index: index + 1 },
                StreamAct::Dial(index + 1),
            ),
        ),
        stream_next(
            StreamAt::Dialing { count: count as nat, index },
            StreamEvent::Connected,
        ) == Some((StreamAt::Reporting, StreamAct::Send(seq![0u8]))),
{
    assert(response_bytes(Ok(())) =~= seq![0u8]);
}

/// A target that cannot be connected is reported with the text of the lookup's
/// error, or of the last address's; the gateway and the agent's log say the
/// same.
pub proof fn law_reason_is_reported(t: Target, count: usize, index: nat, why: String)
    ensures
        stream_next(StreamAt::Resolving(t), StreamEvent::Unresolved(why)) == Some(
            (
                StreamAt::Closed,
                StreamAct::Close {
                    reply: Some(response_bytes(Err(why@))),
                    error: Some(Fault::Unresolved(why@)),
                },
            ),
        ),
        index + 1 >= count ==> stream_next(
            StreamAt::Dialing { count: count as nat, index },
            StreamEvent::Refused(why),
        ) == Some(
            (
                StreamAt::Closed,
                StreamAct::Close {
                    reply: Some(response_bytes(Err(why@))),
                    error: Some(Fault::Unreachable(why@)),
                },
            ),
        ),
        t matches Target::Domain(host, port) ==> stream_next(
            StreamAt::Resolving(t),
            StreamEvent::Resolved(0),
        ) == Some(
            (
                StreamAt::Closed,
                StreamAct::Close {
                    reply: Some(
                        response_bytes(
                            Err("no addresses for "@ + (host.push(':') + decimal(port as nat))),
                        ),
                    ),
                    error: Some(
                        Fault::Unreachable(
                            "no addresses for "@ + (host.push(':') + decimal(port as nat)),
                        ),
                    ),
                },
            ),
        ),
{
}

/// A stream whose header does not arrive, or whose report cannot be sent, ends
/// with that error; one whose relaying has ended ends with the relaying's.
pub proof fn law_broken_stream_ends(buf: Seq<u8>, why: String)
    ensures
        stream_next(StreamAt::Reading(buf), StreamEvent::Broken(why)) == Some(
            (StreamAt::Closed, StreamAct::Close { reply: None, error: Some(Fault::Read(why@)) }),
        ),
        stream_next(StreamAt::Reporting, StreamEvent::Broken(why)) == Some(
            (StreamAt::Closed, StreamAct::Close { reply: None, error: Some(Fault::Io(why@)) }),
        ),
        stream_next(StreamAt::Relaying, StreamEvent::Relayed(Some(why))) == Some(
            (StreamAt::Closed, StreamAct::Close { reply: None, error: Some(Fault::Io(why@)) }),
        ),
        stream_next(StreamAt::Relaying, StreamEvent::Relayed(None)) == Some(
            (StreamAt::Closed, StreamAct::Close { reply: None, error: None }),
        ),
{
}

/// Whether an event answers what a stream asked for.
pub open spec fn stream_answers(act: StreamAct, event: StreamEvent) -> bool {
    match (act, event) {
        (StreamAct::Receive(n), StreamEvent::Received(data)) => data@.len() == n,
        (StreamAct::Receive(_), StreamEvent::Broken(_)) => true,
        (StreamAct::Resolve(_), StreamEvent::Resolved(_)) => true,
        (StreamAct::Resolve(_), StreamEvent::Unresolved(_)) => true,
        (StreamAct::Dial(_), StreamEvent::Connected) => true,
        (StreamAct::Dial(_), StreamEvent::Refused(_)) => true,
        (StreamAct::Send(_), StreamEvent::Sent) => true,
        (StreamAct::Send(_), StreamEvent::Broken(_)) => true,
        (StreamAct::Relay, StreamEvent::Relayed(_)) => true,
        _ => false,
    }
}

/// What a stream has asked for at a stage.
spec fn stream_asks(at: StreamAt, act: StreamAct) -> bool {
    match at {
        StreamAt::Reading(buf) => request_progress(buf) is Need && act == StreamAct::Receive(
            request_progress(buf)->Need_0,
        ),
        StreamAt::Resolving(_) => act is Resolve,
        StreamAt::Dialing { .. } => act is Dial,
        StreamAt::Reporting => act is Send,
        StreamAt::Relaying => act == StreamAct::Relay,
        StreamAt::Closed => act is Close,
    }
}

proof fn lemma_stream_asks(at: StreamAt, event: StreamEvent)
    requires
        stream_next(at, event) is Some,
    ensures
        stream_asks((stream_next(at, event)->0).0, (stream_next(at, event)->0).1),
{
}

/// A stream goes on from every answer to what it asked for, until it closes.
pub proof fn law_stream_goes_on(events: Seq<StreamEvent>, event: StreamEvent)
    requires
        stream_run(events) is Some,
        stream_answers((stream_run(events)->0).1.last(), event),
    ensures
        stream_run(events.push(event)) is Some,
{
    let (at, acts) = stream_run(events)->0;
    if events.len() > 0 {
        lemma_stream_asks((stream_run(events.drop_last())->0).0, events.last());
    }
    assert(stream_asks(at, acts.last()));
    assert(events.push(event).drop_last() =~= events);
}

} // verus!
