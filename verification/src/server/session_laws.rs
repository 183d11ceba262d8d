//! Laws of client sessions.

use crate::proto::{
    be16, be16_bytes, encodable, request_bytes, request_progress, response_bytes,
    response_progress, Parsed, Refusal, Target,
};
use crate::proto_laws::law_request_round_trip;
use crate::server::session::{next, start, success_reply, Act, At, Event, Front};
use crate::server::socks5::{
    connect_progress, greeting_progress, reply_bytes, Socks5Error, ATYP_DOMAIN, ATYP_IPV4,
    ATYP_IPV6, CMD_CONNECT, REP_GENERAL_FAILURE, SOCKS5_VERSION,
};
use vstd::prelude::*;
use vstd::utf8::{
    decode_utf8_encode_utf8, encode_utf8, encode_utf8_decode_utf8, encode_utf8_valid_utf8,
    valid_utf8,
};

verus! {

/// The request by which a client asks for a target.  The third byte is
/// reserved.
pub open spec fn connect_bytes(t: Target, reserved: u8) -> Seq<u8> {
    match t {
        Target::Ipv4(octets, port) => seq![SOCKS5_VERSION, CMD_CONNECT, reserved, ATYP_IPV4]
            + octets + be16_bytes(port),
        Target::Ipv6(octets, port) => seq![SOCKS5_VERSION, CMD_CONNECT, reserved, ATYP_IPV6]
            + octets + be16_bytes(port),
        Target::Domain(host, port) => {
            seq![
                SOCKS5_VERSION,
                CMD_CONNECT,
                reserved,
                ATYP_DOMAIN,
                encode_utf8(host).len() as u8,
            ] + encode_utf8(host) + be16_bytes(port)
        },
    }
}

/// A SOCKS5 client is greeted whatever methods it offers, and its greeting is
/// read to the end and no further.
pub proof fn law_socks5_greeting_is_read(methods: Seq<u8>, rest: Seq<u8>)
    requires
        methods.len() <= 255,
    ensures
        greeting_progress(seq![SOCKS5_VERSION, methods.len() as u8] + methods + rest) == Parsed::<
            (),
            Socks5Error,
        >::Done((), 2 + methods.len()),
{
}

/// Whatever target a SOCKS5 client can ask for, the tunnel can carry.
pub proof fn law_socks5_target_is_encodable(s: Seq<u8>)
    ensures
        connect_progress(s) matches Parsed::Done(t, _) ==> encodable(t),
{
    if s.len() >= 5 && s.len() >= 7 + s[4] {
        let host = s.subrange(5, 5 + s[4]);
        if valid_utf8(host) {
            decode_utf8_encode_utf8(host);
        }
    }
}

/// A SOCKS5 client that asks for a target is understood, whatever it sends
/// afterwards and whatever the reserved byte is.
pub proof fn law_socks5_request_is_read(t: Target, reserved: u8, rest: Seq<u8>)
    requires
        encodable(t),
    ensures
        connect_progress(connect_bytes(t, reserved) + rest) == Parsed::<Target, Socks5Error>::Done(
            t,
            connect_bytes(t, reserved).len(),
        ),
{
    let s = connect_bytes(t, reserved) + rest;
    match t {
        Target::Ipv4(octets, port) => {
            assert(be16((port / 256) as u8, (port % 256) as u8) == port);
            assert(s.subrange(4, 8) =~= octets);
        },
        Target::Ipv6(octets, port) => {
            assert(be16((port / 256) as u8, (port % 256) as u8) == port);
            assert(s.subrange(4, 20) =~= octets);
        },
        Target::Domain(host, port) => {
            let bytes = encode_utf8(host);
            assert(be16((port / 256) as u8, (port % 256) as u8) == port);
            encode_utf8_valid_utf8(host);
            encode_utf8_decode_utf8(host);
            assert(s.subrange(5, 5 + bytes.len() as int) =~= bytes);
        },
    }
}

/// While a SOCKS5 request is still arriving, the gateway waits, and asks for no
/// byte that follows the request.
pub proof fn law_socks5_reader_stays_in_request(t: Target, reserved: u8, k: nat)
    requires
        encodable(t),
        k < connect_bytes(t, reserved).len(),
    ensures
        connect_progress(connect_bytes(t, reserved).take(k as int)) matches Parsed::Need(n) && 1
            <= n <= connect_bytes(t, reserved).len() - k,
{
}

/// What the gateway sends through the tunnel names to the agent the very target
/// that the client asked for.
pub proof fn law_target_reaches_agent(front: Front, t: Target, rest: Seq<u8>)
    requires
        encodable(t),
    ensures
        next(front, At::Opening(t), Event::Opened) matches Some((at, Act::SendTunnel(header))) && at
            == At::Requesting && request_progress(header + rest) == Parsed::<Target, Refusal>::Done(
            t,
            header.len(),
        ),
{
    law_request_round_trip(t, rest);
}

/// A client whose target is known, and that cannot be connected because there is
/// no provider, the provider opens no stream, or the agent does not connect, is
/// told so before its connection is closed: by a general failure in SOCKS5, and
/// by status 503 or 502 in HTTP.
pub proof fn law_refused_client_is_answered(front: Front, at: At, event: Event)
    requires
        at is Picking || at is Awaiting || (at is Opening && event is NotOpened),
    ensures
        next(front, at, event) matches Some((to, Act::Close { reply, .. })) ==> {
            &&& to == At::Closed
            &&& front == Front::Socks5 ==> reply == Some(reply_bytes(REP_GENERAL_FAILURE))
            &&& front == Front::Http && at is Picking ==> reply == Some(
                encode_utf8("HTTP/1.1 503 Service Unavailable\r\n\r\n"@),
            )
            &&& front == Front::Http && !(at is Picking) ==> reply == Some(
                encode_utf8("HTTP/1.1 502 Bad Gateway\r\n\r\n"@),
            )
        },
{
}

/// Where a session stands after the events, and what it has asked for on the
/// way; `None` where an event was not one that it asked for.
pub open spec fn run(front: Front, events: Seq<Event>) -> Option<(At, Seq<Act>)>
    decreases events.len(),
{
    if events.len() == 0 {
        let (at, act) = start(front);
        Some((at, seq![act]))
    } else {
        match run(front, events.drop_last()) {
            None => None,
            Some((at, acts)) => match next(front, at, events.last()) {
                None => None,
                Some((to, act)) => Some((to, acts.push(act))),
            },
        }
    }
}

/// The bytes that came through the tunnel before the relaying.
pub open spec fn tunnel_bytes(events: Seq<Event>) -> Seq<u8>
    decreases events.len(),
{
    if events.len() == 0 {
        Seq::empty()
    } else {
        match events.last() {
            Event::TunnelReceived(data) => tunnel_bytes(events.drop_last()) + data@,
            _ => tunnel_bytes(events.drop_last()),
        }
    }
}

/// Whether the session has sent a request through the tunnel.
pub open spec fn has_requested(acts: Seq<Act>) -> bool {
    exists|i: int, t: Target|
        0 <= i < acts.len() && encodable(t) && #[trigger] acts[i] == Act::SendTunnel(
            #[trigger] request_bytes(t),
        )
}

/// Whether the agent has reported success.
pub open spec fn has_consent(events: Seq<Event>) -> bool {
    response_progress(tunnel_bytes(events)) == Parsed::<(), Refusal>::Done((), 1)
}

/// Whether the client has been told that it is connected, or bytes are relayed.
pub open spec fn has_connected(front: Front, acts: Seq<Act>) -> bool {
    exists|i: int|
        0 <= i < acts.len() && (#[trigger] acts[i] == Act::Send(success_reply(front)) || acts[i]
            == Act::Relay)
}

/// Whether the session has told the provider that its stream is done.
pub open spec fn has_released(acts: Seq<Act>) -> bool {
    exists|i: int|
        0 <= i < acts.len() && (#[trigger] acts[i] matches Act::Close { release, .. } && release)
}

/// What has come through the tunnel when a session stands at a stage.
pub open spec fn heard(front: Front, events: Seq<Event>, at: At) -> bool {
    match at {
        At::Greeting(_) => front == Front::Socks5 && tunnel_bytes(events).len() == 0,
        At::GreetingReply => front == Front::Socks5 && tunnel_bytes(events).len() == 0,
        At::Request(_) => front == Front::Socks5 && tunnel_bytes(events).len() == 0,
        At::Awaiting(buf) => tunnel_bytes(events) == buf,
        At::Confirming => has_consent(events),
        At::Relaying => has_consent(events),
        At::Closed => true,
        _ => tunnel_bytes(events).len() == 0,
    }
}

pub(crate) proof fn lemma_heard(front: Front, events: Seq<Event>)
    ensures
        run(front, events) matches Some((at, _)) ==> heard(front, events, at),
    decreases events.len(),
{
    if events.len() > 0 {
        let before = events.drop_last();
        lemma_heard(front, before);
        if let Some((at, acts)) = run(front, before) {
            match (at, events.last()) {
                (At::Awaiting(buf), Event::TunnelReceived(data)) => {
                    assert(tunnel_bytes(events) == buf + data@);
                },
                _ => {},
            }
            if tunnel_bytes(events).len() == 0 {
                assert(tunnel_bytes(events) =~= Seq::<u8>::empty());
            }
        }
    }
}

/// Whether a session at this stage has sent its request.
spec fn is_under_way(at: At) -> bool {
    at is Requesting || at is Awaiting || at is Confirming || at is Relaying
}

proof fn lemma_keeps_requested(acts: Seq<Act>, act: Act)
    requires
        has_requested(acts),
    ensures
        has_requested(acts.push(act)),
{
    let (i, t) = choose|i: int, t: Target|
        0 <= i < acts.len() && encodable(t) && #[trigger] acts[i] == Act::SendTunnel(
            #[trigger] request_bytes(t),
        );
    assert(acts.push(act)[i] == Act::SendTunnel(request_bytes(t)));
}

proof fn lemma_requested(front: Front, events: Seq<Event>)
    ensures
        run(front, events) matches Some((at, acts)) ==> (is_under_way(at) ==> has_requested(acts)),
    decreases events.len(),
{
    if events.len() > 0 {
        let before = events.drop_last();
        lemma_requested(front, before);
        if let Some((at, acts)) = run(front, before) {
            if let Some((to, act)) = next(front, at, events.last()) {
                if is_under_way(at) {
                    lemma_keeps_requested(acts, act);
                } else if is_under_way(to) {
                    let t = at->Opening_0;
                    assert(acts.push(act)[acts.len() as int] == Act::SendTunnel(request_bytes(t)));
                }
            }
        }
    }
}

proof fn lemma_closed_last(front: Front, events: Seq<Event>)
    ensures
        run(front, events) matches Some((at, acts)) ==> forall|i: int|
            0 <= i < acts.len() && (#[trigger] acts[i] is Close) ==> i == acts.len() - 1 && at
                is Closed,
    decreases events.len(),
{
    if events.len() > 0 {
        let before = events.drop_last();
        lemma_closed_last(front, before);
        if let Some((at, acts)) = run(front, before) {
            if let Some((to, act)) = next(front, at, events.last()) {
                let more = acts.push(act);
                assert forall|i: int| 0 <= i < more.len() && (#[trigger] more[i] is Close) implies i
                    == more.len() - 1 && to is Closed by {
                    if i < acts.len() {
                        assert(acts[i] is Close);
                    }
                }
            }
        }
    }
}

proof fn lemma_released(front: Front, events: Seq<Event>)
    ensures
        run(front, events) matches Some((_, acts)) ==> (has_released(acts) ==> has_requested(acts)),
    decreases events.len(),
{
    if events.len() > 0 {
        let before = events.drop_last();
        lemma_released(front, before);
        lemma_requested(front, before);
        if let Some((at, acts)) = run(front, before) {
            if let Some((to, act)) = next(front, at, events.last()) {
                let more = acts.push(act);
                if has_requested(acts) {
                    lemma_keeps_requested(acts, act);
                }
                if has_released(more) {
                    let i = choose|i: int|
                        0 <= i < more.len() && (#[trigger] more[i] matches Act::Close {
                            release,
                            ..
                        } && release);
                    if i < acts.len() {
                        assert(acts[i] == more[i]);
                    }
                }
            }
        }
    }
}

/// What tells a client that it is connected is asked for at the end of the
/// agent's response, and bytes are relayed after that.
proof fn lemma_connecting_step(front: Front, at: At, event: Event)
    requires
        next(front, at, event) is Some,
        at is Greeting || at is GreetingReply || at is Request ==> front == Front::Socks5,
        (next(front, at, event)->0).1 == Act::Send(success_reply(front)) || (next(
            front,
            at,
            event,
        )->0).1 == Act::Relay,
    ensures
        (next(front, at, event)->0).0 is Confirming || (next(front, at, event)->0).0 is Relaying,
{
    if at is Greeting {
        assert(success_reply(front).len() == 10);
    }
}

proof fn lemma_connected(front: Front, events: Seq<Event>)
    ensures
        run(front, events) matches Some((at, acts)) ==> (has_connected(front, acts)
            ==> has_consent(events) && has_requested(acts) && (at is Confirming || at is Relaying
            || at is Closed)),
    decreases events.len(),
{
    if events.len() == 0 {
        let (at, act) = start(front);
        assert(seq![act][0] == act);
    } else {
        let before = events.drop_last();
        lemma_connected(front, before);
        lemma_heard(front, before);
        lemma_heard(front, events);
        lemma_requested(front, events);
        if let Some((at, acts)) = run(front, before) {
            if let Some((to, act)) = next(front, at, events.last()) {
                let more = acts.push(act);
                if has_requested(acts) {
                    lemma_keeps_requested(acts, act);
                }
                if has_connected(front, more) {
                    let i = choose|i: int|
                        0 <= i < more.len() && (#[trigger] more[i] == Act::Send(
                            success_reply(front),
                        ) || more[i] == Act::Relay);
                    if i < acts.len() {
                        assert(acts[i] == more[i]);
                    } else {
                        lemma_connecting_step(front, at, events.last());
                    }
                }
            }
        }
    }
}

/// No client is told that it is connected, and no byte is relayed, before the
/// request has gone through the tunnel and the agent has reported success.
pub proof fn law_connected_only_with_consent(front: Front, events: Seq<Event>)
    ensures
        run(front, events) matches Some((_, acts)) ==> (has_connected(front, acts)
            ==> has_requested(acts) && has_consent(events)),
{
    lemma_connected(front, events);
}

/// A session ends once: nothing is asked for after its close.
pub proof fn law_session_closes_once(front: Front, events: Seq<Event>)
    ensures
        run(front, events) matches Some((_, acts)) ==> forall|i: int|
            0 <= i < acts.len() && (#[trigger] acts[i] is Close) ==> i == acts.len() - 1,
{
    lemma_closed_last(front, events);
}

/// The provider is told that a stream is done at most once, and only of a stream
/// through which a request has gone.
pub proof fn law_released_after_request(front: Front, events: Seq<Event>)
    ensures
        run(front, events) matches Some((_, acts)) ==> (has_released(acts) ==> has_requested(acts)),
        run(front, events) matches Some((_, acts)) ==> forall|i: int, j: int|
            0 <= i < acts.len() && 0 <= j < acts.len() && (#[trigger] acts[i] is Close) && (
            #[trigger] acts[j] is Close) ==> i == j,
{
    lemma_released(front, events);
    lemma_closed_last(front, events);
}

/// How often a provider was picked.
pub open spec fn picks(acts: Seq<Act>) -> nat
    decreases acts.len(),
{
    if acts.len() == 0 {
        0
    } else {
        picks(acts.drop_last()) + (if acts.last() == Act::Pick {
            1nat
        } else {
            0
        })
    }
}

/// How often a stream was asked for.
pub open spec fn opens(acts: Seq<Act>) -> nat
    decreases acts.len(),
{
    if acts.len() == 0 {
        0
    } else {
        opens(acts.drop_last()) + (if acts.last() == Act::Open {
            1nat
        } else {
            0
        })
    }
}

/// The picks and the streams that bring a session to a stage.
spec fn spent(at: At, picked: nat, opened: nat) -> bool {
    match at {
        At::Picking(_) => picked == 1 && opened == 0,
        At::Opening(_) => picked == 1 && opened == 1,
        At::Requesting => picked == 1 && opened == 1,
        At::Awaiting(_) => picked == 1 && opened == 1,
        At::Confirming => picked == 1 && opened == 1,
        At::Relaying => picked == 1 && opened == 1,
        At::Closed => picked <= 1 && opened <= picked,
        _ => picked == 0 && opened == 0,
    }
}

proof fn lemma_spent_step(front: Front, at: At, event: Event, picked: nat, opened: nat)
    requires
        next(front, at, event) is Some,
        spent(at, picked, opened),
    ensures
        ({
            let (to, act) = next(front, at, event)->0;
            spent(
                to,
                picked + (if act == Act::Pick {
                    1nat
                } else {
                    0
                }),
                opened + (if act == Act::Open {
                    1nat
                } else {
                    0
                }),
            )
        }),
{
}

proof fn lemma_spent(front: Front, events: Seq<Event>)
    requires
        run(front, events) is Some,
    ensures
        spent(
            (run(front, events)->0).0,
            picks((run(front, events)->0).1),
            opens((run(front, events)->0).1),
        ),
    decreases events.len(),
{
    if events.len() == 0 {
        reveal_with_fuel(picks, 2);
        reveal_with_fuel(opens, 2);
    } else {
        let before = events.drop_last();
        lemma_spent(front, before);
        let (at, acts) = run(front, before)->0;
        let (to, act) = next(front, at, events.last())->0;
        assert(acts.push(act).drop_last() =~= acts);
        lemma_spent_step(front, at, events.last(), picks(acts), opens(acts));
    }
}

/// Each client gets at most one stream, of one provider; and when bytes are
/// relayed, they go through exactly one.
pub proof fn law_one_stream_per_client(front: Front, events: Seq<Event>)
    ensures
        run(front, events) matches Some((at, acts)) ==> picks(acts) <= 1 && opens(acts) <= picks(
            acts,
        ) && (at is Relaying ==> opens(acts) == 1),
{
    if run(front, events) is Some {
        lemma_spent(front, events);
    }
}

/// A client whose target is known is connected, if there is a provider, it opens
/// a stream and the agent reports success: the request goes through the tunnel,
/// the client is told, and bytes are relayed.
pub proof fn law_client_is_connected(front: Front, t: Target, consent: Vec<u8>)
    requires
        encodable(t),
        consent@ == response_bytes(Ok(())),
    ensures
        next(front, At::Picking(t), Event::Picked) == Some((At::Opening(t), Act::Open)),
        next(front, At::Opening(t), Event::Opened) == Some(
            (At::Requesting, Act::SendTunnel(request_bytes(t))),
        ),
        next(front, At::Requesting, Event::Sent) == Some(
            (At::Awaiting(Seq::empty()), Act::ReceiveTunnel(1)),
        ),
        next(front, At::Awaiting(Seq::empty()), Event::TunnelReceived(consent)) == Some(
            (At::Confirming, Act::Send(success_reply(front))),
        ),
        next(front, At::Confirming, Event::Sent) == Some((At::Relaying, Act::Relay)),
{
    assert(Seq::<u8>::empty() + consent@ =~= response_bytes(Ok(())));
}

/// What comes of reading a SOCKS5 request from a stream of bytes, of which the
/// first have been read and the rest have not: what the reader makes of them, and
/// the bytes that it leaves; `None` where the stream ends too early.
pub open spec fn connect_from(read: Seq<u8>, rest: Seq<u8>) -> Option<
    (Result<Target, Socks5Error>, Seq<u8>),
>
    decreases rest.len(),
{
    match connect_progress(read) {
        Parsed::Need(n) => if 0 < n <= rest.len() {
            connect_from(read + rest.take(n as int), rest.skip(n as int))
        } else {
            None
        },
        Parsed::Done(t, _) => Some((Ok(t), rest)),
        Parsed::Fail(e) => Some((Err(e), rest)),
    }
}

proof fn lemma_connect_from(t: Target, reserved: u8, k: nat, payload: Seq<u8>)
    requires
        encodable(t),
        k <= connect_bytes(t, reserved).len(),
    ensures
        connect_from(
            connect_bytes(t, reserved).take(k as int),
            connect_bytes(t, reserved).skip(k as int) + payload,
        ) == Some((Ok::<Target, Socks5Error>(t), payload)),
    decreases connect_bytes(t, reserved).len() - k,
{
    let request = connect_bytes(t, reserved);
    let read = request.take(k as int);
    let rest = request.skip(k as int) + payload;
    if k == request.len() {
        law_socks5_request_is_read(t, reserved, Seq::empty());
        assert(request + Seq::<u8>::empty() =~= read);
        assert(rest =~= payload);
    } else {
        law_socks5_reader_stays_in_request(t, reserved, k);
        let n = connect_progress(read)->Need_0;
        assert(read + rest.take(n as int) =~= request.take((k + n) as int));
        assert(rest.skip(n as int) =~= request.skip((k + n) as int) + payload);
        lemma_connect_from(t, reserved, k + n, payload);
    }
}

/// The gateway reads the target from a stream that starts with a SOCKS5 request,
/// however the bytes arrive, and leaves every byte that follows for the relaying.
pub proof fn law_socks5_request_leaves_the_payload(t: Target, reserved: u8, payload: Seq<u8>)
    requires
        encodable(t),
    ensures
        connect_from(Seq::empty(), connect_bytes(t, reserved) + payload) == Some(
            (Ok::<Target, Socks5Error>(t), payload),
        ),
{
    lemma_connect_from(t, reserved, 0, payload);
    assert(connect_bytes(t, reserved).take(0) =~= Seq::<u8>::empty());
    assert(connect_bytes(t, reserved).skip(0) =~= connect_bytes(t, reserved));
}

/// A SOCKS5 request that is read as some target is the request for that target,
/// byte by byte but for the reserved one.
pub proof fn law_socks5_request_is_canonical(s: Seq<u8>)
    ensures
        connect_progress(s) matches Parsed::Done(t, n) ==> encodable(t) && 4 <= n <= s.len()
            && s.take(n as int) == connect_bytes(t, s[2]),
{
    law_socks5_target_is_encodable(s);
    if let Parsed::Done(t, n) = connect_progress(s) {
        match t {
            Target::Ipv4(octets, port) => {
                lemma_port_bytes(s[8], s[9]);
            },
            Target::Ipv6(octets, port) => {
                lemma_port_bytes(s[20], s[21]);
            },
            Target::Domain(host, port) => {
                let len = s[4] as int;
                lemma_port_bytes(s[5 + len], s[6 + len]);
                decode_utf8_encode_utf8(s.subrange(5, 5 + len));
            },
        }
        assert(s.take(n as int) =~= connect_bytes(t, s[2]));
    }
}

proof fn lemma_port_bytes(hi: u8, lo: u8)
    ensures
        be16_bytes(be16(hi, lo)) == seq![hi, lo],
{
    let n = (hi * 256 + lo) as u16;
    assert(n / 256 == hi && n % 256 == lo);
    assert(be16_bytes(n) =~= seq![hi, lo]);
}

/// The bytes of a port are its high byte and its low byte, in the requests of
/// clients as in headers.
pub proof fn law_socks5_request_names_host_and_port(t: Target, reserved: u8)
    requires
        encodable(t),
    ensures
        ({
            let s = connect_bytes(t, reserved);
            let n = s.len() as int;
            &&& n >= 6
            &&& s[0] == 5 && s[1] == 1 && s[2] == reserved
            &&& match t {
                Target::Ipv4(octets, port) => s[3] == 1 && s.subrange(4, n - 2) == octets && s[n
                    - 2] * 256 + s[n - 1] == port,
                Target::Ipv6(octets, port) => s[3] == 4 && s.subrange(4, n - 2) == octets && s[n
                    - 2] * 256 + s[n - 1] == port,
                Target::Domain(host, port) => s[3] == 3 && s[4] == n - 7 && s.subrange(5, n - 2)
                    == encode_utf8(host) && s[n - 2] * 256 + s[n - 1] == port,
            }
        }),
{
    let s = connect_bytes(t, reserved);
    let n = s.len() as int;
    match t {
        Target::Ipv4(octets, port) => {
            assert(s.subrange(4, n - 2) =~= octets);
        },
        Target::Ipv6(octets, port) => {
            assert(s.subrange(4, n - 2) =~= octets);
        },
        Target::Domain(host, port) => {
            assert(s.subrange(5, n - 2) =~= encode_utf8(host));
        },
    }
}

} // verus!
