//! What clients get, from their first bytes on.

use crate::addr_laws::lacks;
use crate::proto::{
    encodable, request_bytes, response_bytes, response_progress, Parsed, Refusal, Target,
};
use crate::proto_laws::{law_long_message_is_cut, law_response_round_trip, received_result};
use crate::server::http_connect::{
    connect_target, has_opening, is_blank_line, request_target, trim_end, Rejection,
};
use crate::server::http_grammar::{
    is_request, is_visible, lacks_two_spaces, law_named_target_is_read,
    law_request_line_is_understood, law_trimming_keeps_what_is_visible, names, says_connect,
};
use crate::server::http_laws::{connect_line, law_connect_line_names_target, lemma_find_char};
use crate::server::session::{next, on_headers, Act, At, Event, Failure, Front};
use crate::server::session_laws::{
    connect_bytes, law_socks5_reader_stays_in_request, law_socks5_request_is_read,
    lemma_heard, run, tunnel_bytes,
};
use crate::server::socks5::{connect_progress, greeting_progress, Socks5Error};
use vstd::prelude::*;
use vstd::utf8::{encode_utf8, valid_utf8};

verus! {

/// The bytes that came from a client before the relaying.
pub open spec fn client_bytes(events: Seq<Event>) -> Seq<u8>
    decreases events.len(),
{
    if events.len() == 0 {
        Seq::empty()
    } else {
        match events.last() {
            Event::Received(data) => client_bytes(events.drop_last()) + data@,
            _ => client_bytes(events.drop_last()),
        }
    }
}

/// Whether nothing but this has been sent through the tunnel.
pub open spec fn sends_only(acts: Seq<Act>, header: Seq<u8>) -> bool {
    forall|i: int|
        0 <= i < acts.len() ==> (#[trigger] acts[i] matches Act::SendTunnel(bytes) ==> bytes
            == header)
}

/// The greeting of a SOCKS5 client that offers these methods.
pub open spec fn greeting_bytes(methods: Seq<u8>) -> Seq<u8> {
    seq![5u8, methods.len() as u8] + methods
}

/// While a greeting is still arriving, the gateway waits, and asks for no byte
/// that follows it.
pub proof fn law_socks5_reader_stays_in_greeting(methods: Seq<u8>, k: nat)
    requires
        methods.len() <= 255,
        k < greeting_bytes(methods).len(),
    ensures
        greeting_progress(greeting_bytes(methods).take(k as int)) matches Parsed::Need(n) && 1 <= n
            <= greeting_bytes(methods).len() - k,
{
}

/// Where a SOCKS5 session stands whose client says this and nothing else.
spec fn follows(
    greeting: Seq<u8>,
    request: Seq<u8>,
    t: Target,
    said: Seq<u8>,
    at: At,
) -> bool {
    match at {
        At::Greeting(buf) => said == buf && buf.len() < greeting.len(),
        At::GreetingReply => said == greeting,
        At::Request(buf) => said == greeting + buf && buf.len() < request.len(),
        At::RequestLine => false,
        At::Headers(_) => false,
        At::Picking(x) => x == t && said == greeting + request,
        At::Opening(x) => x == t && said == greeting + request,
        At::Closed => true,
        _ => said == greeting + request,
    }
}

proof fn lemma_greeting_follows(
    methods: Seq<u8>,
    request: Seq<u8>,
    t: Target,
    buf: Seq<u8>,
    data: Vec<u8>,
)
    requires
        methods.len() <= 255,
        request.len() > 0,
        buf.len() < greeting_bytes(methods).len(),
        buf == greeting_bytes(methods).take(buf.len() as int),
        (buf + data@).len() <= (greeting_bytes(methods) + request).len(),
        buf + data@ == (greeting_bytes(methods) + request).take((buf + data@).len() as int),
        next(Front::Socks5, At::Greeting(buf), Event::Received(data)) is Some,
    ensures
        follows(
            greeting_bytes(methods),
            request,
            t,
            buf + data@,
            (next(Front::Socks5, At::Greeting(buf), Event::Received(data))->0).0,
        ),
        !((next(Front::Socks5, At::Greeting(buf), Event::Received(data))->0).1 is SendTunnel),
{
    let g = greeting_bytes(methods);
    let s = buf + data@;
    law_socks5_reader_stays_in_greeting(methods, buf.len());
    assert(s.len() <= g.len());
    assert(s =~= g.take(s.len() as int));
    if s.len() < g.len() {
        law_socks5_reader_stays_in_greeting(methods, s.len());
    } else {
        assert(s =~= g);
    }
}

proof fn lemma_request_follows(
    greeting: Seq<u8>,
    t: Target,
    reserved: u8,
    buf: Seq<u8>,
    data: Vec<u8>,
)
    requires
        encodable(t),
        buf.len() < connect_bytes(t, reserved).len(),
        buf == connect_bytes(t, reserved).take(buf.len() as int),
        (buf + data@).len() <= connect_bytes(t, reserved).len(),
        buf + data@ == connect_bytes(t, reserved).take((buf + data@).len() as int),
        next(Front::Socks5, At::Request(buf), Event::Received(data)) is Some,
    ensures
        follows(
            greeting,
            connect_bytes(t, reserved),
            t,
            greeting + (buf + data@),
            (next(Front::Socks5, At::Request(buf), Event::Received(data))->0).0,
        ),
        !((next(Front::Socks5, At::Request(buf), Event::Received(data))->0).1 is SendTunnel),
{
    let c = connect_bytes(t, reserved);
    let s = buf + data@;
    if s.len() < c.len() {
        law_socks5_reader_stays_in_request(t, reserved, s.len());
    } else {
        assert(s =~= c);
        law_socks5_request_is_read(t, reserved, Seq::empty());
        assert(c + Seq::<u8>::empty() =~= c);
    }
}

proof fn lemma_second_part(a: Seq<u8>, b: Seq<u8>, x: Seq<u8>)
    requires
        x.len() <= b.len(),
        a + x == (a + b).take((a + x).len() as int),
    ensures
        x == b.take(x.len() as int),
{
    assert forall|i: int| 0 <= i < x.len() implies x[i] == b[i] by {
        assert((a + x)[a.len() + i] == x[i]);
        assert((a + b)[a.len() + i] == b[i]);
    }
    assert(x =~= b.take(x.len() as int));
}

proof fn lemma_first_part(a: Seq<u8>, b: Seq<u8>, x: Seq<u8>)
    requires
        x.len() <= a.len(),
        x == (a + b).take(x.len() as int),
    ensures
        x == a.take(x.len() as int),
{
    assert(x =~= a.take(x.len() as int));
}

/// What a client has said after an event.
spec fn said_after(said: Seq<u8>, event: Event) -> Seq<u8> {
    match event {
        Event::Received(data) => said + data@,
        _ => said,
    }
}

proof fn lemma_socks5_step(
    methods: Seq<u8>,
    t: Target,
    reserved: u8,
    said: Seq<u8>,
    at: At,
    event: Event,
)
    requires
        methods.len() <= 255,
        encodable(t),
        next(Front::Socks5, at, event) is Some,
        said.len() <= said_after(said, event).len() <= (greeting_bytes(methods) + connect_bytes(
            t,
            reserved,
        )).len(),
        said == (greeting_bytes(methods) + connect_bytes(t, reserved)).take(said.len() as int),
        said_after(said, event) == (greeting_bytes(methods) + connect_bytes(t, reserved)).take(
            said_after(said, event).len() as int,
        ),
        follows(greeting_bytes(methods), connect_bytes(t, reserved), t, said, at),
    ensures
        follows(
            greeting_bytes(methods),
            connect_bytes(t, reserved),
            t,
            said_after(said, event),
            (next(Front::Socks5, at, event)->0).0,
        ),
        (next(Front::Socks5, at, event)->0).1 matches Act::SendTunnel(bytes) ==> bytes
            == request_bytes(t),
{
    let g = greeting_bytes(methods);
    let c = connect_bytes(t, reserved);
    match (at, event) {
        (At::Greeting(buf), Event::Received(data)) => {
            lemma_first_part(g, c, buf);
            lemma_greeting_follows(methods, c, t, buf, data);
        },
        (At::GreetingReply, Event::Sent) => {
            law_socks5_reader_stays_in_request(t, reserved, 0);
            assert(c.take(0) =~= Seq::<u8>::empty());
            assert(g + Seq::<u8>::empty() =~= g);
        },
        (At::Request(buf), Event::Received(data)) => {
            assert(said + data@ =~= g + (buf + data@));
            lemma_second_part(g, c, buf);
            lemma_second_part(g, c, buf + data@);
            lemma_request_follows(g, t, reserved, buf, data);
        },
        _ => {},
    }
}

proof fn lemma_sends_only(acts: Seq<Act>, act: Act, header: Seq<u8>)
    requires
        sends_only(acts, header),
        act matches Act::SendTunnel(bytes) ==> bytes == header,
    ensures
        sends_only(acts.push(act), header),
{
    let more = acts.push(act);
    assert forall|i: int| 0 <= i < more.len() implies (#[trigger] more[i] matches Act::SendTunnel(
        bytes,
    ) ==> bytes == header) by {
        if i < acts.len() {
            assert(more[i] == acts[i]);
        }
    }
}

proof fn lemma_socks5_follows(events: Seq<Event>, methods: Seq<u8>, t: Target, reserved: u8)
    requires
        methods.len() <= 255,
        encodable(t),
        run(Front::Socks5, events) is Some,
        client_bytes(events).len() <= (greeting_bytes(methods) + connect_bytes(t, reserved)).len(),
        client_bytes(events) == (greeting_bytes(methods) + connect_bytes(t, reserved)).take(
            client_bytes(events).len() as int,
        ),
    ensures
        follows(
            greeting_bytes(methods),
            connect_bytes(t, reserved),
            t,
            client_bytes(events),
            (run(Front::Socks5, events)->0).0,
        ),
        sends_only((run(Front::Socks5, events)->0).1, request_bytes(t)),
    decreases events.len(),
{
    let g = greeting_bytes(methods);
    let c = connect_bytes(t, reserved);
    if events.len() == 0 {
        law_socks5_reader_stays_in_greeting(methods, 0);
        assert(g.take(0) =~= Seq::<u8>::empty());
    } else {
        let before = events.drop_last();
        let event = events.last();
        let said = client_bytes(before);
        assert(client_bytes(events) == said_after(said, event));
        assert(said =~= client_bytes(events).take(said.len() as int));
        assert(said =~= (g + c).take(said.len() as int));
        lemma_socks5_follows(before, methods, t, reserved);
        let (at, acts) = run(Front::Socks5, before)->0;
        let (to, act) = next(Front::Socks5, at, event)->0;
        lemma_socks5_step(methods, t, reserved, said, at, event);
        lemma_sends_only(acts, act, request_bytes(t));
    }
}

/// A SOCKS5 client that greets and asks for a target gets that very target,
/// however its bytes arrive: once they have, a provider for it is picked; and
/// nothing but the header that names it ever goes through the tunnel.
pub proof fn law_socks5_client_gets_its_target(
    events: Seq<Event>,
    methods: Seq<u8>,
    t: Target,
    reserved: u8,
)
    requires
        methods.len() <= 255,
        encodable(t),
        run(Front::Socks5, events) is Some,
        client_bytes(events) == greeting_bytes(methods) + connect_bytes(t, reserved),
    ensures
        events.last() is Received ==> (run(Front::Socks5, events)->0).0 == At::Picking(t) && (run(
            Front::Socks5,
            events,
        )->0).1.last() == Act::Pick,
        (run(Front::Socks5, events)->0).0 matches At::Picking(x) ==> x == t,
        (run(Front::Socks5, events)->0).0 matches At::Opening(x) ==> x == t,
        sends_only((run(Front::Socks5, events)->0).1, request_bytes(t)),
{
    let g = greeting_bytes(methods);
    let c = connect_bytes(t, reserved);
    assert((g + c).take((g + c).len() as int) =~= g + c);
    lemma_socks5_follows(events, methods, t, reserved);
    let before = events.drop_last();
    let event = events.last();
    if event is Received {
        let (at, _) = run(Front::Socks5, before)->0;
        let said = client_bytes(before);
        assert(said =~= (g + c).take(said.len() as int));
        lemma_socks5_follows(before, methods, t, reserved);
        match (at, event) {
            (At::Request(buf), Event::Received(data)) => {
                assert(said + data@ =~= g + (buf + data@));
                assert((g + (buf + data@)).len() == (g + c).len());
                lemma_second_part(g, c, buf + data@);
                assert(buf + data@ =~= c);
                law_socks5_request_is_carried_out(t, reserved, buf, data);
            },
            (At::Greeting(buf), Event::Received(data)) => {
                assert(buf =~= g.take(buf.len() as int));
                law_socks5_reader_stays_in_greeting(methods, buf.len());
            },
            _ => {},
        }
    }
}

/// When the last bytes of a request come, a SOCKS5 session picks a provider for
/// the target that the request names.
pub proof fn law_socks5_request_is_carried_out(
    t: Target,
    reserved: u8,
    buf: Seq<u8>,
    data: Vec<u8>,
)
    requires
        encodable(t),
        buf + data@ == connect_bytes(t, reserved),
        next(Front::Socks5, At::Request(buf), Event::Received(data)) is Some,
    ensures
        next(Front::Socks5, At::Request(buf), Event::Received(data)) == Some(
            (At::Picking(t), Act::Pick),
        ),
{
    let c = connect_bytes(t, reserved);
    law_socks5_request_is_read(t, reserved, Seq::empty());
    assert(c + Seq::<u8>::empty() =~= c);
}

/// A SOCKS5 client's greeting is answered with the version and `no
/// authentication`, whatever methods it offers.
pub proof fn law_socks5_greeting_is_answered(methods: Seq<u8>, buf: Seq<u8>, data: Vec<u8>)
    requires
        methods.len() <= 255,
        buf + data@ == greeting_bytes(methods),
        next(Front::Socks5, At::Greeting(buf), Event::Received(data)) is Some,
    ensures
        next(Front::Socks5, At::Greeting(buf), Event::Received(data)) == Some(
            (At::GreetingReply, Act::Send(seq![5u8, 0u8])),
        ),
{
    assert(seq![5u8, 0u8] =~= seq![
        crate::server::socks5::SOCKS5_VERSION,
        crate::server::socks5::NO_AUTH,
    ]);
}

/// The end of a session with a reply, without a stream to release.
pub open spec fn turned_away(
    next: Option<(At, Act)>,
    reply: Option<Seq<u8>>,
    error: Failure,
) -> bool {
    next == Some((At::Closed, Act::Close { reply, release: false, error: Some(error) }))
}

/// A SOCKS5 client that speaks another version is turned away without a reply;
/// one that asks for another command, or names an address of an unknown type, is
/// told so first.
pub proof fn law_socks5_client_is_refused(buf: Seq<u8>, data: Vec<u8>)
    ensures
        ({
            let s = buf + data@;
            let greeted = next(Front::Socks5, At::Greeting(buf), Event::Received(data));
            let asked = next(Front::Socks5, At::Request(buf), Event::Received(data));
            &&& greeted is Some && s.len() >= 1 && s[0] != 5 ==> turned_away(
                greeted,
                None,
                Failure::Socks5(Socks5Error::UnsupportedVersion(s[0])),
            )
            &&& asked is Some && s.len() >= 4 && s[0] != 5 ==> turned_away(
                asked,
                None,
                Failure::Socks5(Socks5Error::BadVersion(s[0])),
            )
            &&& asked is Some && s.len() >= 4 && s[0] == 5 && s[1] != 1 ==> turned_away(
                asked,
                Some(seq![5u8, 7, 0, 1, 0, 0, 0, 0, 0, 0]),
                Failure::Socks5(Socks5Error::UnsupportedCommand(s[1])),
            )
            &&& asked is Some && s.len() >= 4 && s[0] == 5 && s[1] == 1 && s[3] != 1 && s[3] != 3
                && s[3] != 4 ==> turned_away(
                asked,
                Some(seq![5u8, 1, 0, 1, 0, 0, 0, 0, 0, 0]),
                Failure::Socks5(Socks5Error::UnsupportedAtyp(s[3])),
            )
            &&& asked is Some && s.len() >= 7 && s.len() == 7 + s[4] && s[0] == 5 && s[1] == 1
                && s[3] == 3 && !valid_utf8(s.subrange(5, 5 + s[4])) ==> turned_away(
                asked,
                None,
                Failure::Socks5(Socks5Error::InvalidDomain),
            )
        }),
{
    assert(crate::server::socks5::reply_bytes(7) =~= seq![5u8, 7, 0, 1, 0, 0, 0, 0, 0, 0]);
    assert(crate::server::socks5::reply_bytes(1) =~= seq![5u8, 1, 0, 1, 0, 0, 0, 0, 0, 0]);
}

/// Where an HTTP session stands whose client asks for a target.
spec fn follows_line(line: Seq<char>, t: Target, at: At) -> bool {
    match at {
        At::Headers(l) => l == line,
        At::Picking(x) => x == t,
        At::Opening(x) => x == t,
        At::Greeting(_) => false,
        At::GreetingReply => false,
        At::Request(_) => false,
        At::RequestLine => false,
        _ => true,
    }
}

proof fn lemma_http_follows(events: Seq<Event>, line: Seq<char>, t: Target)
    requires
        run(Front::Http, events) is Some,
        events.len() > 0,
        events[0] matches Event::Line(l) && trim_end(l@) == line,
        on_headers(line) == Some((At::Picking(t), Act::Pick)),
    ensures
        follows_line(line, t, (run(Front::Http, events)->0).0),
        sends_only((run(Front::Http, events)->0).1, request_bytes(t)),
    decreases events.len(),
{
    let before = events.drop_last();
    let event = events.last();
    let (at, acts) = run(Front::Http, before)->0;
    let (to, act) = next(Front::Http, at, event)->0;
    if events.len() == 1 {
        assert(event == events[0]);
        assert(before.len() == 0);
        assert(acts =~= seq![Act::ReceiveLine]);
    } else {
        assert(before[0] == events[0]);
        lemma_http_follows(before, line, t);
    }
    lemma_sends_only(acts, act, request_bytes(t));
}

/// A client that asks for a target over HTTP gets that very target: once the
/// blank line after its headers has come, a provider for it is picked; and
/// nothing but the header that names it ever goes through the tunnel.
pub proof fn law_http_client_gets_its_target(
    events: Seq<Event>,
    text: Seq<char>,
    t: Target,
    port: Seq<char>,
    version: Seq<char>,
    ending: Seq<char>,
)
    requires
        run(Front::Http, events) is Some,
        events.len() > 0,
        events[0] matches Event::Line(l) && l@ == connect_line(text, version) + ending,
        names(text, t, port),
        lacks(text, ' '),
        version.len() > 0,
        is_visible(version.last()),
        ending == seq!['\r', '\n'] || ending == seq!['\n'],
    ensures
        events.len() > 1 && (events.last() matches Event::Line(l) && is_blank_line(l@)) ==> (run(
            Front::Http,
            events,
        )->0).0 == At::Picking(t) && (run(Front::Http, events)->0).1.last() == Act::Pick,
        (run(Front::Http, events)->0).0 matches At::Picking(x) ==> x == t,
        (run(Front::Http, events)->0).0 matches At::Opening(x) ==> x == t,
        sends_only((run(Front::Http, events)->0).1, request_bytes(t)),
{
    let line = connect_line(text, version);
    assert(line.last() == version.last());
    law_trimming_keeps_what_is_visible(line, ending);
    law_connect_line_names_target(text, version);
    law_named_target_is_read(text, t, port);
    assert(on_headers(line) == Some((At::Picking(t), Act::Pick)));
    lemma_http_follows(events, line, t);
    if events.len() > 1 && events.last() is Line {
        let before = events.drop_last();
        assert(before[0] == events[0]);
        lemma_http_follows(before, line, t);
    }
}

proof fn lemma_request_parts(
    line: Seq<char>,
    method: Seq<char>,
    target: Seq<char>,
    rest: Seq<char>,
)
    requires
        is_request(line, method, target, rest),
    ensures
        request_target(line) == if says_connect(method) {
            Ok::<Seq<char>, Rejection>(target)
        } else {
            Err(Rejection::UnsupportedMethod(method))
        },
{
    let i = method.len() as int;
    let j = i + 1 + target.len() as int;
    assert forall|k: int| 0 <= k < i implies #[trigger] line[k] != ' ' by {
        assert(line[k] == method[k]);
    }
    lemma_find_char(line, ' ', 0, i);
    assert forall|k: int| i + 1 <= k < j implies #[trigger] line[k] != ' ' by {
        assert(line[k] == target[k - i - 1]);
    }
    lemma_find_char(line, ' ', i + 1, j);
    assert(line.take(i) =~= method);
    assert(line.subrange(i + 1, j) =~= target);
}

/// An HTTP client whose request line is malformed is told so with status 400, and
/// one that uses another method with status 405; one whose target cannot be read
/// is turned away without a reply.
pub proof fn law_http_client_is_refused(
    line: Seq<char>,
    method: Seq<char>,
    target: Seq<char>,
    rest: Seq<char>,
    blank: String,
)
    requires
        is_blank_line(blank@),
    ensures
        lacks_two_spaces(line) ==> turned_away(
            next(Front::Http, At::Headers(line), Event::Line(blank)),
            Some(encode_utf8("HTTP/1.1 400 Bad Request\r\n\r\n"@)),
            Failure::Http(Rejection::MalformedRequest),
        ),
        is_request(line, method, target, rest) && !says_connect(method) ==> turned_away(
            next(Front::Http, At::Headers(line), Event::Line(blank)),
            Some(encode_utf8("HTTP/1.1 405 Method Not Allowed\r\n\r\n"@)),
            Failure::Http(Rejection::UnsupportedMethod(method)),
        ),
        is_request(line, method, target, rest) && says_connect(method) && has_opening(target)
            && connect_target(target) is Err ==> turned_away(
            next(Front::Http, At::Headers(line), Event::Line(blank)),
            None,
            Failure::Http(connect_target(target)->Err_0),
        ),
{
    if is_request(line, method, target, rest) {
        lemma_request_parts(line, method, target, rest);
    }
    if lacks_two_spaces(line) {
        law_request_line_is_understood(line);
        let read = request_target(line);
        if read is Ok {
            let (m, r) = choose|m: Seq<char>, r: Seq<char>|
                #[trigger] is_request(line, m, read->Ok_0, r) && says_connect(m);
            lemma_two_spaces(line, m, read->Ok_0, r);
        } else if read->Err_0 is UnsupportedMethod {
            let m = read->Err_0->UnsupportedMethod_0;
            let (g, r) = choose|g: Seq<char>, r: Seq<char>| #[trigger] is_request(line, m, g, r);
            lemma_two_spaces(line, m, g, r);
        }
    }
}

proof fn lemma_two_spaces(line: Seq<char>, method: Seq<char>, target: Seq<char>, rest: Seq<char>)
    requires
        is_request(line, method, target, rest),
    ensures
        !lacks_two_spaces(line),
{
    let i = method.len() as int;
    let j = i + 1 + target.len() as int;
    assert(line[i] == ' ' && line[j] == ' ');
}

/// What a client is told when it is connected.
pub open spec fn is_success(front: Front, reply: Seq<u8>) -> bool {
    match front {
        Front::Socks5 => reply == seq![5u8, 0, 0, 1, 0, 0, 0, 0, 0, 0],
        Front::Http => reply == encode_utf8("HTTP/1.1 200 Connection Established\r\n\r\n"@),
    }
}

/// What a client is told when the agent does not connect it.
pub open spec fn is_failure(front: Front, reply: Seq<u8>) -> bool {
    match front {
        Front::Socks5 => reply == seq![5u8, 1, 0, 1, 0, 0, 0, 0, 0, 0],
        Front::Http => reply == encode_utf8("HTTP/1.1 502 Bad Gateway\r\n\r\n"@),
    }
}

/// Whether a session tells its client the outcome.
pub open spec fn tells(front: Front, at: At, act: Act, outcome: Result<(), Refusal>) -> bool {
    match outcome {
        Ok(()) => at == At::Confirming && (act matches Act::Send(reply) && is_success(
            front,
            reply,
        )),
        Err(e) => at == At::Closed && (act matches Act::Close { reply: Some(reply), release, error }
            && is_failure(front, reply) && release && error == Some(Failure::Proto(e))),
    }
}

/// When the agent's response has come, however its bytes arrive, the client is
/// told the outcome: that it is connected, or that it is not; and the gateway
/// knows the agent's message.
pub proof fn law_client_is_told_the_outcome(
    front: Front,
    events: Seq<Event>,
    result: Result<(), Seq<char>>,
)
    requires
        run(front, events) is Some,
        events.len() > 0,
        events.last() is TunnelReceived,
        tunnel_bytes(events) == response_bytes(result),
    ensures
        tells(
            front,
            (run(front, events)->0).0,
            (run(front, events)->0).1.last(),
            received_result(result),
        ),
{
    let before = events.drop_last();
    let (at, acts) = run(front, before)->0;
    lemma_heard(front, before);
    match result {
        Err(msg) if encode_utf8(msg).len() > 255 => law_long_message_is_cut(msg, Seq::empty()),
        _ => law_response_round_trip(result, Seq::empty()),
    }
    assert(response_bytes(result) + Seq::<u8>::empty() =~= response_bytes(result));
    assert(crate::server::socks5::reply_bytes(0) =~= seq![5u8, 0, 0, 1, 0, 0, 0, 0, 0, 0]);
    assert(crate::server::socks5::reply_bytes(1) =~= seq![5u8, 1, 0, 1, 0, 0, 0, 0, 0, 0]);
}

/// A response with an unknown status, and a tunnel that breaks before the
/// response is whole, are failures that the client is told.
pub proof fn law_client_is_told_of_a_bad_response(
    front: Front,
    buf: Seq<u8>,
    data: Vec<u8>,
    why: String,
)
    ensures
        ({
            let s = buf + data@;
            let answered = next(front, At::Awaiting(buf), Event::TunnelReceived(data));
            answered is Some && s.len() > 0 && s[0] != 0 && s[0] != 1 ==> tells(
                front,
                (answered->0).0,
                (answered->0).1,
                Err(Refusal::UnknownStatus(s[0])),
            )
        }),
        next(front, At::Awaiting(buf), Event::Broken(why)) matches Some((at, act)) && at
            == At::Closed && (act matches Act::Close { reply: Some(reply), release, error }
            && is_failure(front, reply) && release && error == Some(Failure::Io(why@))),
{
    assert(crate::server::socks5::reply_bytes(1) =~= seq![5u8, 1, 0, 1, 0, 0, 0, 0, 0, 0]);
}

/// A client for whose target there is no provider, or whose provider opens no
/// stream, is told so; and a target that no header can name ends the session.
pub proof fn law_client_is_told_of_a_missing_stream(front: Front, t: Target, why: String)
    ensures
        turned_away(
            next(front, At::Picking(t), Event::NoProvider),
            Some(
                match front {
                    Front::Socks5 => seq![5u8, 1, 0, 1, 0, 0, 0, 0, 0, 0],
                    Front::Http => encode_utf8("HTTP/1.1 503 Service Unavailable\r\n\r\n"@),
                },
            ),
            Failure::NoProviders,
        ),
        next(front, At::Opening(t), Event::NotOpened(why)) matches Some((at, act)) && at
            == At::Closed && (act matches Act::Close { reply: Some(reply), release, error }
            && is_failure(front, reply) && !release && error == Some(Failure::Open(why@))),
        t matches Target::Domain(host, port) ==> (encode_utf8(host).len() > 255 ==> turned_away(
            next(front, At::Opening(t), Event::Opened),
            None,
            Failure::Proto(Refusal::DomainTooLong(host)),
        )),
{
    assert(crate::server::socks5::reply_bytes(1) =~= seq![5u8, 1, 0, 1, 0, 0, 0, 0, 0, 0]);
}

/// A session whose relaying has ended releases its stream, and ends with the
/// relaying's error if there was one.
pub proof fn law_relaying_ends_the_session(front: Front, why: String)
    ensures
        next(front, At::Relaying, Event::Relayed(None)) == Some(
            (At::Closed, Act::Close { reply: None, release: true, error: None }),
        ),
        next(front, At::Relaying, Event::Relayed(Some(why))) == Some(
            (
                At::Closed,
                Act::Close { reply: None, release: true, error: Some(Failure::Io(why@)) },
            ),
        ),
{
}

/// Whether an event answers what a session asked for.
pub open spec fn answers(act: Act, event: Event) -> bool {
    match (act, event) {
        (Act::Receive(n), Event::Received(data)) => data@.len() == n,
        (Act::Receive(_), Event::Broken(_)) => true,
        (Act::ReceiveLine, Event::Line(_)) => true,
        (Act::ReceiveLine, Event::Broken(_)) => true,
        (Act::Send(_), Event::Sent) => true,
        (Act::Send(_), Event::Broken(_)) => true,
        (Act::Pick, Event::Picked) => true,
        (Act::Pick, Event::NoProvider) => true,
        (Act::Open, Event::Opened) => true,
        (Act::Open, Event::NotOpened(_)) => true,
        (Act::SendTunnel(_), Event::Sent) => true,
        (Act::SendTunnel(_), Event::Broken(_)) => true,
        (Act::ReceiveTunnel(n), Event::TunnelReceived(data)) => data@.len() == n,
        (Act::ReceiveTunnel(_), Event::Broken(_)) => true,
        (Act::Relay, Event::Relayed(_)) => true,
        _ => false,
    }
}

/// What a session has asked for at a stage.
spec fn asks_at(front: Front, at: At, act: Act) -> bool {
    match at {
        At::Greeting(buf) => greeting_progress(buf) is Need && act == Act::Receive(
            greeting_progress(buf)->Need_0,
        ),
        At::GreetingReply => act is Send,
        At::Request(buf) => connect_progress(buf) is Need && act == Act::Receive(
            connect_progress(buf)->Need_0,
        ),
        At::RequestLine => act == Act::ReceiveLine,
        At::Headers(_) => act == Act::ReceiveLine,
        At::Picking(_) => act == Act::Pick,
        At::Opening(_) => act == Act::Open,
        At::Requesting => act is SendTunnel,
        At::Awaiting(buf) => response_progress(buf) is Need && act == Act::ReceiveTunnel(
            response_progress(buf)->Need_0,
        ),
        At::Confirming => act is Send,
        At::Relaying => act == Act::Relay,
        At::Closed => act is Close,
    }
}

proof fn lemma_asks(front: Front, at: At, event: Event)
    requires
        next(front, at, event) is Some,
    ensures
        asks_at(front, (next(front, at, event)->0).0, (next(front, at, event)->0).1),
{
}

/// A session goes on from every answer to what it asked for, until it closes.
/// (The one exception is an HTTP request whose target has a closing bracket and
/// a colon, but no single byte in front of the address.)
pub proof fn law_session_goes_on(front: Front, events: Seq<Event>, event: Event)
    requires
        run(front, events) is Some,
        answers((run(front, events)->0).1.last(), event),
        (run(front, events)->0).0 matches At::Headers(line) ==> (request_target(line) matches Ok(
            target,
        ) ==> has_opening(target)),
    ensures
        run(front, events.push(event)) is Some,
{
    let (at, acts) = run(front, events)->0;
    if events.len() > 0 {
        lemma_asks(front, (run(front, events.drop_last())->0).0, events.last());
    }
    assert(asks_at(front, at, acts.last()));
    assert(next(front, at, event) is Some);
    assert(events.push(event).drop_last() =~= events);
}

/// A header line with anything visible in it does not end the headers, and an
/// empty one does, whatever its line break: the session waits for the one that
/// does.
pub proof fn law_headers_are_skipped(line: Seq<char>, header: String, i: int)
    ensures
        0 <= i < header@.len() && is_visible(header@[i]) ==> next(
            Front::Http,
            At::Headers(line),
            Event::Line(header),
        ) == Some((At::Headers(line), Act::ReceiveLine)),
        header@ == seq!['\r', '\n'] || header@ == seq!['\n'] || header@.len() == 0 ==> next(
            Front::Http,
            At::Headers(line),
            Event::Line(header),
        ) == on_headers(line),
{
    if header@ == seq!['\r', '\n'] || header@ == seq!['\n'] {
        assert(is_blank_line(header@));
    }
}

/// A session whose client, or whose tunnel, breaks before the agent is asked or
/// after the client is connected, ends with that error and without a reply.
pub proof fn law_broken_connection_ends_the_session(
    front: Front,
    buf: Seq<u8>,
    line: Seq<char>,
    why: String,
)
    ensures
        turned_away(
            next(front, At::Greeting(buf), Event::Broken(why)),
            None,
            Failure::Io(why@),
        ),
        turned_away(next(front, At::GreetingReply, Event::Broken(why)), None, Failure::Io(why@)),
        turned_away(
            next(front, At::Request(buf), Event::Broken(why)),
            None,
            Failure::Io(why@),
        ),
        turned_away(next(front, At::RequestLine, Event::Broken(why)), None, Failure::Io(why@)),
        turned_away(
            next(front, At::Headers(line), Event::Broken(why)),
            None,
            Failure::Io(why@),
        ),
        turned_away(next(front, At::Requesting, Event::Broken(why)), None, Failure::Io(why@)),
        turned_away(next(front, At::Confirming, Event::Broken(why)), None, Failure::Io(why@)),
{
}

} // verus!
