//! Laws of the wire protocol.

use crate::buffers::utf8_lossy;
use crate::proto::{
    be16, be16_bytes, encodable, lossy_text, request_bytes, request_progress, response_bytes,
    response_progress, Parsed, ProxyAddr, Refusal, Target,
};
use vstd::prelude::*;
use vstd::utf8::{
    decode_utf8_encode_utf8, encode_utf8, encode_utf8_decode_utf8, encode_utf8_valid_utf8,
    valid_utf8,
};

verus! {

proof fn lemma_be16(n: u16)
    ensures
        be16((n / 256) as u8, (n % 256) as u8) == n,
{
}

proof fn lemma_be16_bytes(hi: u8, lo: u8)
    ensures
        be16_bytes(be16(hi, lo)) == seq![hi, lo],
{
    let n = (hi * 256 + lo) as u16;
    assert(n / 256 == hi && n % 256 == lo);
    assert(be16_bytes(n) =~= seq![hi, lo]);
}

/// What one side writes as a request, the other reads back, whatever bytes of
/// the proxied connection follow; and the reader takes exactly the header.
pub proof fn law_request_round_trip(t: Target, rest: Seq<u8>)
    requires
        encodable(t),
    ensures
        request_progress(request_bytes(t) + rest) == Parsed::<Target, Refusal>::Done(
            t,
            request_bytes(t).len(),
        ),
{
    let s = request_bytes(t) + rest;
    match t {
        Target::Ipv4(octets, port) => {
            lemma_be16(port);
            assert(s.subrange(4, 8) =~= octets);
        },
        Target::Ipv6(octets, port) => {
            lemma_be16(port);
            assert(s.subrange(4, 20) =~= octets);
        },
        Target::Domain(host, port) => {
            let bytes = encode_utf8(host);
            lemma_be16(port);
            encode_utf8_valid_utf8(host);
            encode_utf8_decode_utf8(host);
            assert(s.subrange(5, 5 + bytes.len() as int) =~= bytes);
        },
    }
}

/// A header that is read as some target is the header written for that target:
/// no two headers stand for one target.
pub proof fn law_request_is_canonical(s: Seq<u8>)
    ensures
        request_progress(s) matches Parsed::Done(t, n) ==> encodable(t) && n <= s.len()
            && s.take(n as int) == request_bytes(t),
{
    match request_progress(s) {
        Parsed::Done(t, n) => {
            lemma_be16_bytes(s[2], s[3]);
            if t is Domain {
                decode_utf8_encode_utf8(s.subrange(5, 5 + s[4]));
            }
            assert(s.take(n as int) =~= request_bytes(t));
        },
        _ => {},
    }
}

/// While a header is still arriving, the reader waits, and asks for no byte
/// that follows the header.
pub proof fn law_request_reader_stays_in_header(t: Target, k: nat)
    requires
        encodable(t),
        k < request_bytes(t).len(),
    ensures
        request_progress(request_bytes(t).take(k as int)) matches Parsed::Need(n) && 1 <= n
            <= request_bytes(t).len() - k,
{
}

/// Once the bytes decide a request, bytes that arrive later do not change it.
pub proof fn law_request_decision_is_stable(s: Seq<u8>, more: Seq<u8>)
    ensures
        !(request_progress(s) is Need) ==> request_progress(s + more) == request_progress(s),
{
    if s.len() >= 8 {
        assert((s + more).subrange(4, 8) =~= s.subrange(4, 8));
    }
    if s.len() >= 20 {
        assert((s + more).subrange(4, 20) =~= s.subrange(4, 20));
    }
    if s.len() >= 5 && s.len() >= 5 + s[4] {
        assert((s + more).subrange(5, 5 + s[4]) =~= s.subrange(5, 5 + s[4]));
    }
}

/// The gateway reads success where the agent reported success, and the agent's
/// message, whole, where the agent reported an error whose message fits the
/// length byte.
pub proof fn law_response_round_trip(result: Result<(), Seq<char>>, rest: Seq<u8>)
    requires
        result matches Err(msg) ==> encode_utf8(msg).len() <= 255,
    ensures
        response_progress(response_bytes(result) + rest) == (match result {
            Ok(()) => Parsed::<(), Refusal>::Done((), 1),
            Err(msg) => Parsed::<(), Refusal>::Fail(Refusal::AgentError(msg)),
        }),
{
    match result {
        Ok(()) => {},
        Err(msg) => {
            let bytes = encode_utf8(msg);
            let s = response_bytes(result) + rest;
            encode_utf8_valid_utf8(msg);
            encode_utf8_decode_utf8(msg);
            assert(s.subrange(2, 2 + s[1]) =~= bytes);
        },
    }
}

/// A longer message arrives as the text of its first 255 bytes.
pub proof fn law_long_message_is_cut(msg: Seq<char>, rest: Seq<u8>)
    requires
        encode_utf8(msg).len() > 255,
    ensures
        response_progress(response_bytes(Err(msg)) + rest) == Parsed::<(), Refusal>::Fail(
            Refusal::AgentError(lossy_text(encode_utf8(msg).take(255))),
        ),
{
    let s = response_bytes(Err(msg)) + rest;
    assert(s.subrange(2, 2 + s[1]) =~= encode_utf8(msg).take(255));
}

/// While a response is still arriving, the reader waits, and asks for no byte
/// that follows the response.
pub proof fn law_response_reader_stays_in_response(result: Result<(), Seq<char>>, k: nat)
    requires
        k < response_bytes(result).len(),
    ensures
        response_progress(response_bytes(result).take(k as int)) matches Parsed::Need(n) && 1 <= n
            <= response_bytes(result).len() - k,
{
}

/// What comes of reading a request from a stream of bytes, of which the first
/// have been read and the rest have not: what the reader makes of them, and the
/// bytes that it leaves; `None` where the stream ends too early.
pub open spec fn request_from(read: Seq<u8>, rest: Seq<u8>) -> Option<
    (Result<Target, Refusal>, Seq<u8>),
>
    decreases rest.len(),
{
    match request_progress(read) {
        Parsed::Need(n) => if 0 < n <= rest.len() {
            request_from(read + rest.take(n as int), rest.skip(n as int))
        } else {
            None
        },
        Parsed::Done(t, _) => Some((Ok(t), rest)),
        Parsed::Fail(e) => Some((Err(e), rest)),
    }
}

proof fn lemma_request_from(t: Target, k: nat, payload: Seq<u8>)
    requires
        encodable(t),
        k <= request_bytes(t).len(),
    ensures
        request_from(request_bytes(t).take(k as int), request_bytes(t).skip(k as int) + payload)
            == Some((Ok::<Target, Refusal>(t), payload)),
    decreases request_bytes(t).len() - k,
{
    let header = request_bytes(t);
    let read = header.take(k as int);
    let rest = header.skip(k as int) + payload;
    if k == header.len() {
        law_request_round_trip(t, Seq::empty());
        assert(header + Seq::<u8>::empty() =~= read);
        assert(rest =~= payload);
    } else {
        law_request_reader_stays_in_header(t, k);
        let n = request_progress(read)->Need_0;
        assert(read + rest.take(n as int) =~= header.take((k + n) as int));
        assert(rest.skip(n as int) =~= header.skip((k + n) as int) + payload);
        lemma_request_from(t, k + n, payload);
    }
}

/// The agent reads the target from a stream that starts with its header, however
/// the bytes arrive, and leaves every byte of the proxied connection that
/// follows.
pub proof fn law_request_leaves_the_payload(t: Target, payload: Seq<u8>)
    requires
        encodable(t),
    ensures
        request_from(Seq::empty(), request_bytes(t) + payload) == Some(
            (Ok::<Target, Refusal>(t), payload),
        ),
{
    lemma_request_from(t, 0, payload);
    assert(request_bytes(t).take(0) =~= Seq::<u8>::empty());
    assert(request_bytes(t).skip(0) =~= request_bytes(t));
}

/// What comes of reading a response from a stream of bytes, of which the first
/// have been read and the rest have not: what the reader makes of them, and the
/// bytes that it leaves; `None` where the stream ends too early.
pub open spec fn response_from(read: Seq<u8>, rest: Seq<u8>) -> Option<
    (Result<(), Refusal>, Seq<u8>),
>
    decreases rest.len(),
{
    match response_progress(read) {
        Parsed::Need(n) => if 0 < n <= rest.len() {
            response_from(read + rest.take(n as int), rest.skip(n as int))
        } else {
            None
        },
        Parsed::Done(_, _) => Some((Ok(()), rest)),
        Parsed::Fail(e) => Some((Err(e), rest)),
    }
}

/// What the gateway makes of the agent's response: an error is its message, or
/// the text of the first 255 bytes of it.
pub open spec fn received_result(result: Result<(), Seq<char>>) -> Result<(), Refusal> {
    match result {
        Ok(()) => Ok(()),
        Err(msg) => Err(
            Refusal::AgentError(
                if encode_utf8(msg).len() <= 255 {
                    msg
                } else {
                    lossy_text(encode_utf8(msg).take(255))
                },
            ),
        ),
    }
}

proof fn lemma_response_from(result: Result<(), Seq<char>>, k: nat, payload: Seq<u8>)
    requires
        k <= response_bytes(result).len(),
    ensures
        response_from(
            response_bytes(result).take(k as int),
            response_bytes(result).skip(k as int) + payload,
        ) == Some((received_result(result), payload)),
    decreases response_bytes(result).len() - k,
{
    let response = response_bytes(result);
    let read = response.take(k as int);
    let rest = response.skip(k as int) + payload;
    if k == response.len() {
        match result {
            Err(msg) if encode_utf8(msg).len() > 255 => law_long_message_is_cut(msg, Seq::empty()),
            _ => law_response_round_trip(result, Seq::empty()),
        }
        assert(response + Seq::<u8>::empty() =~= read);
        assert(rest =~= payload);
    } else {
        law_response_reader_stays_in_response(result, k);
        let n = response_progress(read)->Need_0;
        assert(read + rest.take(n as int) =~= response.take((k + n) as int));
        assert(rest.skip(n as int) =~= response.skip((k + n) as int) + payload);
        lemma_response_from(result, k + n, payload);
    }
}

/// The gateway reads the agent's response from a stream that starts with it,
/// however the bytes arrive, and leaves every byte of the proxied connection
/// that follows.
pub proof fn law_response_leaves_the_payload(result: Result<(), Seq<char>>, payload: Seq<u8>)
    ensures
        response_from(Seq::empty(), response_bytes(result) + payload) == Some(
            (received_result(result), payload),
        ),
{
    lemma_response_from(result, 0, payload);
    assert(response_bytes(result).take(0) =~= Seq::<u8>::empty());
    assert(response_bytes(result).skip(0) =~= response_bytes(result));
}

/// Whether a header starts with the version, this type of address and this port,
/// the high byte first.
pub open spec fn starts_with(header: Seq<u8>, atyp: u8, port: u16) -> bool {
    header.len() >= 4 && header[0] == 1 && header[1] == atyp && header[2] * 256 + header[3] == port
}

/// A header is the version, the type of the address, the port and the address: an
/// IPv4 or an IPv6 address octet by octet, a domain by its length and its bytes.
pub proof fn law_header_names_the_target(addr: ProxyAddr)
    ensures
        addr matches ProxyAddr::Ipv4(octets, port) ==> starts_with(request_bytes(addr@), 1, port)
            && request_bytes(addr@).skip(4) == octets@,
        addr matches ProxyAddr::Ipv6(octets, port) ==> starts_with(request_bytes(addr@), 4, port)
            && request_bytes(addr@).skip(4) == octets@,
        addr matches ProxyAddr::Domain(host, port) ==> (encode_utf8(host@).len() < 256
            ==> starts_with(request_bytes(addr@), 3, port) && request_bytes(addr@)[4]
            == encode_utf8(host@).len() && request_bytes(addr@).skip(5) == encode_utf8(host@)),
{
    match addr {
        ProxyAddr::Ipv4(octets, port) => {
            lemma_be16(port);
            assert(request_bytes(addr@).skip(4) =~= octets@);
        },
        ProxyAddr::Ipv6(octets, port) => {
            lemma_be16(port);
            assert(request_bytes(addr@).skip(4) =~= octets@);
        },
        ProxyAddr::Domain(host, port) => {
            lemma_be16(port);
            assert(request_bytes(addr@).skip(5) =~= encode_utf8(host@));
        },
    }
}

/// Every address has a header, and so has a domain of fewer than 256 bytes, but
/// no longer one.
pub proof fn law_what_has_a_header(addr: ProxyAddr)
    ensures
        addr is Ipv4 || addr is Ipv6 ==> encodable(addr@),
        addr matches ProxyAddr::Domain(host, _) ==> (encodable(addr@) <==> encode_utf8(host@).len()
            < 256),
{
}

/// Different targets have different headers.
pub proof fn law_headers_differ(a: Target, b: Target)
    requires
        encodable(a),
        encodable(b),
        request_bytes(a) == request_bytes(b),
    ensures
        a == b,
{
    law_request_round_trip(a, Seq::empty());
    law_request_round_trip(b, Seq::empty());
}

/// A request is refused for its version if that is not one, for its type of
/// address if that is none of the three, and for its domain if that is not text;
/// and for nothing else.
pub proof fn law_bad_request_is_refused(s: Seq<u8>)
    ensures
        s.len() >= 1 && s[0] != 1 ==> request_progress(s) == Parsed::<Target, Refusal>::Fail(
            Refusal::UnsupportedVersion(s[0]),
        ),
        s.len() >= 2 && s[0] == 1 && s[1] != 1 && s[1] != 3 && s[1] != 4 ==> request_progress(s)
            == Parsed::<Target, Refusal>::Fail(Refusal::UnknownAddrType(s[1])),
        s.len() >= 5 && s[0] == 1 && s[1] == 3 && s.len() >= 5 + s[4] && !valid_utf8(
            s.subrange(5, 5 + s[4]),
        ) ==> (request_progress(s) matches Parsed::Fail(Refusal::InvalidDomain(_))),
        request_progress(s) matches Parsed::Fail(e) ==> s.len() >= 1 && (s[0] != 1 || s.len() >= 2
            && ((s[1] != 1 && s[1] != 3 && s[1] != 4) || (s[1] == 3 && s.len() >= 5 && s.len() >= 5
            + s[4] && !valid_utf8(s.subrange(5, 5 + s[4]))))),
{
}

/// A reader that waits lacks bytes: it waits only while no target, however it
/// goes on, has its whole header among the bytes that have come.
pub proof fn law_reader_waits_only_for_more(s: Seq<u8>, t: Target, rest: Seq<u8>)
    requires
        encodable(t),
        s == request_bytes(t) + rest,
    ensures
        !(request_progress(s) is Need),
{
    law_request_round_trip(t, rest);
}

/// A response is one byte of zero for success; for an error it is a one, a length
/// and the first bytes of the message, all of it up to 255.
pub proof fn law_response_says_the_outcome(msg: Seq<char>)
    ensures
        response_bytes(Ok(())) == seq![0u8],
        ({
            let bytes = encode_utf8(msg);
            let response = response_bytes(Err(msg));
            &&& response.len() >= 2
            &&& response[0] == 1
            &&& response[1] == response.len() - 2
            &&& response.skip(2) == bytes.take(response.len() - 2)
            &&& response.len() - 2 <= 255
            &&& response.len() - 2 == bytes.len() || response.len() - 2 == 255
            &&& response.len() - 2 <= bytes.len()
        }),
{
    let bytes = encode_utf8(msg);
    let response = response_bytes(Err(msg));
    assert(response.skip(2) =~= bytes.take(response.len() - 2));
}

/// A status other than zero and one is refused as unknown.
pub proof fn law_unknown_status_is_refused(s: Seq<u8>)
    requires
        s.len() > 0,
    ensures
        s[0] != 0 && s[0] != 1 <==> response_progress(s) == Parsed::<(), Refusal>::Fail(
            Refusal::UnknownStatus(s[0]),
        ),
        response_progress(s) is Done <==> s[0] == 0,
{
}

/// Whatever bytes an agent gives for its reason, they are told: as the text that
/// they write, where they are UTF-8; else with what stands for the bytes that are
/// not.
pub proof fn law_any_reason_is_told(bytes: Seq<u8>, rest: Seq<u8>)
    requires
        bytes.len() <= 255,
    ensures
        response_progress(seq![1u8, bytes.len() as u8] + bytes + rest) matches Parsed::Fail(
            Refusal::AgentError(msg),
        ) && (if valid_utf8(bytes) {
            encode_utf8(msg) == bytes
        } else {
            msg == utf8_lossy(bytes)
        }),
{
    let s = seq![1u8, bytes.len() as u8] + bytes + rest;
    assert(s.subrange(2, 2 + s[1]) =~= bytes);
    if valid_utf8(bytes) {
        decode_utf8_encode_utf8(bytes);
    }
}

} // verus!
