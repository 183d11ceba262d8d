//! Wire protocol: framing inside the multiplexed streams.
//!
//! Each stream carries one proxied TCP connection.  It starts with a request
//! header:
//!
//! ```text
//! version (1 byte) | address type (1 byte) | port (2 bytes) | address
//! ```
//!
//! An IPv4 address takes 4 bytes and an IPv6 address 16; a domain takes a
//! length byte and that many bytes.  The raw TCP byte stream follows
//! immediately.
//!
//! The agent writes a status before it relays: `0x00` for success, or `0x01`
//! for an error, followed by a length byte and a message.

use crate::buffers::{
    buf_as_slice, buf_put_slice, buf_put_u16, buf_put_u8, buf_with_capacity, string_from_utf8,
    string_from_utf8_lossy, utf8_error_text, utf8_lossy,
};
use bytes::BytesMut;
use vstd::prelude::*;
use vstd::slice::{slice_subrange, slice_to_vec};
use vstd::utf8::{decode_utf8, encode_utf8, valid_utf8};

verus! {

pub const PROTO_VERSION: u8 = 0x01;

pub const ATYP_IPV4: u8 = 0x01;

pub const ATYP_DOMAIN: u8 = 0x03;

pub const ATYP_IPV6: u8 = 0x04;

pub const STATUS_OK: u8 = 0x00;

pub const STATUS_ERR: u8 = 0x01;

/// Target address for a proxied connection.
#[derive(Debug, Clone)]
pub enum ProxyAddr {
    Ipv4([u8; 4], u16),
    Ipv6([u8; 16], u16),
    Domain(String, u16),
}

/// A target address as a mathematical value.
#[verifier::ext_equal]
pub enum Target {
    Ipv4(Seq<u8>, u16),
    Ipv6(Seq<u8>, u16),
    Domain(Seq<char>, u16),
}

impl View for ProxyAddr {
    type V = Target;

    open spec fn view(&self) -> Target {
        match *self {
            ProxyAddr::Ipv4(octets, port) => Target::Ipv4(octets@, port),
            ProxyAddr::Ipv6(octets, port) => Target::Ipv6(octets@, port),
            ProxyAddr::Domain(host, port) => Target::Domain(host@, port),
        }
    }
}

/// Why a request or a response could not be written or read.
#[derive(Debug)]
pub enum ProtoError {
    DomainTooLong(String),
    UnsupportedVersion(u8),
    UnknownAddrType(u8),
    InvalidDomain(String),
    AgentError(String),
    UnknownStatus(u8),
}

/// A [`ProtoError`] as a mathematical value.
#[verifier::ext_equal]
pub enum Refusal {
    DomainTooLong(Seq<char>),
    UnsupportedVersion(u8),
    UnknownAddrType(u8),
    InvalidDomain(Seq<char>),
    AgentError(Seq<char>),
    UnknownStatus(u8),
}

impl View for ProtoError {
    type V = Refusal;

    open spec fn view(&self) -> Refusal {
        match *self {
            ProtoError::DomainTooLong(host) => Refusal::DomainTooLong(host@),
            ProtoError::UnsupportedVersion(v) => Refusal::UnsupportedVersion(v),
            ProtoError::UnknownAddrType(t) => Refusal::UnknownAddrType(t),
            ProtoError::InvalidDomain(e) => Refusal::InvalidDomain(e@),
            ProtoError::AgentError(msg) => Refusal::AgentError(msg@),
            ProtoError::UnknownStatus(s) => Refusal::UnknownStatus(s),
        }
    }
}

/// How far the bytes received so far take a reader.
#[derive(Debug)]
pub enum Progress<T, E> {
    /// The field being read lacks this many bytes.
    Need(usize),
    /// The value, and the number of bytes it took.
    Done(T, usize),
    /// The bytes are refused.
    Fail(E),
}

/// A [`Progress`] over mathematical values.
#[verifier::ext_equal]
pub enum Parsed<T, E> {
    Need(nat),
    Done(T, nat),
    Fail(E),
}

impl<T: View, E: View> View for Progress<T, E> {
    type V = Parsed<T::V, E::V>;

    open spec fn view(&self) -> Parsed<T::V, E::V> {
        match *self {
            Progress::Need(n) => Parsed::Need(n as nat),
            Progress::Done(v, n) => Parsed::Done(v@, n as nat),
            Progress::Fail(e) => Parsed::Fail(e@),
        }
    }
}

/// A big-endian 16-bit number.
pub open spec fn be16(hi: u8, lo: u8) -> u16 {
    (hi * 256 + lo) as u16
}

/// The two bytes of a 16-bit number, the high one first.
pub open spec fn be16_bytes(n: u16) -> Seq<u8> {
    seq![(n / 256) as u8, (n % 256) as u8]
}

/// Whether a request header can name the target: a domain must fit its length
/// byte.
pub open spec fn encodable(t: Target) -> bool {
    match t {
        Target::Ipv4(octets, _) => octets.len() == 4,
        Target::Ipv6(octets, _) => octets.len() == 16,
        Target::Domain(host, _) => encode_utf8(host).len() <= 255,
    }
}

/// The request header for a target.
pub open spec fn request_bytes(t: Target) -> Seq<u8> {
    match t {
        Target::Ipv4(octets, port) => seq![PROTO_VERSION, ATYP_IPV4] + be16_bytes(port) + octets,
        Target::Ipv6(octets, port) => seq![PROTO_VERSION, ATYP_IPV6] + be16_bytes(port) + octets,
        Target::Domain(host, port) => seq![PROTO_VERSION, ATYP_DOMAIN] + be16_bytes(port) + seq![
            encode_utf8(host).len() as u8,
        ] + encode_utf8(host),
    }
}

impl ProxyAddr {
    /// The port, whatever the kind of address.
    pub fn port(&self) -> (res: u16)
        ensures
            res == (match self@ {
                Target::Ipv4(_, p) => p,
                Target::Ipv6(_, p) => p,
                Target::Domain(_, p) => p,
            }),
    {
        match self {
            ProxyAddr::Ipv4(_, p) => *p,
            ProxyAddr::Ipv6(_, p) => *p,
            ProxyAddr::Domain(_, p) => *p,
        }
    }
}

/// Appends the request header for `addr` to what is to be sent.
pub fn write_proxy_request(w: &mut Vec<u8>, addr: &ProxyAddr) -> (res: Result<(), ProtoError>)
    ensures
        res is Ok <==> encodable(addr@),
        res is Ok ==> final(w)@ == old(w)@ + request_bytes(addr@),
        res matches Err(e) ==> final(w)@ == old(w)@ && addr@ is Domain && e@
            == Refusal::DomainTooLong(addr@->Domain_0),
{
    let mut buf: BytesMut = buf_with_capacity(32);
    buf_put_u8(&mut buf, PROTO_VERSION);
    match addr {
        ProxyAddr::Ipv4(octets, port) => {
            buf_put_u8(&mut buf, ATYP_IPV4);
            buf_put_u16(&mut buf, *port);
            buf_put_slice(&mut buf, octets.as_slice());
        },
        ProxyAddr::Ipv6(octets, port) => {
            buf_put_u8(&mut buf, ATYP_IPV6);
            buf_put_u16(&mut buf, *port);
            buf_put_slice(&mut buf, octets.as_slice());
        },
        ProxyAddr::Domain(host, port) => {
            let host_bytes = host.as_str().as_bytes();
            if host_bytes.len() > 255 {
                return Err(ProtoError::DomainTooLong(host.clone()));
            }
            buf_put_u8(&mut buf, ATYP_DOMAIN);
            buf_put_u16(&mut buf, *port);
            buf_put_u8(&mut buf, host_bytes.len() as u8);
            buf_put_slice(&mut buf, host_bytes);
        },
    }
    w.extend_from_slice(buf_as_slice(&buf));
    assert(w@ =~= old(w)@ + request_bytes(addr@));
    Ok(())
}

/// What a reader makes of the bytes of a request header that have arrived.
pub open spec fn request_progress(s: Seq<u8>) -> Parsed<Target, Refusal> {
    if s.len() < 1 {
        Parsed::Need(1)
    } else if s[0] != PROTO_VERSION {
        Parsed::Fail(Refusal::UnsupportedVersion(s[0]))
    } else if s.len() < 2 {
        Parsed::Need(1)
    } else if s[1] != ATYP_IPV4 && s[1] != ATYP_IPV6 && s[1] != ATYP_DOMAIN {
        Parsed::Fail(Refusal::UnknownAddrType(s[1]))
    } else if s.len() < 4 {
        Parsed::Need((4 - s.len()) as nat)
    } else if s[1] == ATYP_IPV4 {
        if s.len() < 8 {
            Parsed::Need((8 - s.len()) as nat)
        } else {
            Parsed::Done(Target::Ipv4(s.subrange(4, 8), be16(s[2], s[3])), 8)
        }
    } else if s[1] == ATYP_IPV6 {
        if s.len() < 20 {
            Parsed::Need((20 - s.len()) as nat)
        } else {
            Parsed::Done(Target::Ipv6(s.subrange(4, 20), be16(s[2], s[3])), 20)
        }
    } else if s.len() < 5 {
        Parsed::Need(1)
    } else if s.len() < 5 + s[4] {
        Parsed::Need((5 + s[4] - s.len()) as nat)
    } else {
        let host = s.subrange(5, 5 + s[4]);
        if valid_utf8(host) {
            Parsed::Done(
                Target::Domain(decode_utf8(host), be16(s[2], s[3])),
                (5 + s[4]) as nat,
            )
        } else {
            Parsed::Fail(Refusal::InvalidDomain(utf8_error_text(host)))
        }
    }
}

/// The 16-bit number at `at`, the high byte first.
pub fn read_u16(s: &[u8], at: usize) -> (res: u16)
    requires
        at + 2 <= s@.len(),
    ensures
        res == be16(s@[at as int], s@[at + 1]),
{
    (s[at] as u16) * 256 + (s[at + 1] as u16)
}

/// The four bytes at `at`.
pub fn read_4(s: &[u8], at: usize) -> (res: [u8; 4])
    requires
        at + 4 <= s@.len(),
    ensures
        res@ == s@.subrange(at as int, at + 4),
{
    let res: [u8; 4] = [s[at], s[at + 1], s[at + 2], s[at + 3]];
    assert(res@ =~= s@.subrange(at as int, at + 4));
    res
}

/// The sixteen bytes at `at`.
pub fn read_16(s: &[u8], at: usize) -> (res: [u8; 16])
    requires
        at + 16 <= s@.len(),
    ensures
        res@ == s@.subrange(at as int, at + 16),
{
    let res: [u8; 16] = [
        s[at],
        s[at + 1],
        s[at + 2],
        s[at + 3],
        s[at + 4],
        s[at + 5],
        s[at + 6],
        s[at + 7],
        s[at + 8],
        s[at + 9],
        s[at + 10],
        s[at + 11],
        s[at + 12],
        s[at + 13],
        s[at + 14],
        s[at + 15],
    ];
    assert(res@ =~= s@.subrange(at as int, at + 16));
    res
}

/// Reads a request header from the bytes that have arrived.  The reader is
/// called again with more bytes for as long as it needs them; it asks for none
/// past the end of the header.
pub fn read_proxy_request(r: &[u8]) -> (res: Progress<ProxyAddr, ProtoError>)
    ensures
        res@ == request_progress(r@),
{
    let len = r.len();
    if len < 1 {
        return Progress::Need(1);
    }
    let version = r[0];
    if version != PROTO_VERSION {
        return Progress::Fail(ProtoError::UnsupportedVersion(version));
    }
    if len < 2 {
        return Progress::Need(1);
    }
    let atyp = r[1];
    if atyp != ATYP_IPV4 && atyp != ATYP_IPV6 && atyp != ATYP_DOMAIN {
        return Progress::Fail(ProtoError::UnknownAddrType(atyp));
    }
    if len < 4 {
        return Progress::Need(4 - len);
    }
    let port = read_u16(r, 2);
    if atyp == ATYP_IPV4 {
        if len < 8 {
            return Progress::Need(8 - len);
        }
        Progress::Done(ProxyAddr::Ipv4(read_4(r, 4), port), 8)
    } else if atyp == ATYP_IPV6 {
        if len < 20 {
            return Progress::Need(20 - len);
        }
        Progress::Done(ProxyAddr::Ipv6(read_16(r, 4), port), 20)
    } else {
        if len < 5 {
            return Progress::Need(1);
        }
        let host_len: usize = r[4] as usize;
        if len < 5 + host_len {
            return Progress::Need(5 + host_len - len);
        }
        match string_from_utf8(slice_to_vec(slice_subrange(r, 5, 5 + host_len))) {
            Ok(host) => Progress::Done(ProxyAddr::Domain(host, port), 5 + host_len),
            Err(e) => Progress::Fail(ProtoError::InvalidDomain(e)),
        }
    }
}

/// The status that answers a request: success, or an error with its message,
/// cut to what the length byte can count.
pub open spec fn response_bytes(result: Result<(), Seq<char>>) -> Seq<u8> {
    match result {
        Ok(()) => seq![STATUS_OK],
        Err(msg) => {
            let bytes = encode_utf8(msg);
            let len = if bytes.len() < 255 { bytes.len() } else { 255 };
            seq![STATUS_ERR, len as u8] + bytes.take(len as int)
        },
    }
}

/// A result with the text of its error as a mathematical value.
pub open spec fn result_view(result: Result<(), String>) -> Result<(), Seq<char>> {
    match result {
        Ok(()) => Ok(()),
        Err(msg) => Err(msg@),
    }
}

/// Appends the agent's response to a request to what is to be sent.
pub fn write_proxy_response(w: &mut Vec<u8>, result: Result<(), String>)
    ensures
        final(w)@ == old(w)@ + response_bytes(result_view(result)),
{
    match result {
        Ok(()) => {
            w.push(STATUS_OK);
            assert(w@ =~= old(w)@ + response_bytes(result_view(result)));
        },
        Err(msg) => {
            let msg_bytes = msg.as_str().as_bytes();
            let len: usize = if msg_bytes.len() < 255 { msg_bytes.len() } else { 255 };
            w.push(STATUS_ERR);
            w.push(len as u8);
            w.extend_from_slice(slice_subrange(msg_bytes, 0, len));
            assert(w@ =~= old(w)@ + response_bytes(result_view(result)));
        },
    }
}

/// The text of a message, with replacement characters where the bytes are not
/// valid UTF-8.
pub open spec fn lossy_text(bytes: Seq<u8>) -> Seq<char> {
    if valid_utf8(bytes) {
        decode_utf8(bytes)
    } else {
        utf8_lossy(bytes)
    }
}

/// What a reader makes of the bytes of a response that have arrived.
pub open spec fn response_progress(s: Seq<u8>) -> Parsed<(), Refusal> {
    if s.len() < 1 {
        Parsed::Need(1)
    } else if s[0] == STATUS_OK {
        Parsed::Done((), 1)
    } else if s[0] == STATUS_ERR {
        if s.len() < 2 {
            Parsed::Need(1)
        } else if s.len() < 2 + s[1] {
            Parsed::Need((2 + s[1] - s.len()) as nat)
        } else {
            Parsed::Fail(Refusal::AgentError(lossy_text(s.subrange(2, 2 + s[1]))))
        }
    } else {
        Parsed::Fail(Refusal::UnknownStatus(s[0]))
    }
}

/// Reads the agent's response to a request from the bytes that have arrived.
/// An error that the agent reports is a failure.
pub fn read_proxy_response(r: &[u8]) -> (res: Progress<(), ProtoError>)
    ensures
        res@ == response_progress(r@),
{
    let have = r.len();
    if have < 1 {
        return Progress::Need(1);
    }
    let status = r[0];
    if status == STATUS_OK {
        Progress::Done((), 1)
    } else if status == STATUS_ERR {
        if have < 2 {
            return Progress::Need(1);
        }
        let len: usize = r[1] as usize;
        if have < 2 + len {
            return Progress::Need(2 + len - have);
        }
        let msg = string_from_utf8_lossy(slice_subrange(r, 2, 2 + len));
        Progress::Fail(ProtoError::AgentError(msg))
    } else {
        Progress::Fail(ProtoError::UnknownStatus(status))
    }
}

/// Provider authentication message, exchanged as JSON before the streams are
/// multiplexed.
#[derive(Debug, Clone)]
pub enum CtrlMsg {
    /// Agent to server: register with a token.
    Register { token: String, geo: Option<String>, label: Option<String> },
    /// Server to agent: registration accepted.
    Registered { provider_id: String },
    /// Server to agent: registration rejected.
    Rejected { reason: String },
}

/// A [`CtrlMsg`] as a mathematical value.
#[verifier::ext_equal]
pub enum Ctrl {
    Register { token: Seq<char>, geo: Option<Seq<char>>, label: Option<Seq<char>> },
    Registered { provider_id: Seq<char> },
    Rejected { reason: Seq<char> },
}

/// An optional text as a mathematical value.
pub open spec fn text_view(t: Option<String>) -> Option<Seq<char>> {
    match t {
        Some(s) => Some(s@),
        None => None,
    }
}

impl View for CtrlMsg {
    type V = Ctrl;

    open spec fn view(&self) -> Ctrl {
        match *self {
            CtrlMsg::Register { token, geo, label } => Ctrl::Register {
                token: token@,
                geo: text_view(geo),
                label: text_view(label),
            },
            CtrlMsg::Registered { provider_id } => Ctrl::Registered { provider_id: provider_id@ },
            CtrlMsg::Rejected { reason } => Ctrl::Rejected { reason: reason@ },
        }
    }
}

} // verus!
