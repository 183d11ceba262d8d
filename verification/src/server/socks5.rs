//! SOCKS5 requests (RFC 1928: no authentication, TCP CONNECT only).

use crate::buffers::string_from_utf8;
use crate::proto::{
    be16, read_16, read_4, read_u16, Parsed, Progress, ProxyAddr, Target,
};
use vstd::prelude::*;
use vstd::slice::{slice_subrange, slice_to_vec};
use vstd::utf8::{decode_utf8, valid_utf8};

verus! {

pub const SOCKS5_VERSION: u8 = 0x05;

pub const NO_AUTH: u8 = 0x00;

pub const CMD_CONNECT: u8 = 0x01;

pub const ATYP_IPV4: u8 = 0x01;

pub const ATYP_DOMAIN: u8 = 0x03;

pub const ATYP_IPV6: u8 = 0x04;

pub const REP_SUCCESS: u8 = 0x00;

pub const REP_GENERAL_FAILURE: u8 = 0x01;

pub const REP_CMD_NOT_SUPPORTED: u8 = 0x07;

/// Why a SOCKS5 client is turned away.
#[derive(Debug, Clone, Copy, PartialEq, Eq, Structural)]
pub enum Socks5Error {
    /// The greeting is for another version.
    UnsupportedVersion(u8),
    /// The request is for another version.
    BadVersion(u8),
    /// The request is for something other than a TCP connection.
    UnsupportedCommand(u8),
    /// The request names an address of an unknown type.
    UnsupportedAtyp(u8),
    /// The request names a domain that is not text.
    InvalidDomain,
}

impl View for Socks5Error {
    type V = Socks5Error;

    open spec fn view(&self) -> Socks5Error {
        *self
    }
}

impl Socks5Error {
    /// The reply code that the client is sent, if any, before the connection
    /// is closed.
    pub open spec fn reply_code(self) -> Option<u8> {
        match self {
            Socks5Error::UnsupportedCommand(_) => Some(REP_CMD_NOT_SUPPORTED),
            Socks5Error::UnsupportedAtyp(_) => Some(REP_GENERAL_FAILURE),
            _ => None,
        }
    }

    /// The reply code for a client that is turned away.
    pub fn code(&self) -> (res: Option<u8>)
        ensures
            res == self.reply_code(),
    {
        match self {
            Socks5Error::UnsupportedCommand(_) => Some(REP_CMD_NOT_SUPPORTED),
            Socks5Error::UnsupportedAtyp(_) => Some(REP_GENERAL_FAILURE),
            _ => None,
        }
    }
}

/// What a reader makes of the bytes of a greeting that have arrived.
pub open spec fn greeting_progress(s: Seq<u8>) -> Parsed<(), Socks5Error> {
    if s.len() < 1 {
        Parsed::Need(1)
    } else if s[0] != SOCKS5_VERSION {
        Parsed::Fail(Socks5Error::UnsupportedVersion(s[0]))
    } else if s.len() < 2 {
        Parsed::Need(1)
    } else if s.len() < 2 + s[1] {
        Parsed::Need((2 + s[1] - s.len()) as nat)
    } else {
        Parsed::Done((), (2 + s[1]) as nat)
    }
}

/// Reads a greeting: the version and the methods that the client offers.
pub fn read_greeting(r: &[u8]) -> (res: Progress<(), Socks5Error>)
    ensures
        res@ == greeting_progress(r@),
{
    let have = r.len();
    if have < 1 {
        return Progress::Need(1);
    }
    let version = r[0];
    if version != SOCKS5_VERSION {
        return Progress::Fail(Socks5Error::UnsupportedVersion(version));
    }
    if have < 2 {
        return Progress::Need(1);
    }
    let nmethods: usize = r[1] as usize;
    if have < 2 + nmethods {
        return Progress::Need(2 + nmethods - have);
    }
    Progress::Done((), 2 + nmethods)
}

/// What a target of a fixed size is, once its `n` octets and its port have
/// arrived at `at`; before that, how many bytes complete the octets or the
/// port.
pub open spec fn fixed_progress(s: Seq<u8>, at: int, n: int) -> Parsed<
    (Seq<u8>, u16),
    Socks5Error,
> {
    if s.len() < at + n {
        Parsed::Need((at + n - s.len()) as nat)
    } else if s.len() < at + n + 2 {
        Parsed::Need((at + n + 2 - s.len()) as nat)
    } else {
        Parsed::Done(
            (s.subrange(at, at + n), be16(s[at + n], s[at + n + 1])),
            (at + n + 2) as nat,
        )
    }
}

/// What a reader makes of the bytes of a request that have arrived.
pub open spec fn connect_progress(s: Seq<u8>) -> Parsed<Target, Socks5Error> {
    if s.len() < 4 {
        Parsed::Need((4 - s.len()) as nat)
    } else if s[0] != SOCKS5_VERSION {
        Parsed::Fail(Socks5Error::BadVersion(s[0]))
    } else if s[1] != CMD_CONNECT {
        Parsed::Fail(Socks5Error::UnsupportedCommand(s[1]))
    } else if s[3] == ATYP_IPV4 {
        match fixed_progress(s, 4, 4) {
            Parsed::Need(n) => Parsed::Need(n),
            Parsed::Done((octets, port), n) => Parsed::Done(Target::Ipv4(octets, port), n),
            Parsed::Fail(e) => Parsed::Fail(e),
        }
    } else if s[3] == ATYP_IPV6 {
        match fixed_progress(s, 4, 16) {
            Parsed::Need(n) => Parsed::Need(n),
            Parsed::Done((octets, port), n) => Parsed::Done(Target::Ipv6(octets, port), n),
            Parsed::Fail(e) => Parsed::Fail(e),
        }
    } else if s[3] == ATYP_DOMAIN {
        if s.len() < 5 {
            Parsed::Need(1)
        } else {
            let len = s[4] as int;
            if s.len() < 5 + len {
                Parsed::Need((5 + len - s.len()) as nat)
            } else if s.len() < 7 + len {
                Parsed::Need((7 + len - s.len()) as nat)
            } else {
                let host = s.subrange(5, 5 + len);
                if valid_utf8(host) {
                    Parsed::Done(
                        Target::Domain(decode_utf8(host), be16(s[5 + len], s[6 + len])),
                        (7 + len) as nat,
                    )
                } else {
                    Parsed::Fail(Socks5Error::InvalidDomain)
                }
            }
        }
    } else {
        Parsed::Fail(Socks5Error::UnsupportedAtyp(s[3]))
    }
}

/// Reads a request.
pub fn read_connect(r: &[u8]) -> (res: Progress<ProxyAddr, Socks5Error>)
    ensures
        res@ == connect_progress(r@),
{
    let have = r.len();
    if have < 4 {
        return Progress::Need(4 - have);
    }
    let version = r[0];
    let cmd = r[1];
    let atyp = r[3];
    if version != SOCKS5_VERSION {
        return Progress::Fail(Socks5Error::BadVersion(version));
    }
    if cmd != CMD_CONNECT {
        return Progress::Fail(Socks5Error::UnsupportedCommand(cmd));
    }
    if atyp == ATYP_IPV4 {
        if have < 8 {
            return Progress::Need(8 - have);
        }
        if have < 10 {
            return Progress::Need(10 - have);
        }
        Progress::Done(ProxyAddr::Ipv4(read_4(r, 4), read_u16(r, 8)), 10)
    } else if atyp == ATYP_IPV6 {
        if have < 20 {
            return Progress::Need(20 - have);
        }
        if have < 22 {
            return Progress::Need(22 - have);
        }
        Progress::Done(ProxyAddr::Ipv6(read_16(r, 4), read_u16(r, 20)), 22)
    } else if atyp == ATYP_DOMAIN {
        if have < 5 {
            return Progress::Need(1);
        }
        let len: usize = r[4] as usize;
        if have < 5 + len {
            return Progress::Need(5 + len - have);
        }
        if have < 7 + len {
            return Progress::Need(7 + len - have);
        }
        let port = read_u16(r, 5 + len);
        match string_from_utf8(slice_to_vec(slice_subrange(r, 5, 5 + len))) {
            Ok(host) => Progress::Done(ProxyAddr::Domain(host, port), 7 + len),
            Err(_) => Progress::Fail(Socks5Error::InvalidDomain),
        }
    } else {
        Progress::Fail(Socks5Error::UnsupportedAtyp(atyp))
    }
}

/// A reply: the code, and an address of zeros.
pub open spec fn reply_bytes(rep: u8) -> Seq<u8> {
    seq![SOCKS5_VERSION, rep, 0, ATYP_IPV4, 0, 0, 0, 0, 0, 0]
}

/// Appends a reply to what is to be sent.
pub fn send_socks5_reply(w: &mut Vec<u8>, rep: u8)
    ensures
        final(w)@ == old(w)@ + reply_bytes(rep),
{
    let reply: [u8; 10] = [SOCKS5_VERSION, rep, 0, ATYP_IPV4, 0, 0, 0, 0, 0, 0];
    w.extend_from_slice(reply.as_slice());
    assert(w@ =~= old(w)@ + reply_bytes(rep));
}

} // verus!
