//! HTTP CONNECT requests (RFC 7231, section 4.3.6).

use crate::addr_text::{
    find_pair, find_side_by_side, ipv4_text, ipv6_text, parse_ipv4, parse_ipv6, parse_port, part,
    port_text,
};
use crate::proto::{ProxyAddr, Target};
use crate::text::chars_of;
use vstd::prelude::*;
use vstd::string::StrSliceExecFns;

verus! {

/// Why an HTTP client is turned away.
#[derive(Debug)]
pub enum ConnectError {
    /// The request line lacks one of its three parts.
    MalformedRequest,
    /// The method is not `CONNECT`.
    UnsupportedMethod(String),
    /// What follows the colon is no port.
    InvalidPort(String),
    /// What stands in brackets is no IPv6 address.
    InvalidIpv6(String),
    /// The target has no port.
    MissingPort(String),
}

/// A [`ConnectError`] as a mathematical value.
#[verifier::ext_equal]
pub enum Rejection {
    MalformedRequest,
    UnsupportedMethod(Seq<char>),
    InvalidPort(Seq<char>),
    InvalidIpv6(Seq<char>),
    MissingPort(Seq<char>),
}

impl View for ConnectError {
    type V = Rejection;

    open spec fn view(&self) -> Rejection {
        match *self {
            ConnectError::MalformedRequest => Rejection::MalformedRequest,
            ConnectError::UnsupportedMethod(m) => Rejection::UnsupportedMethod(m@),
            ConnectError::InvalidPort(p) => Rejection::InvalidPort(p@),
            ConnectError::InvalidIpv6(h) => Rejection::InvalidIpv6(h@),
            ConnectError::MissingPort(t) => Rejection::MissingPort(t@),
        }
    }
}

/// The characters with the Unicode property White_Space.
pub open spec fn is_white_space(c: char) -> bool {
    ||| '\u{9}' <= c <= '\u{d}'
    ||| c == '\u{20}'
    ||| c == '\u{85}'
    ||| c == '\u{a0}'
    ||| c == '\u{1680}'
    ||| '\u{2000}' <= c <= '\u{200a}'
    ||| c == '\u{2028}'
    ||| c == '\u{2029}'
    ||| c == '\u{202f}'
    ||| c == '\u{205f}'
    ||| c == '\u{3000}'
}

/// A text without the white space at its end.
pub open spec fn trim_end(s: Seq<char>) -> Seq<char>
    decreases s.len(),
{
    if s.len() > 0 && is_white_space(s.last()) {
        trim_end(s.drop_last())
    } else {
        s
    }
}

/// Whether a character is white space.
pub fn white_space(c: char) -> (res: bool)
    ensures
        res == is_white_space(c),
{
    ('\u{9}' <= c && c <= '\u{d}') || c == '\u{20}' || c == '\u{85}' || c == '\u{a0}' || c
        == '\u{1680}' || ('\u{2000}' <= c && c <= '\u{200a}') || c == '\u{2028}' || c == '\u{2029}'
        || c == '\u{202f}' || c == '\u{205f}' || c == '\u{3000}'
}

/// Drops the white space at the end of a line.
pub fn trim_line(line: &str) -> (res: String)
    ensures
        res@ == trim_end(line@),
{
    let chars = chars_of(line);
    let mut end: usize = chars.len();
    assert(chars@.take(end as int) =~= chars@);
    while end > 0 && white_space(chars[end - 1])
        invariant
            chars@ == line@,
            end <= chars@.len(),
            trim_end(line@) == trim_end(chars@.take(end as int)),
        decreases end,
    {
        assert(chars@.take(end as int).drop_last() =~= chars@.take(end - 1));
        end = end - 1;
    }
    let ghost kept = chars@.take(end as int);
    assert(kept.len() > 0 ==> kept.last() == chars@[end - 1]);
    let res = line.substring_char(0, end).to_owned();
    assert(res@ =~= kept);
    res
}

/// The line that ends the headers: empty but for its line break, or nothing at
/// all where the client has stopped sending.
pub open spec fn is_blank_line(line: Seq<char>) -> bool {
    line == seq!['\r', '\n'] || line == seq!['\n'] || line.len() == 0
}

/// Whether a line ends the headers.
pub fn ends_headers(line: &str) -> (res: bool)
    ensures
        res == is_blank_line(line@),
{
    let chars = chars_of(line);
    let crlf = chars.len() == 2 && chars[0] == '\r' && chars[1] == '\n';
    let lf = chars.len() == 1 && chars[0] == '\n';
    assert(crlf == (line@ =~= seq!['\r', '\n']));
    assert(lf == (line@ =~= seq!['\n']));
    crlf || lf || chars.len() == 0
}

/// The first place from `from` on where the character stands.
pub open spec fn find_char(s: Seq<char>, c: char, from: int) -> Option<int>
    decreases s.len() - from,
{
    if from >= s.len() {
        None
    } else if s[from] == c {
        Some(from)
    } else {
        find_char(s, c, from + 1)
    }
}

/// The method and the target of a request line, which a space each sets off
/// from what follows.
pub open spec fn request_parts(line: Seq<char>) -> Option<(Seq<char>, Seq<char>)> {
    match find_char(line, ' ', 0) {
        None => None,
        Some(i) => match find_char(line, ' ', i + 1) {
            None => None,
            Some(j) => Some((line.take(i), line.subrange(i + 1, j))),
        },
    }
}

/// The target of a request line.
pub open spec fn request_target(line: Seq<char>) -> Result<Seq<char>, Rejection> {
    match request_parts(line) {
        None => Err(Rejection::MalformedRequest),
        Some((method, target)) => if method == seq!['C', 'O', 'N', 'N', 'E', 'C', 'T'] {
            Ok(target)
        } else {
            Err(Rejection::UnsupportedMethod(method))
        },
    }
}

/// Finds a character, from `from` on.
pub fn find_from(s: &Vec<char>, c: char, from: usize) -> (res: Option<usize>)
    requires
        from <= s@.len(),
    ensures
        match res {
            Some(i) => find_char(s@, c, from as int) == Some(i as int),
            None => find_char(s@, c, from as int) is None,
        },
        res matches Some(i) ==> from <= i < s@.len(),
{
    let mut i: usize = from;
    while i < s.len()
        invariant
            from <= i <= s@.len(),
            find_char(s@, c, from as int) == find_char(s@, c, i as int),
        decreases s@.len() - i,
    {
        if s[i] == c {
            return Some(i);
        }
        i = i + 1;
    }
    None
}

/// Whether the text is `CONNECT`.
pub fn is_connect(s: &Vec<char>) -> (res: bool)
    ensures
        res == (s@ == seq!['C', 'O', 'N', 'N', 'E', 'C', 'T']),
{
    let res = s.len() == 7 && s[0] == 'C' && s[1] == 'O' && s[2] == 'N' && s[3] == 'N' && s[4]
        == 'E' && s[5] == 'C' && s[6] == 'T';
    assert(res == (s@ =~= seq!['C', 'O', 'N', 'N', 'E', 'C', 'T']));
    res
}

/// Reads the target from a request line.
pub fn read_request_line(line: &str) -> (res: Result<String, ConnectError>)
    ensures
        match res {
            Ok(target) => request_target(line@) == Ok::<Seq<char>, Rejection>(target@),
            Err(e) => request_target(line@) == Err::<Seq<char>, Rejection>(e@),
        },
{
    let chars = chars_of(line);
    assert(chars@.len() == chars.len());
    match find_from(&chars, ' ', 0) {
        None => Err(ConnectError::MalformedRequest),
        Some(i) => match find_from(&chars, ' ', i + 1) {
            None => Err(ConnectError::MalformedRequest),
            Some(j) => {
                let method = part(&chars, 0, i);
                assert(method@ =~= line@.take(i as int));
                assert(line@.subrange(0, i as int) =~= line@.take(i as int));
                if is_connect(&method) {
                    Ok(line.substring_char(i + 1, j).to_owned())
                } else {
                    Err(ConnectError::UnsupportedMethod(line.substring_char(0, i).to_owned()))
                }
            },
        },
    }
}

/// The last place before `end` where the character stands.
pub open spec fn find_last(s: Seq<char>, c: char, end: int) -> Option<int>
    decreases end,
{
    if end <= 0 {
        None
    } else if s[end - 1] == c {
        Some(end - 1)
    } else {
        find_last(s, c, end - 1)
    }
}

/// Whether a target with a bracket and a colon in it has exactly one byte in
/// front of its address, and so an address to read.
pub open spec fn has_opening(s: Seq<char>) -> bool {
    find_pair(s, ']', ':', 0) matches Some(k) ==> k > 0 && s[0] <= '\u{7f}'
}

/// The target that a text stands for: an IPv6 address in brackets, an IPv4
/// address or a domain, then a colon and a port.
pub open spec fn connect_target(s: Seq<char>) -> Result<Target, Rejection> {
    match find_pair(s, ']', ':', 0) {
        Some(k) => {
            let host = s.subrange(1, k);
            let port = s.skip(k + 2);
            if port_text(port) is None {
                Err(Rejection::InvalidPort(port))
            } else if ipv6_text(host) is None {
                Err(Rejection::InvalidIpv6(host))
            } else {
                Ok(Target::Ipv6(ipv6_text(host)->0, port_text(port)->0))
            }
        },
        None => match find_last(s, ':', s.len() as int) {
            None => Err(Rejection::MissingPort(s)),
            Some(k) => {
                let host = s.take(k);
                let port = s.skip(k + 1);
                if port_text(port) is None {
                    Err(Rejection::InvalidPort(port))
                } else if ipv4_text(host) is Some {
                    Ok(Target::Ipv4(ipv4_text(host)->0, port_text(port)->0))
                } else {
                    Ok(Target::Domain(host, port_text(port)->0))
                }
            },
        },
    }
}

/// Finds the last place where a character stands.
pub fn find_from_end(s: &Vec<char>, c: char) -> (res: Option<usize>)
    ensures
        match res {
            Some(i) => find_last(s@, c, s@.len() as int) == Some(i as int),
            None => find_last(s@, c, s@.len() as int) is None,
        },
        res matches Some(i) ==> i < s@.len(),
{
    let mut end: usize = s.len();
    while end > 0
        invariant
            end <= s@.len(),
            find_last(s@, c, s@.len() as int) == find_last(s@, c, end as int),
        decreases end,
    {
        if s[end - 1] == c {
            return Some(end - 1);
        }
        end = end - 1;
    }
    None
}

/// Whether a target can be read at all; see [`has_opening`].
pub fn target_has_opening(s: &str) -> (res: bool)
    ensures
        res == has_opening(s@),
{
    let chars = chars_of(s);
    match find_side_by_side(&chars, ']', ':') {
        Some(k) => k > 0 && chars[0] <= '\u{7f}',
        None => true,
    }
}

/// Reads the target of a CONNECT request.
pub fn parse_connect_target(s: &str) -> (res: Result<ProxyAddr, ConnectError>)
    requires
        has_opening(s@),
    ensures
        match res {
            Ok(addr) => connect_target(s@) == Ok::<Target, Rejection>(addr@),
            Err(e) => connect_target(s@) == Err::<Target, Rejection>(e@),
        },
{
    let chars = chars_of(s);
    let end = chars.len();
    match find_side_by_side(&chars, ']', ':') {
        Some(k) => {
            let host = part(&chars, 1, k);
            let port_chars = part(&chars, k + 2, end);
            assert(port_chars@ =~= s@.skip(k + 2));
            match parse_port(&port_chars) {
                None => Err(ConnectError::InvalidPort(s.substring_char(k + 2, end).to_owned())),
                Some(port) => match parse_ipv6(&host) {
                    None => Err(ConnectError::InvalidIpv6(s.substring_char(1, k).to_owned())),
                    Some(octets) => Ok(ProxyAddr::Ipv6(octets, port)),
                },
            }
        },
        None => match find_from_end(&chars, ':') {
            None => Err(ConnectError::MissingPort(s.to_owned())),
            Some(k) => {
                let host = part(&chars, 0, k);
                let port_chars = part(&chars, k + 1, end);
                assert(host@ =~= s@.take(k as int));
                assert(port_chars@ =~= s@.skip(k + 1));
                match parse_port(&port_chars) {
                    None => Err(ConnectError::InvalidPort(s.substring_char(k + 1, end).to_owned())),
                    Some(port) => match parse_ipv4(&host) {
                        Some(octets) => Ok(ProxyAddr::Ipv4(octets, port)),
                        None => Ok(ProxyAddr::Domain(s.substring_char(0, k).to_owned(), port)),
                    },
                }
            },
        },
    }
}

} // verus!
