//! What HTTP CONNECT requests say.

use crate::addr_display::{groups_of, ipv4_display};
use crate::addr_grammar::{
    fields_write, join, law_ipv4_is_its_dotted_decimal, law_ipv6_is_what_its_groups_say,
    law_port_is_what_its_digits_say, lemma_found_pair, writes_group, writes_groups,
    writes_ipv6, writes_port, writes_shortened, writes_side,
};
use crate::addr_laws::{lacks, lemma_find_pair, lemma_no_pair};
use crate::addr_text::{find_pair, ipv4_text, ipv6_text, port_text};
use crate::proto::Target;
use crate::server::http_connect::{
    connect_target, find_char, find_last, has_opening, request_target, trim_end, Rejection,
};
use crate::server::http_laws::lemma_find_last;
use crate::text::decimal;
use crate::text_laws::{counts, is_decimal, law_decimal_stands_for_the_number};
use vstd::prelude::*;

verus! {

/// Whether a text names a target at a host, with this text for its port.
pub open spec fn names_host(text: Seq<char>, host: Seq<char>, port: Seq<char>) -> bool {
    text == host.push(':') + port
}

/// Whether a host is the dotted decimal of some IPv4 address.
pub open spec fn is_dotted_decimal(host: Seq<char>) -> bool {
    exists|o: Seq<u8>| o.len() == 4 && host == #[trigger] ipv4_display(o)
}

/// Whether a text, with this text for its port, names a target: an IPv4 address
/// in dotted decimal, an IPv6 address in brackets, or any other host.
pub open spec fn names(text: Seq<char>, t: Target, port: Seq<char>) -> bool {
    match t {
        Target::Ipv4(o, p) => o.len() == 4 && writes_port(port, p) && names_host(
            text,
            ipv4_display(o),
            port,
        ),
        Target::Ipv6(o, p) => writes_port(port, p) && exists|host: Seq<char>|
            #[trigger] writes_ipv6(host, o) && text == seq!['['] + host + seq![']', ':'] + port,
        Target::Domain(host, p) => writes_port(port, p) && names_host(text, host, port) && lacks(
            host,
            ']',
        ) && !is_dotted_decimal(host),
    }
}

proof fn lemma_port_chars(s: Seq<char>, p: u16)
    requires
        writes_port(s, p),
    ensures
        s.len() > 0,
        lacks(s, ':'),
        lacks(s, ']'),
        lacks(s, ' '),
{
    assert forall|i: int| 0 <= i < s.len() implies '0' <= #[trigger] s[i] <= '9' || s[i] == '+' by {
        if !is_decimal(s) && i > 0 {
            assert(s.drop_first()[i - 1] == s[i]);
        }
    }
}

proof fn lemma_joined_lacks(fields: Seq<Seq<char>>, c: char)
    requires
        c != ':',
        forall|i: int| 0 <= i < fields.len() ==> lacks(#[trigger] fields[i], c),
    ensures
        lacks(join(fields, ':'), c),
    decreases fields.len(),
{
    let s = join(fields, ':');
    if fields.len() > 1 {
        let before = fields.drop_last();
        assert forall|i: int| 0 <= i < before.len() implies lacks(#[trigger] before[i], c) by {
            assert(before[i] == fields[i]);
        }
        lemma_joined_lacks(before, c);
        let head = join(before, ':');
        let last = fields[fields.len() - 1];
        assert forall|i: int| 0 <= i < s.len() implies #[trigger] s[i] != c by {
            if i < head.len() {
                assert(s[i] == head[i]);
            } else if i > head.len() {
                assert(s[i] == last[i - head.len() - 1]);
            }
        }
    }
}

proof fn lemma_groups_lack(s: Seq<char>, v4: bool, g: Seq<u16>, c: char)
    requires
        writes_side(s, v4, g),
        counts(c) == -1,
        c != ':',
        c != '.',
    ensures
        lacks(s, c),
{
    if s.len() > 0 {
        let w = choose|w: Seq<Seq<char>>|
            w.len() > 0 && s == #[trigger] join(w, ':') && fields_write(w, v4, g);
        assert forall|i: int| 0 <= i < w.len() implies lacks(#[trigger] w[i], c) by {
            let f = w[i];
            let plain = w.len() == g.len() && forall|j: int|
                0 <= j < g.len() ==> writes_group(#[trigger] w[j], g[j]);
            if plain || i < w.len() - 1 {
                assert(writes_group(f, g[i]));
                assert forall|j: int| 0 <= j < f.len() implies #[trigger] f[j] != c by {
                    assert(0 <= counts(f[j]) < 16);
                }
            } else {
                let o = choose|o: Seq<u8>|
                    o.len() == 4 && w.last() == #[trigger] ipv4_display(o) && g[g.len() - 2] == o[0]
                        * 256 + o[1] && g[g.len() - 1] == o[2] * 256 + o[3];
                law_ipv4_is_its_dotted_decimal(f, o);
            }
        }
        lemma_joined_lacks(w, c);
    }
}

proof fn lemma_ipv6_lacks(host: Seq<char>, o: Seq<u8>, c: char)
    requires
        writes_ipv6(host, o),
        counts(c) == -1,
        c != ':',
        c != '.',
    ensures
        lacks(host, c),
{
    if writes_groups(host, true, groups_of(o)) {
        lemma_groups_lack(host, true, groups_of(o), c);
    } else {
        let (head, tail, before, after) = choose|
            head: Seq<char>,
            tail: Seq<char>,
            before: Seq<u16>,
            after: Seq<u16>,
        |
            writes_shortened(host, o, head, tail, before, after);
        lemma_groups_lack(head, false, before, c);
        lemma_groups_lack(tail, true, after, c);
        assert forall|i: int| 0 <= i < host.len() implies #[trigger] host[i] != c by {
            if i < head.len() {
                assert(host[i] == head[i]);
            } else if i >= head.len() + 2 {
                assert(host[i] == tail[i - head.len() - 2]);
            }
        }
    }
}

proof fn lemma_host_and_port(host: Seq<char>, port: Seq<char>)
    requires
        lacks(host, ']'),
        lacks(port, ':'),
        lacks(port, ']'),
    ensures
        ({
            let s = host.push(':') + port;
            &&& find_pair(s, ']', ':', 0) is None
            &&& find_last(s, ':', s.len() as int) == Some(host.len() as int)
            &&& s.take(host.len() as int) == host
            &&& s.skip(host.len() as int + 1) == port
        }),
{
    let s = host.push(':') + port;
    assert forall|i: int| 0 <= i < s.len() implies #[trigger] s[i] != ']' by {
        if i < host.len() {
            assert(s[i] == host[i]);
        } else if i > host.len() {
            assert(s[i] == port[i - host.len() - 1]);
        }
    }
    lemma_no_pair(s, ']', ':', 0);
    assert forall|i: int| host.len() < i < s.len() implies #[trigger] s[i] != ':' by {
        assert(s[i] == port[i - host.len() - 1]);
    }
    lemma_find_last(s, ':', s.len() as int, host.len() as int);
    assert(s.take(host.len() as int) =~= host);
    assert(s.skip(host.len() as int + 1) =~= port);
}

/// A text that names a target is read as that target.
pub proof fn law_named_target_is_read(text: Seq<char>, t: Target, port: Seq<char>)
    requires
        names(text, t, port),
    ensures
        has_opening(text),
        connect_target(text) == Ok::<Target, Rejection>(t),
{
    match t {
        Target::Ipv4(o, p) => {
            let host = ipv4_display(o);
            lemma_port_chars(port, p);
            law_port_is_what_its_digits_say(port, p);
            law_ipv4_is_its_dotted_decimal(host, o);
            lemma_host_and_port(host, port);
        },
        Target::Ipv6(o, p) => {
            let host = choose|host: Seq<char>|
                #[trigger] writes_ipv6(host, o) && text == seq!['['] + host + seq![']', ':'] + port;
            let k = host.len() as int + 1;
            lemma_port_chars(port, p);
            law_port_is_what_its_digits_say(port, p);
            law_ipv6_is_what_its_groups_say(host, o);
            lemma_ipv6_lacks(host, o, ']');
            assert forall|i: int| 0 <= i < k implies !(#[trigger] text[i] == ']' && text[i + 1]
                == ':') by {
                if i > 0 {
                    assert(text[i] == host[i - 1]);
                }
            }
            lemma_find_pair(text, ']', ':', 0, k);
            assert(text.subrange(1, k) =~= host);
            assert(text.skip(k + 2) =~= port);
        },
        Target::Domain(host, p) => {
            lemma_port_chars(port, p);
            law_port_is_what_its_digits_say(port, p);
            lemma_host_and_port(host, port);
            if ipv4_text(host) is Some {
                let o = ipv4_text(host)->0;
                law_ipv4_is_its_dotted_decimal(host, o);
                assert(host == ipv4_display(o));
            }
        },
    }
}

/// A host that holds a character other than a decimal digit or a dot, and no
/// closing bracket, is read as the domain it is.
pub proof fn law_host_with_a_letter_is_a_domain(host: Seq<char>, port: u16, i: int)
    requires
        lacks(host, ']'),
        0 <= i < host.len(),
        !('0' <= host[i] <= '9'),
        host[i] != '.',
    ensures
        connect_target(host.push(':') + decimal(port as nat)) == Ok::<Target, Rejection>(
            Target::Domain(host, port),
        ),
{
    let digits = decimal(port as nat);
    law_decimal_stands_for_the_number(port as nat);
    if is_dotted_decimal(host) {
        let o = choose|o: Seq<u8>| o.len() == 4 && host == #[trigger] ipv4_display(o);
        law_ipv4_is_its_dotted_decimal(host, o);
        assert(false);
    }
    law_named_target_is_read(host.push(':') + digits, Target::Domain(host, port), digits);
}

proof fn lemma_found_last(s: Seq<char>, c: char, end: int)
    requires
        end <= s.len(),
    ensures
        match find_last(s, c, end) {
            Some(k) => 0 <= k < end && s[k] == c && forall|i: int| k < i < end ==> #[trigger] s[i]
                != c,
            None => forall|i: int| 0 <= i < end ==> #[trigger] s[i] != c,
        },
    decreases end,
{
    if end > 0 && s[end - 1] != c {
        lemma_found_last(s, c, end - 1);
    }
}

/// Whether a text is a front, a separator and a port.
pub open spec fn ends_in_port(s: Seq<char>, port: Seq<char>) -> bool {
    port.len() < s.len() && s[s.len() - port.len() - 1] == ':' && s.skip(s.len() - port.len())
        == port
}

/// Whether a text is some character, an address and a bracket, then a colon and
/// a port.
pub open spec fn is_bracketed(s: Seq<char>, host: Seq<char>, port: Seq<char>) -> bool {
    s.len() > 0 && s == seq![s[0]] + host + seq![']', ':'] + port
}

/// Whether a text writes no port.
pub open spec fn writes_no_port(port: Seq<char>) -> bool {
    forall|p: u16| !writes_port(port, p)
}

/// Whether a text writes no IPv6 address.
pub open spec fn writes_no_ipv6(host: Seq<char>) -> bool {
    forall|o: Seq<u8>| !writes_ipv6(host, o)
}

/// Whether a text names a host, with a port.
pub open spec fn has_host(s: Seq<char>, host: Seq<char>, p: u16) -> bool {
    exists|port: Seq<char>| #[trigger] names_host(s, host, port) && writes_port(port, p)
}

/// Whether a text has an IPv6 address in brackets, with a port.
pub open spec fn has_ipv6(s: Seq<char>, o: Seq<u8>, p: u16) -> bool {
    exists|host: Seq<char>, port: Seq<char>| #[trigger]
        is_bracketed(s, host, port) && writes_ipv6(host, o) && writes_port(port, p)
}

/// Whether a text has a host in brackets.
pub open spec fn has_brackets(s: Seq<char>, host: Seq<char>) -> bool {
    exists|port: Seq<char>| #[trigger] is_bracketed(s, host, port)
}

/// Whether what is read from a text stands in it.
pub open spec fn stands_in_text(s: Seq<char>, read: Result<Target, Rejection>) -> bool {
    match read {
        Ok(Target::Ipv4(o, p)) => o.len() == 4 && has_host(s, ipv4_display(o), p),
        Ok(Target::Ipv6(o, p)) => has_ipv6(s, o, p),
        Ok(Target::Domain(host, p)) => !is_dotted_decimal(host) && has_host(s, host, p),
        Err(Rejection::MissingPort(text)) => text == s && lacks(s, ':'),
        Err(Rejection::InvalidPort(port)) => ends_in_port(s, port) && writes_no_port(port),
        Err(Rejection::InvalidIpv6(host)) => writes_no_ipv6(host) && has_brackets(s, host),
        Err(_) => false,
    }
}

/// What a target is read from, and why a text is refused: an address or a domain
/// comes from a text that has it, with its port; a text without a colon lacks a
/// port; a port or an address that is refused stands in the text, and is none.
pub proof fn law_read_target_stands_in_the_text(s: Seq<char>)
    requires
        has_opening(s),
    ensures
        stands_in_text(s, connect_target(s)),
{
    match find_pair(s, ']', ':', 0) {
        Some(k) => {
            lemma_found_pair(s, ']', ':', 0);
            lemma_bracketed_stands(s, k);
        },
        None => {
            lemma_found_last(s, ':', s.len() as int);
            if let Some(k) = find_last(s, ':', s.len() as int) {
                lemma_unbracketed_stands(s, k);
            }
        },
    }
}

proof fn lemma_ipv4_stands(s: Seq<char>, o: Seq<u8>, port: Seq<char>, p: u16)
    requires
        o.len() == 4,
        names_host(s, ipv4_display(o), port),
        writes_port(port, p),
    ensures
        stands_in_text(s, Ok(Target::Ipv4(o, p))),
{
    assert(has_host(s, ipv4_display(o), p));
}

proof fn lemma_ipv6_stands(s: Seq<char>, host: Seq<char>, o: Seq<u8>, port: Seq<char>, p: u16)
    requires
        is_bracketed(s, host, port),
        writes_ipv6(host, o),
        writes_port(port, p),
    ensures
        stands_in_text(s, Ok(Target::Ipv6(o, p))),
{
    assert(has_ipv6(s, o, p));
}

proof fn lemma_domain_stands(s: Seq<char>, host: Seq<char>, port: Seq<char>, p: u16)
    requires
        names_host(s, host, port),
        writes_port(port, p),
        !is_dotted_decimal(host),
    ensures
        stands_in_text(s, Ok(Target::Domain(host, p))),
{
    assert(has_host(s, host, p));
}

proof fn lemma_bad_ipv6_stands(s: Seq<char>, host: Seq<char>, port: Seq<char>)
    requires
        is_bracketed(s, host, port),
        writes_no_ipv6(host),
    ensures
        stands_in_text(s, Err(Rejection::InvalidIpv6(host))),
{
    assert(has_brackets(s, host));
}

proof fn lemma_bad_port_stands(s: Seq<char>, port: Seq<char>)
    requires
        ends_in_port(s, port),
        writes_no_port(port),
    ensures
        stands_in_text(s, Err(Rejection::InvalidPort(port))),
{
}

proof fn lemma_bracketed_stands(s: Seq<char>, k: int)
    requires
        find_pair(s, ']', ':', 0) == Some(k),
        0 < k < s.len() - 1,
        s[k] == ']',
        s[k + 1] == ':',
    ensures
        stands_in_text(s, connect_target(s)),
{
    let host = s.subrange(1, k);
    let port = s.skip(k + 2);
    assert(s =~= seq![s[0]] + host + seq![']', ':'] + port);
    assert(s.skip(s.len() - port.len()) =~= port);
    match (port_text(port), ipv6_text(host)) {
        (None, _) => {
            lemma_refused_port(port);
            lemma_bad_port_stands(s, port);
        },
        (Some(p), None) => {
            assert forall|o: Seq<u8>| !writes_ipv6(host, o) by {
                law_ipv6_is_what_its_groups_say(host, o);
            }
            lemma_bad_ipv6_stands(s, host, port);
        },
        (Some(p), Some(o)) => {
            law_port_is_what_its_digits_say(port, p);
            law_ipv6_is_what_its_groups_say(host, o);
            lemma_ipv6_stands(s, host, o, port, p);
        },
    }
}

proof fn lemma_unbracketed_stands(s: Seq<char>, k: int)
    requires
        find_pair(s, ']', ':', 0) is None,
        find_last(s, ':', s.len() as int) == Some(k),
        0 <= k < s.len(),
        s[k] == ':',
    ensures
        stands_in_text(s, connect_target(s)),
{
    let host = s.take(k);
    let port = s.skip(k + 1);
    assert(s =~= host.push(':') + port);
    assert(s.skip(s.len() - port.len()) =~= port);
    match (port_text(port), ipv4_text(host)) {
        (None, _) => {
            lemma_refused_port(port);
            lemma_bad_port_stands(s, port);
        },
        (Some(p), None) => {
            law_port_is_what_its_digits_say(port, p);
            if is_dotted_decimal(host) {
                let o = choose|o: Seq<u8>| o.len() == 4 && host == #[trigger] ipv4_display(o);
                law_ipv4_is_its_dotted_decimal(host, o);
            }
            lemma_domain_stands(s, host, port, p);
        },
        (Some(p), Some(o)) => {
            law_port_is_what_its_digits_say(port, p);
            law_ipv4_is_its_dotted_decimal(host, o);
            lemma_ipv4_stands(s, o, port, p);
        },
    }
}

proof fn lemma_refused_port(port: Seq<char>)
    ensures
        port_text(port) is None ==> writes_no_port(port),
{
    assert forall|p: u16| writes_port(port, p) implies port_text(port) is Some by {
        law_port_is_what_its_digits_say(port, p);
    }
}

proof fn lemma_found_char(s: Seq<char>, c: char, from: int)
    requires
        0 <= from,
    ensures
        match find_char(s, c, from) {
            Some(k) => from <= k < s.len() && s[k] == c && forall|i: int|
                from <= i < k ==> #[trigger] s[i] != c,
            None => forall|i: int| from <= i < s.len() ==> #[trigger] s[i] != c,
        },
    decreases s.len() - from,
{
    if from < s.len() && s[from] != c {
        lemma_found_char(s, c, from + 1);
    }
}

/// A request line is a method, a target and the rest, with a space after the
/// method and one after the target, neither of which holds a space.
pub open spec fn is_request(
    line: Seq<char>,
    method: Seq<char>,
    target: Seq<char>,
    rest: Seq<char>,
) -> bool {
    line == method.push(' ') + target.push(' ') + rest && lacks(method, ' ') && lacks(target, ' ')
}

/// Whether a method is `CONNECT`.
pub open spec fn says_connect(method: Seq<char>) -> bool {
    method == seq!['C', 'O', 'N', 'N', 'E', 'C', 'T']
}

/// Whether a line holds no two spaces.
pub open spec fn lacks_two_spaces(line: Seq<char>) -> bool {
    forall|i: int, j: int|
        0 <= i < j < line.len() ==> !(#[trigger] line[i] == ' ' && #[trigger] line[j] == ' ')
}

/// Whether a request line says what is read from it.
pub open spec fn line_says(line: Seq<char>, read: Result<Seq<char>, Rejection>) -> bool {
    match read {
        Ok(target) => exists|method: Seq<char>, rest: Seq<char>|
            #[trigger] is_request(line, method, target, rest) && says_connect(method),
        Err(Rejection::UnsupportedMethod(method)) => !says_connect(method) && exists|
            target: Seq<char>,
            rest: Seq<char>,
        |
            #[trigger] is_request(line, method, target, rest),
        Err(Rejection::MalformedRequest) => lacks_two_spaces(line),
        Err(_) => false,
    }
}

/// A request line whose method is `CONNECT` gives its target; with another method
/// it is refused for that method; and a line without two spaces is malformed.
pub proof fn law_request_line_is_understood(line: Seq<char>)
    ensures
        line_says(line, request_target(line)),
{
    lemma_found_char(line, ' ', 0);
    if let Some(i) = find_char(line, ' ', 0) {
        lemma_found_char(line, ' ', i + 1);
        if let Some(j) = find_char(line, ' ', i + 1) {
            let method = line.take(i);
            let target = line.subrange(i + 1, j);
            let rest = line.skip(j + 1);
            assert(line =~= method.push(' ') + target.push(' ') + rest);
            assert forall|k: int| 0 <= k < method.len() implies #[trigger] method[k] != ' ' by {
                assert(method[k] == line[k]);
            }
            assert forall|k: int| 0 <= k < target.len() implies #[trigger] target[k] != ' ' by {
                assert(target[k] == line[i + 1 + k]);
            }
            assert(is_request(line, method, target, rest));
            if says_connect(method) {
                let read = request_target(line);
                assert(read is Ok && read->Ok_0 == target);
                assert(is_request(line, method, read->Ok_0, rest));
                assert(line_says(line, read));
            } else {
                let read = request_target(line);
                assert(read is Err && read->Err_0 == Rejection::UnsupportedMethod(method));
                assert(is_request(line, read->Err_0->UnsupportedMethod_0, target, rest));
                assert(line_says(line, read));
            }
        } else {
            assert forall|a: int, b: int| 0 <= a < b < line.len() implies !(#[trigger] line[a]
                == ' ' && #[trigger] line[b] == ' ') by {
                if a > i {
                    assert(line[a] != ' ');
                } else {
                    assert(a < i ==> line[a] != ' ');
                    assert(b > i ==> line[b] != ' ');
                }
            }
            assert(lacks_two_spaces(line));
            assert(request_target(line) == Err::<Seq<char>, Rejection>(
                Rejection::MalformedRequest,
            ));
            assert(line_says(line, request_target(line)));
        }
    }
}

/// Whether a character is neither white space nor a control character, as far as
/// its place among the characters says so.
pub open spec fn is_visible(c: char) -> bool {
    '!' <= c <= '~' || '\u{a1}' <= c <= '\u{167f}' || c > '\u{3000}'
}

/// Trimming takes the line break, and spaces and tabs, off the end of a line, and
/// nothing visible.
pub proof fn law_trimming_keeps_what_is_visible(line: Seq<char>, ending: Seq<char>)
    requires
        line.len() > 0 ==> is_visible(line.last()),
        forall|i: int|
            0 <= i < ending.len() ==> #[trigger] ending[i] == ' ' || ending[i] == '\t' || ending[i]
                == '\r' || ending[i] == '\n',
    ensures
        trim_end(line + ending) == line,
    decreases ending.len(),
{
    let s = line + ending;
    if ending.len() == 0 {
        assert(s =~= line);
    } else {
        let fewer = ending.drop_last();
        assert forall|i: int| 0 <= i < fewer.len() implies #[trigger] fewer[i] == ' ' || fewer[i]
            == '\t' || fewer[i] == '\r' || fewer[i] == '\n' by {
            assert(fewer[i] == ending[i]);
        }
        law_trimming_keeps_what_is_visible(line, fewer);
        assert(s.drop_last() =~= line + fewer);
        assert(s.last() == ending[ending.len() - 1]);
    }
}

/// A target without a closing bracket, or with an opening one at its start, can
/// be read, whatever else it holds.
pub proof fn law_ordinary_target_can_be_read(s: Seq<char>)
    requires
        lacks(s, ']') || s.len() > 0 && s[0] == '[',
    ensures
        has_opening(s),
{
    lemma_found_pair(s, ']', ':', 0);
}

/// Whether a character is white space, by its code point.
pub open spec fn is_blank(c: char) -> bool {
    let n = c as int;
    ||| 0x9 <= n <= 0xd || n == 0x20 || n == 0x85 || n == 0xa0 || n == 0x1680
    ||| 0x2000 <= n <= 0x200a || n == 0x2028 || n == 0x2029 || n == 0x202f || n == 0x205f
    ||| n == 0x3000
}

/// Trimming takes the white space from the end of a line, all of it, and nothing
/// else.
pub proof fn law_trimming_takes_white_space(line: Seq<char>)
    ensures
        ({
            let kept = trim_end(line);
            &&& kept.len() <= line.len()
            &&& kept == line.take(kept.len() as int)
            &&& kept.len() > 0 ==> !is_blank(kept.last())
            &&& forall|i: int| kept.len() <= i < line.len() ==> is_blank(#[trigger] line[i])
        }),
    decreases line.len(),
{
    if line.len() > 0 && is_blank(line.last()) {
        let fewer = line.drop_last();
        law_trimming_takes_white_space(fewer);
        let kept = trim_end(fewer);
        assert(kept =~= line.take(kept.len() as int));
        assert forall|i: int| kept.len() <= i < line.len() implies is_blank(
            #[trigger] line[i],
        ) by {
            if i < fewer.len() {
                assert(fewer[i] == line[i]);
            }
        }
    } else {
        assert(line =~= line.take(line.len() as int));
    }
}

} // verus!
