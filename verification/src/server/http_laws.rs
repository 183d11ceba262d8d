//! Laws of HTTP CONNECT requests.

use crate::addr_display::{
    groups_display, groups_of, hex, ipv4_display, ipv6_display, is_ipv4_mapped, longest_zeros,
    target_display, zeros_at,
};
use crate::addr_laws::{
    lacks, law_ipv4_is_read_back, law_ipv6_is_read_back, law_port_is_read_back, lemma_decimal,
    lemma_digits_lack, lemma_find_pair, lemma_hex, lemma_ipv4_chars, lemma_no_pair,
};
use crate::addr_text::{digit_value, find_pair, ipv4_text};
use crate::proto::Target;
use crate::server::http_connect::{
    connect_target, find_char, find_last, has_opening, is_blank_line, request_target, Rejection,
};
use crate::server::session::{on_headers, Act, At, Event, Front};
use crate::server::session_laws::run;
use crate::text::decimal;
use vstd::prelude::*;

verus! {

/// The characters of an address.
spec fn is_addr_char(c: char) -> bool {
    digit_value(c) < 16 || c == '.' || c == ':'
}

spec fn addr_chars(s: Seq<char>) -> bool {
    forall|i: int| 0 <= i < s.len() ==> is_addr_char(#[trigger] s[i])
}

proof fn lemma_joined_addr_chars(a: Seq<char>, b: Seq<char>)
    requires
        addr_chars(a),
        addr_chars(b),
    ensures
        addr_chars(a + b),
{
    let s = a + b;
    assert forall|i: int| 0 <= i < s.len() implies is_addr_char(#[trigger] s[i]) by {
        if i < a.len() {
            assert(s[i] == a[i]);
        } else {
            assert(s[i] == b[i - a.len()]);
        }
    }
}

proof fn lemma_groups_chars(g: Seq<u16>)
    ensures
        addr_chars(groups_display(g)),
    decreases g.len(),
{
    if g.len() == 1 {
        lemma_hex(g[0] as nat);
    } else if g.len() > 1 {
        lemma_groups_chars(g.drop_last());
        lemma_hex(g.last() as nat);
        lemma_joined_addr_chars(groups_display(g.drop_last()).push(':'), hex(g.last() as nat));
    }
}

proof fn lemma_ipv6_chars(o: Seq<u8>)
    requires
        o.len() == 16,
    ensures
        addr_chars(ipv6_display(o)),
{
    let g = groups_of(o);
    let z = longest_zeros(g, 7);
    let n = zeros_at(g, z);
    if is_ipv4_mapped(g) {
        reveal_strlit("::ffff:");
        let v4 = ipv4_display(o.subrange(12, 16));
        lemma_ipv4_chars(o.subrange(12, 16));
        assert forall|i: int| 0 <= i < v4.len() implies is_addr_char(#[trigger] v4[i]) by {}
        assert(addr_chars("::ffff:"@));
        lemma_joined_addr_chars("::ffff:"@, v4);
    } else if n > 1 {
        lemma_groups_chars(g.take(z));
        lemma_groups_chars(g.skip(z + n));
        lemma_joined_addr_chars(
            groups_display(g.take(z)).push(':').push(':'),
            groups_display(g.skip(z + n)),
        );
    } else {
        lemma_groups_chars(g);
    }
}

pub(crate) proof fn lemma_find_last(s: Seq<char>, c: char, end: int, k: int)
    requires
        0 <= k < end <= s.len(),
        s[k] == c,
        forall|i: int| k < i < end ==> #[trigger] s[i] != c,
    ensures
        find_last(s, c, end) == Some(k),
    decreases end,
{
    if k < end - 1 {
        assert(s[end - 1] != c);
        lemma_find_last(s, c, end - 1, k);
    }
}

/// Whether a request can name a target by its text: an address always, and a
/// domain unless its text would be read as something else.
pub open spec fn nameable(t: Target) -> bool {
    match t {
        Target::Ipv4(octets, _) => octets.len() == 4,
        Target::Ipv6(octets, _) => octets.len() == 16,
        Target::Domain(host, _) => ipv4_text(host) is None && find_pair(
            host.push(':'),
            ']',
            ':',
            0,
        ) is None,
    }
}

proof fn lemma_no_pair_within(s: Seq<char>, a: char, b: char, from: int)
    requires
        0 <= from,
        find_pair(s, a, b, from) is None,
    ensures
        forall|i: int| from <= i < s.len() - 1 ==> !(#[trigger] s[i] == a && s[i + 1] == b),
    decreases s.len() - from,
{
    if from + 1 < s.len() {
        lemma_no_pair_within(s, a, b, from + 1);
    }
}

proof fn lemma_named_host(host: Seq<char>, port: u16)
    requires
        find_pair(host.push(':'), ']', ':', 0) is None,
    ensures
        ({
            let s = host.push(':') + decimal(port as nat);
            &&& find_pair(s, ']', ':', 0) is None
            &&& find_last(s, ':', s.len() as int) == Some(host.len() as int)
            &&& s.take(host.len() as int) == host
            &&& s.skip(host.len() as int + 1) == decimal(port as nat)
        }),
{
    let named = host.push(':');
    let digits = decimal(port as nat);
    let s = named + digits;
    lemma_decimal(port as nat);
    lemma_digits_lack(digits, 10, ':');
    lemma_no_pair_within(named, ']', ':', 0);
    assert forall|i: int| 0 <= i < s.len() - 1 implies !(#[trigger] s[i] == ']' && s[i + 1]
        == ':') by {
        if i < named.len() - 1 {
            assert(s[i] == named[i] && s[i + 1] == named[i + 1]);
        } else {
            assert(s[i + 1] == digits[i + 1 - named.len()]);
        }
    }
    lemma_no_pair(s, ']', ':', 0);
    assert forall|i: int| host.len() < i < s.len() implies #[trigger] s[i] != ':' by {
        assert(s[i] == digits[i - named.len()]);
    }
    lemma_find_last(s, ':', s.len() as int, host.len() as int);
    assert(s.take(host.len() as int) =~= host);
    assert(s.skip(host.len() as int + 1) =~= digits);
}

/// A target is read from its text, whether it is an IPv4 address, an IPv6
/// address in brackets or a domain.
pub proof fn law_target_is_read_from_its_text(t: Target)
    requires
        nameable(t),
    ensures
        has_opening(target_display(t)),
        connect_target(target_display(t)) == Ok::<Target, Rejection>(t),
{
    match t {
        Target::Ipv4(octets, port) => {
            let host = ipv4_display(octets);
            let named = host.push(':');
            lemma_ipv4_chars(octets);
            assert forall|i: int| 0 <= i < named.len() - 1 implies !(#[trigger] named[i] == ']'
                && named[i + 1] == ':') by {
                assert(named[i] == host[i]);
            }
            lemma_no_pair(named, ']', ':', 0);
            lemma_named_host(host, port);
            law_ipv4_is_read_back(octets);
            law_port_is_read_back(port);
        },
        Target::Ipv6(octets, port) => {
            let host = ipv6_display(octets);
            let digits = decimal(port as nat);
            let s = target_display(t);
            let k = host.len() as int + 1;
            lemma_ipv6_chars(octets);
            assert(s =~= seq!['['] + host + seq![']', ':'] + digits);
            assert forall|i: int| 0 <= i < k implies !(#[trigger] s[i] == ']' && s[i + 1]
                == ':') by {
                if i > 0 {
                    assert(s[i] == host[i - 1]);
                    assert(is_addr_char(host[i - 1]));
                }
            }
            lemma_find_pair(s, ']', ':', 0, k);
            assert(s.subrange(1, k) =~= host);
            assert(s.skip(k + 2) =~= digits);
            law_ipv6_is_read_back(octets);
            law_port_is_read_back(port);
        },
        Target::Domain(host, port) => {
            lemma_named_host(host, port);
            law_port_is_read_back(port);
        },
    }
}

pub(crate) proof fn lemma_find_char(s: Seq<char>, c: char, from: int, k: int)
    requires
        0 <= from <= k < s.len(),
        s[k] == c,
        forall|i: int| from <= i < k ==> #[trigger] s[i] != c,
    ensures
        find_char(s, c, from) == Some(k),
    decreases k - from,
{
    if from < k {
        assert(s[from] != c);
        lemma_find_char(s, c, from + 1, k);
    }
}

/// The request line by which a client asks for a target.
pub open spec fn connect_line(target: Seq<char>, version: Seq<char>) -> Seq<char> {
    seq!['C', 'O', 'N', 'N', 'E', 'C', 'T', ' '] + target + seq![' '] + version
}

/// The target of a CONNECT request is the text between the two spaces, whatever
/// follows it.
pub proof fn law_connect_line_names_target(target: Seq<char>, version: Seq<char>)
    requires
        lacks(target, ' '),
    ensures
        request_target(connect_line(target, version)) == Ok::<Seq<char>, Rejection>(target),
{
    let s = connect_line(target, version);
    lemma_find_char(s, ' ', 0, 7);
    let j = 8 + target.len();
    assert forall|i: int| 8 <= i < j implies #[trigger] s[i] != ' ' by {
        assert(s[i] == target[i - 8]);
    }
    lemma_find_char(s, ' ', 8, j as int);
    assert(s.take(7) =~= seq!['C', 'O', 'N', 'N', 'E', 'C', 'T']);
    assert(s.subrange(8, j as int) =~= target);
}

/// A client that asks for a target over HTTP is understood: once its headers
/// have ended, a provider for that very target is picked.
pub proof fn law_http_request_is_read(t: Target, version: Seq<char>)
    requires
        nameable(t),
        t matches Target::Domain(host, _) ==> lacks(host, ' '),
    ensures
        on_headers(connect_line(target_display(t), version)) == Some((At::Picking(t), Act::Pick)),
{
    let text = target_display(t);
    law_target_is_read_from_its_text(t);
    assert(lacks(text, ' ')) by {
        assert forall|i: int| 0 <= i < text.len() implies #[trigger] text[i] != ' ' by {
            match t {
                Target::Ipv4(octets, port) => {
                    let host = ipv4_display(octets);
                    let digits = decimal(port as nat);
                    lemma_ipv4_chars(octets);
                    lemma_decimal(port as nat);
                    if i < host.len() {
                        assert(text[i] == host[i]);
                    } else if i > host.len() {
                        assert(text[i] == digits[i - host.len() - 1]);
                        assert(digit_value(digits[i - host.len() - 1]) < 10);
                    }
                },
                Target::Ipv6(octets, port) => {
                    let host = ipv6_display(octets);
                    let digits = decimal(port as nat);
                    lemma_ipv6_chars(octets);
                    lemma_decimal(port as nat);
                    assert(text =~= seq!['['] + host + seq![']', ':'] + digits);
                    if 1 <= i < host.len() + 1 {
                        assert(text[i] == host[i - 1]);
                        assert(is_addr_char(host[i - 1]));
                    } else if i >= host.len() + 3 {
                        assert(text[i] == digits[i - host.len() - 3]);
                        assert(digit_value(digits[i - host.len() - 3]) < 10);
                    }
                },
                Target::Domain(host, port) => {
                    let digits = decimal(port as nat);
                    lemma_decimal(port as nat);
                    if i < host.len() {
                        assert(text[i] == host[i]);
                    } else if i > host.len() {
                        assert(text[i] == digits[i - host.len() - 1]);
                        assert(digit_value(digits[i - host.len() - 1]) < 10);
                    }
                },
            }
        }
    }
    law_connect_line_names_target(text, version);
}

/// Whether a session asks its client for bytes.
pub open spec fn takes_from_client(act: Act) -> bool {
    act is Receive || act is ReceiveLine
}

/// Whether a session has read all that it reads of its client's request.
pub open spec fn past_request(at: At) -> bool {
    match at {
        At::Greeting(_) => false,
        At::GreetingReply => false,
        At::Request(_) => false,
        At::RequestLine => false,
        At::Headers(_) => false,
        _ => true,
    }
}

/// An HTTP session reads the request line first, and then the headers.
proof fn lemma_http_stages(events: Seq<Event>)
    ensures
        run(Front::Http, events) matches Some((at, acts)) ==> acts.len() == events.len() + 1 && (
        past_request(at) || at is Headers || (at is RequestLine && events.len() == 0)),
    decreases events.len(),
{
    if events.len() > 0 {
        lemma_http_stages(events.drop_last());
    }
}

/// Once the blank line after its headers has come, an HTTP session asks its
/// client for no byte before it relays: every byte that follows the request is
/// left for the relaying.
pub proof fn law_http_request_leaves_the_payload(events: Seq<Event>, blank: int)
    requires
        run(Front::Http, events) is Some,
        1 <= blank < events.len(),
        events[blank] matches Event::Line(line) && is_blank_line(line@),
    ensures
        past_request((run(Front::Http, events)->0).0),
        forall|j: int|
            blank < j < (run(Front::Http, events)->0).1.len() ==> !takes_from_client(
                #[trigger] (run(Front::Http, events)->0).1[j],
            ),
    decreases events.len(),
{
    let before = events.drop_last();
    let (was, acts_before) = run(Front::Http, before)->0;
    let (at, acts) = run(Front::Http, events)->0;
    lemma_http_stages(before);
    if blank < events.len() - 1 {
        law_http_request_leaves_the_payload(before, blank);
    }
    assert forall|j: int| blank < j < acts.len() implies !takes_from_client(#[trigger] acts[j]) by {
        if j < acts.len() - 1 {
            assert(acts[j] == acts_before[j]);
        } else {
            assert(acts[j] == acts.last());
        }
    }
}

} // verus!
