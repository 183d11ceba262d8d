//! Laws of the way to a target's socket addresses.

use crate::addr_laws::law_port_is_read_back;
use crate::addr_text::port_text;
use crate::proto::{ProxyAddr, Target};
use crate::resolve::{route, Resolution, Route};
use crate::text::decimal;
use crate::text_laws::{is_decimal, law_decimal_stands_for_the_number, positional};
use vstd::prelude::*;

verus! {

/// The query for a domain is the host, a colon and the port: it reads back as
/// the host and the port that were asked for.
pub proof fn law_query_names_host_and_port(host: Seq<char>, port: u16)
    ensures
        ({
            let n = host.len() as int;
            &&& route(Target::Domain(host, port)) matches Route::Lookup(q)
            &&& q.len() > n + 1
            &&& q.take(n) == host
            &&& q[n] == ':'
            &&& port_text(q.skip(n + 1)) == Some(port)
            &&& is_decimal(q.skip(n + 1))
            &&& positional(q.skip(n + 1), 10) == port
        }),
{
    let q = host.push(':') + decimal(port as nat);
    law_port_is_read_back(port);
    law_decimal_stands_for_the_number(port as nat);
    assert(q.take(host.len() as int) =~= host);
    assert(q.skip(host.len() as int + 1) =~= decimal(port as nat));
}

/// The way to an address is that address itself, octet by octet, with the port
/// that was asked for; the way to a domain is a lookup.
pub proof fn law_addresses_stand_for_themselves(addr: ProxyAddr, way: Resolution)
    requires
        way@ == route(addr@),
    ensures
        addr matches ProxyAddr::Ipv4(o, p) ==> (way matches Resolution::Ipv4(w, q) && w@ == o@ && q
            == p),
        addr matches ProxyAddr::Ipv6(o, p) ==> (way matches Resolution::Ipv6(w, q) && w@ == o@ && q
            == p),
        addr is Domain ==> way is Lookup,
{
}

/// Different targets have different ways: none is taken for another.
pub proof fn law_ways_differ(a: Target, b: Target)
    ensures
        route(a) == route(b) ==> a == b,
{
    if route(a) == route(b) {
        match (a, b) {
            (Target::Domain(h, p), Target::Domain(k, q)) => {
                law_query_names_host_and_port(h, p);
                law_query_names_host_and_port(k, q);
                let s = route(a)->Lookup_0;
                if h.len() < k.len() {
                    assert(s.skip(h.len() as int + 1)[k.len() - h.len() - 1] == ':');
                }
                if k.len() < h.len() {
                    assert(s.skip(k.len() as int + 1)[h.len() - k.len() - 1] == ':');
                }
                assert(s.take(h.len() as int) == h && s.take(k.len() as int) == k);
            },
            _ => {},
        }
    }
}

} // verus!
