//! Where a target's socket addresses come from.

use crate::proto::{ProxyAddr, Target};
use crate::text::{decimal, push_decimal};
use vstd::prelude::*;
use vstd::string::StringExecFns;

verus! {

/// The way to a target's socket addresses.
#[derive(Debug)]
pub enum Resolution {
    /// The address is known: an IPv4 address and a port.
    Ipv4([u8; 4], u16),
    /// The address is known: an IPv6 address and a port.
    Ipv6([u8; 16], u16),
    /// The addresses of this host and port are to be looked up.
    Lookup(String),
}

/// A [`Resolution`] as a mathematical value.
#[verifier::ext_equal]
pub enum Route {
    Ipv4(Seq<u8>, u16),
    Ipv6(Seq<u8>, u16),
    Lookup(Seq<char>),
}

impl View for Resolution {
    type V = Route;

    open spec fn view(&self) -> Route {
        match *self {
            Resolution::Ipv4(octets, port) => Route::Ipv4(octets@, port),
            Resolution::Ipv6(octets, port) => Route::Ipv6(octets@, port),
            Resolution::Lookup(query) => Route::Lookup(query@),
        }
    }
}

/// The way to a target's socket addresses: an IP address stands for itself, and
/// a domain is looked up as `host:port`.
pub open spec fn route(t: Target) -> Route {
    match t {
        Target::Ipv4(octets, port) => Route::Ipv4(octets, port),
        Target::Ipv6(octets, port) => Route::Ipv6(octets, port),
        Target::Domain(host, port) => Route::Lookup(host.push(':') + decimal(port as nat)),
    }
}

impl ProxyAddr {
    /// The way to the target's socket addresses.
    pub fn to_socket_addrs(&self) -> (res: Resolution)
        ensures
            res@ == route(self@),
    {
        match self {
            ProxyAddr::Ipv4(octets, port) => Resolution::Ipv4(*octets, *port),
            ProxyAddr::Ipv6(octets, port) => Resolution::Ipv6(*octets, *port),
            ProxyAddr::Domain(host, port) => {
                let mut query = String::new();
                query.append(host.as_str());
                query.push(':');
                push_decimal(&mut query, *port as u64);
                assert(query@ =~= host@.push(':') + decimal(*port as nat));
                Resolution::Lookup(query)
            },
        }
    }
}

} // verus!
