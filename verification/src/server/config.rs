//! The gateway's configuration.

use crate::message_laws::says_number;
use crate::text::{decimal, push_decimal};
use crate::text_laws::law_decimal_stands_for_the_number;
use vstd::prelude::*;

verus! {

/// What the gateway is started with.
#[derive(Debug, Clone)]
pub struct Config {
    /// Port for SOCKS5 client connections.
    pub socks5_port: u16,
    /// Port for HTTP CONNECT client connections.
    pub http_port: u16,
    /// Port for provider agent WebSocket connections.
    pub provider_port: u16,
    /// Shared secret that provider agents must present to authenticate.
    pub provider_token: String,
}

impl Default for Config {
    fn default() -> (res: Self)
        ensures
            res.socks5_port == 1080,
            res.http_port == 8080,
            res.provider_port == 8888,
            res.provider_token@ == "change-me"@,
    {
        Config {
            socks5_port: 1080,
            http_port: 8080,
            provider_port: 8888,
            provider_token: "change-me".to_owned(),
        }
    }
}

/// The address to listen on for a port: every interface.
pub open spec fn listen_text(port: u16) -> Seq<char> {
    "0.0.0.0:"@ + decimal(port as nat)
}

/// The gateway listens on every interface, on the port that it is given.
pub proof fn law_listens_on_the_port(port: u16)
    ensures
        says_number(listen_text(port), "0.0.0.0:"@, port as int),
{
    let s = listen_text(port);
    let n = "0.0.0.0:"@.len() as int;
    law_decimal_stands_for_the_number(port as nat);
    assert(s.take(n) =~= "0.0.0.0:"@);
    assert(s.skip(n) =~= decimal(port as nat));
}

/// Makes the address to listen on for a port.
pub fn listen_addr(port: u16) -> (res: String)
    ensures
        res@ == "0.0.0.0:"@ + decimal(port as nat),
        res@ == listen_text(port),
{
    let mut addr = "0.0.0.0:".to_owned();
    push_decimal(&mut addr, port as u64);
    addr
}

} // verus!
