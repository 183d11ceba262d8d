//! The agent's configuration.

use vstd::prelude::*;

verus! {

/// What the agent is started with.
#[derive(Debug, Clone)]
pub struct Config {
    /// WebSocket URL of the proxy server's provider endpoint: `ws://` for
    /// plain or `wss://` for TLS.
    pub server_url: String,
    /// Authentication token, which must match the server's.
    pub token: String,
    /// Geographic label of the provider, such as `US-CA`.
    pub geo: Option<String>,
    /// Human-readable label of this provider instance.
    pub label: Option<String>,
    /// Whether to accept self-signed TLS certificates (for testing only).
    pub accept_invalid_certs: bool,
}

impl Default for Config {
    fn default() -> (res: Self)
        ensures
            res.server_url@ == "ws://127.0.0.1:8888"@,
            res.token@ == "change-me"@,
            res.geo is None,
            res.label is None,
            !res.accept_invalid_certs,
    {
        Config {
            server_url: "ws://127.0.0.1:8888".to_owned(),
            token: "change-me".to_owned(),
            geo: None,
            label: None,
            accept_invalid_certs: false,
        }
    }
}

} // verus!
