//! The gateway, which takes clients and hands their connections to agents.

pub mod config;
pub mod driver;
pub mod http_connect;
pub mod http_grammar;
pub mod http_laws;
pub mod ids;
pub mod pool;
pub mod pool_laws;
pub mod provider;
pub mod provider_laws;
pub mod session;
pub mod session_laws;
pub mod session_runs;
pub mod socks5;
