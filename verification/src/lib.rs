//! The decisions, grammars and wire formats of a residential proxy: a gateway
//! that takes SOCKS5 and HTTP CONNECT clients, and exit-node agents that carry
//! their connections.

pub mod addr_display;
pub mod addr_grammar;
pub mod addr_laws;
pub mod addr_text;
pub mod agent;
pub mod buffers;
pub mod handshake;
pub mod message_laws;
pub mod messages;
pub mod proto;
pub mod proto_laws;
pub mod resolve;
pub mod resolve_laws;
pub mod server;
pub mod text;
pub mod text_laws;
pub mod tunnel_laws;
pub mod view_laws;
pub mod ws_stream;
