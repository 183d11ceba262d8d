//! The agent, which runs on the residential machine.

pub mod backoff;
pub mod config;
pub mod stream;
pub mod stream_laws;
pub mod stream_runs;
pub mod tunnel;
pub mod tunnel_runs;
