//! The verified core of a terminal multiplexer server and client: the handshake and command
//! handling of a connection, the failed-authentication rate limiter, tmux session bookkeeping,
//! the client's input handling and session picker, and the command line.

pub mod admin;
pub mod auth;
pub mod cli;
pub mod client;
pub mod config;
pub mod hex;
mod random;
pub mod rate_limit;
pub mod server_session;
pub mod sessions;
pub mod text;
pub mod tls;
