//! The single-binary web terminal: configuration, CORS, HTTP API answers,
//! SSH session handles and the websocket echo protocol.

pub mod config;
pub mod http;
pub mod security;
pub mod ssh;
pub mod ws;
