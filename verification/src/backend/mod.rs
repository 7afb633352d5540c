//! The API backend: environment configuration, CORS, error values, the
//! REST handlers and the websocket greeting.

pub mod api;
pub mod config;
pub mod errors;
pub mod security;
pub mod ws;
