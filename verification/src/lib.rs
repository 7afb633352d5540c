//! Verified core of a small web terminal service: configuration parsing,
//! CORS policy selection, API error values, HTTP handler results and the
//! websocket echo protocol.

pub mod cors;
pub mod text;
pub mod frame;
pub mod backend;
pub mod webssh;
