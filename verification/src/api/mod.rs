//! The HTTP endpoints' request and response bodies and the decisions behind
//! each answer (status code and body), as plain values.
pub mod remote;
pub mod server_api;
pub mod plugins_api;
