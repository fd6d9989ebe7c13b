//! A small static-file HTTP server library: response framing, request parsing
//! and confinement of request paths to a server root.
//!
//! Socket and filesystem I/O are left to the caller; the decisions made on
//! what was read are verified here.

pub mod text;
pub mod http;
pub mod resolve;
pub mod request;
pub mod serve;
