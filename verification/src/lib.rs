//! An embeddable HTTP/1.1 server engine.
//!
//! The engine parses requests out of a streaming byte buffer, picks a handler
//! by method and path, and writes each handler's result back as wire-format
//! bytes. Sockets and scheduling stay outside: this crate holds the buffers,
//! the decoding and encoding, the routing table and the per-connection state
//! machine, each with a machine-checked contract.

pub mod buffer;
pub mod date;
pub mod decimal;
pub mod decode;
pub mod errors;
pub mod http_server;
pub mod pipeline_laws;
pub mod reading;
pub mod request;
pub mod response;
pub mod router;
pub mod router_laws;
pub mod server;
pub mod text;

pub use crate::errors::{HandlerError, RequestError};
pub use crate::request::Request;
pub use crate::response::Response;
pub use crate::server::{RouteHandler, Server};
