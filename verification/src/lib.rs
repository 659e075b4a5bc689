//! A small, synchronous HTTP/1.1 server core.
//!
//! The library covers the request/response lifecycle of a minimal server:
//! parsing raw bytes into a structured [`request::Request`], dispatching it
//! through an exact-match router, applying an optional middleware transform,
//! and serializing an [`response::HttpResponse`] back into wire bytes.
//! Sockets and threads live outside the library; the embedding program reads
//! a request's bytes, hands them to [`server::HttpServer::handle_request`],
//! and writes whatever bytes come back.
//!
//! Every function is specified and verified: the parser against a
//! character-level model of the accepted HTTP subset, the serializer against
//! the exact wire text it emits, and the router against a map from
//! (path, method) keys to handlers.

pub mod method;
pub mod prelude;
pub mod request;
pub mod response;
pub mod server;
pub mod status;
pub mod string_map;
pub mod text;
