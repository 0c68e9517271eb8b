//! A minimal HTTP request dispatcher: a registry of routes, a parser of
//! requests, a serializer of responses, the decisions taken for each
//! connection and the life cycle of the server that owns them.
//!
//! The library computes on plain values. Sockets, threads and the isolation of
//! a handler that fails belong to the program around it, which performs the
//! actions that the library decides on and reports back what happened.

pub mod dispatch;
pub mod http_method;
pub mod http_status;
pub mod request;
pub mod response;
pub mod routehandler;
pub mod text;
pub mod webserver;
