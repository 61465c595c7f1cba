//! A minimal HTTP/1.1-style protocol core.
//!
//! The crate covers the textual side of a tiny single-threaded web server:
//! deciding when a peer has finished sending (`reader`), turning raw bytes
//! into a structured [`Request`] (`request`), exact-path dispatch over a
//! route table (`router`), the [`Response`] shape with its helper
//! constructors (`response`), and rendering a response back to wire bytes
//! (`serialize`). Sockets and file reads live outside the crate; callers
//! hand in the received bytes and send out the rendered bytes.

pub mod connection;
pub mod headers;
pub mod reader;
pub mod request;
pub mod response;
pub mod router;
pub mod serialize;
pub mod text;

pub use connection::{parse_received, resolve, internal_error_line};
pub use headers::HeaderMap;
pub use request::{HttpError, Request};
pub use response::{bytes, err, err_with_headers, not_found_response, redirect, str, Response,
    ResponseCode};
pub use router::RouteTable;
