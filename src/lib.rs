//! A small static-file and upload HTTP server: request parsing, routing, path authorization,
//! content-type selection, upload planning and response framing, as functions on bytes with
//! their contracts. Sockets, the filesystem and the environment are left to the caller.
pub mod bytes;
pub mod config;
pub mod pages;
pub mod request;
pub mod response;
pub mod router;
pub mod upload;
