//! A minimal HTTP server framework: the wire-level request parser, the
//! method/path router, the response model and a small JSON document model.
//!
//! Everything in this crate is plain computation over bytes and strings; sockets
//! and threads are left to the program that embeds it.

pub mod assets;
pub mod cli;
pub mod demo;
pub mod server;
