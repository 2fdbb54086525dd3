//! A DNS message codec and an iterative resolver core.
//!
//! The wire codec covers the 12-byte header, questions, and resource
//! records (A, NS, CNAME, with an explicit fallback for unknown types),
//! including decompression of domain names via backward pointers.  The
//! resolver is a step function over an explicit stack of pending lookups,
//! driven by a caller that owns the transport.

pub mod buffer;
pub mod domain;
pub mod error;
pub mod header;
pub mod packet;
pub mod question;
pub mod record;
pub mod resolver;
pub mod server;
