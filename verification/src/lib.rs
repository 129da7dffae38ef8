//! Filtering and extraction of messages from mbox-formatted mail archives.
//!
//! The crate has two engines: a small textual filter language (parser,
//! expression tree and matching over mail headers and decoded body parts),
//! and a streaming MIME-multipart decoder that turns raw header and body
//! lines into structured [`mail::Mail`] records keyed by content type.
pub mod content_type;
pub mod mail;
pub mod filename;
pub mod filter;
pub mod header;
pub mod parser;
pub mod text;

pub use header::Header;
