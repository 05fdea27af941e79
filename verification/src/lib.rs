//! A small client library for a public knowledge-base entity-search API.
//!
//! The library builds the request URL for a search term, with the term
//! percent-encoded into the fixed query string, and translates the outcome
//! of the HTTP transport into the caller's result. The network call itself
//! is left to the caller; everything the library computes is verified.

pub mod client;
pub mod percent;
pub mod request;
