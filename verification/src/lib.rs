//! Incremental decoder for the head of an HTTP/1.1 request.
//!
//! The decoder turns the bytes accumulated so far on a connection into a
//! structured request head (request line plus ordered header fields). Every
//! parser is a pure function over the buffer and a cursor position and
//! returns one of three outcomes: complete (with the position of the first
//! unconsumed byte), needs-more-input (the bytes seen so far are a valid
//! prefix, but the boundary cannot be decided yet), or malformed (the
//! grammar is violated at a definite position). A caller that reads from a
//! socket accumulates bytes and re-invokes the decoder on the whole buffer
//! until it gets a complete or malformed outcome.
//!
//! All textual fields are zero-copy views into the input buffer, given as
//! offset plus length, so a completed head stays valid only as long as the
//! buffer it was parsed from.

pub mod grammar;
pub mod http11;
pub mod laws;
pub mod types;
