//! A verified parser for the attribute (`a=`) and connection (`c=`) lines of
//! SDP-style session descriptions.
//!
//! Each attribute line carries a key and an optional value whose grammar
//! depends on the key: the dispatcher in [`attributes`] routes the value text
//! to the matching typed sub-parser, and unrecognized keys round-trip through
//! a passthrough variant.  The connection line's address field, with its
//! optional TTL and multicast-count suffixes, is handled in [`connection`].

pub mod errors;
pub mod util;
pub mod num;
pub mod ip;
pub mod connection;
pub mod attributes;
