//! Services and their clients, and parsers on streams: what they decide and compute, and
//! proofs that it is right.

pub mod async_alt;
pub mod async_cs;
pub mod async_next;
pub mod async_v2;
pub mod channel;
pub mod client_list;
pub mod client_table;
pub mod cstring;
pub mod direct_service;
pub mod echo;
pub mod flag;
pub mod message;
pub mod stream_parser;
pub mod sync_cs;
pub mod test_fixtures;

pub use stream_parser::{ParseStatus, ParseWithStream, Parser};
