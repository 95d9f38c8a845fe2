//! The verified core of a set of small network and text tools: the
//! broadcast authority of a TCP chat service with time-windowed IP bans,
//! the decisions of its per-connection reader, and the text transforms,
//! request parsing and replies behind the other commands.
use vstd::prelude::*;

pub mod authority;
pub mod config;
pub mod http;
pub mod kv;
pub mod net;
pub mod query;
pub mod reader;
pub mod text;

verus! {

} // verus!
