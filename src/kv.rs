//! The answers of the small key-value server: `SET` (a store) stores and answers
//! `OK`, `GET` (a fetch) answers the stored value or null; nothing else is served.
use vstd::prelude::*;

verus! {

/// A request to the key-value server.
#[derive(Clone, Debug)]
pub enum KvCommand {
    Store { key: String, value: Vec<u8> },
    Fetch { key: String },
    /// Any other command, which this server does not serve.
    Unsupported,
}

/// An answer of the key-value server.
#[derive(Clone, Debug, PartialEq, Eq)]
pub enum KvReply {
    /// The simple string `OK`.
    Done,
    /// A bulk value.
    Value(Vec<u8>),
    /// No value under the key.
    Null,
}

/// The answer to `cmd`, where `stored` is what the store holds under a
/// `GET`'s key (for a `SET` it is not read). `None` for an unsupported
/// command.
pub fn kv_reply(cmd: &KvCommand, stored: Option<Vec<u8>>) -> (r: Option<KvReply>)
    ensures
        cmd is Store ==> r == Some(KvReply::Done),
        cmd is Fetch ==> match stored {
            Some(v) => r matches Some(KvReply::Value(w)) && w@ == v@,
            None => r == Some(KvReply::Null),
        },
        cmd is Unsupported ==> r is None,
{
    match cmd {
        KvCommand::Store { .. } => Some(KvReply::Done),
        KvCommand::Fetch { .. } => match stored {
            Some(v) => Some(KvReply::Value(v)),
            None => Some(KvReply::Null),
        },
        KvCommand::Unsupported => None,
    }
}

} // verus!
