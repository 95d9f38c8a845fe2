//! The decisions of a connection's reader task: after each read it reports
//! one event to the authority and either reads again or stops.
use vstd::prelude::*;

use crate::authority::{Event, Handle};

verus! {

/// The bytes of `buf` before `n`, as a new vector.
fn prefix(buf: &Vec<u8>, n: usize) -> (r: Vec<u8>)
    requires
        n <= buf@.len(),
    ensures
        r@ == buf@.take(n as int),
{
    let mut r: Vec<u8> = Vec::new();
    let mut i: usize = 0;
    while i < n
        invariant
            n <= buf@.len(),
            i <= n,
            r@ == buf@.take(i as int),
        decreases n - i,
    {
        r.push(buf[i]);
        i = i + 1;
        assert(r@ =~= buf@.take(i as int));
    }
    r
}

/// What a reader task does after one read of `handle` into `buf`, where
/// `read` is the number of bytes read, or `None` when the read failed.
/// Returns the event to report and whether to read again: a read of `n > 0`
/// bytes reports those bytes and goes on; an empty or failed read reports
/// the disconnection and stops.
pub fn after_read(handle: Handle, buf: &Vec<u8>, read: Option<usize>) -> (r: (Event, bool))
    requires
        read matches Some(n) ==> n <= buf@.len(),
    ensures
        match read {
            Some(n) if n > 0 => {
                &&& r.1
                &&& r.0 matches Event::MessageReceived { handle: h, bytes }
                &&& h == handle
                &&& bytes@ == buf@.take(n as int)
            },
            _ => !r.1 && r.0 == (Event::Disconnected { handle }),
        },
{
    match read {
        Some(n) => {
            if n > 0 {
                (Event::MessageReceived { handle, bytes: prefix(buf, n) }, true)
            } else {
                (Event::Disconnected { handle }, false)
            }
        },
        None => (Event::Disconnected { handle }, false),
    }
}

} // verus!
