//! Who holds a lock, as far as its file says.

use vstd::prelude::*;

use crate::text::{parse_u64, parse_uint, trim, trimmed};

verus! {

/// Another process holds the lock. Its process number is known where the file names one.
#[derive(Debug, Clone, Copy, PartialEq, Eq, Structural)]
pub struct Held {
    pub pid: Option<u32>,
}

/// The process number that a lock file names, where it names one.
pub open spec fn pid_in(text: Seq<char>) -> Option<u32> {
    match parse_uint(trim(text), u32::MAX as nat) {
        Some(n) => Some(n as u32),
        None => None,
    }
}

/// The holder of a lock that could not be taken: the text of the lock file, where it could be
/// read. What the file says is no reason to think the lock free.
pub fn holder(text: &Option<String>) -> (r: Held)
    ensures
        r.pid == match text {
            Some(t) => pid_in(t@),
            None => None,
        },
{
    match text {
        Some(t) => {
            let s = trimmed(t.as_str());
            match parse_u64(s.as_str(), u32::MAX as u64) {
                Some(n) => Held { pid: Some(n as u32) },
                None => Held { pid: None },
            }
        },
        None => Held { pid: None },
    }
}

} // verus!
