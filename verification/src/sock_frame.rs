//! The frame that every socket here shares: the client writes one request line, the server writes
//! one JSON object and closes. A leftover path is reclaimed only where nothing answers on it.

use vstd::prelude::*;

use crate::error::{error_text, is_fatal, Error};
use crate::json::{Json, JsonV};
use crate::text::{cat5, chars_of, text_of};

verus! {

/// Did the other side answer? At least one byte was read.
pub fn answered(read: Option<usize>) -> (r: bool)
    ensures
        r == (read matches Some(n) && n > 0),
{
    match read {
        Some(n) => n > 0,
        None => false,
    }
}

/// May this path be bound, and does a stale one have to be removed first? A live answer means
/// that another owner has it, which is fatal and never a takeover.
pub fn reclaim(exists: bool, answers: bool, path: &str, owner: &str) -> (r: Result<bool, Error>)
    ensures
        match r {
            Ok(remove) => !(exists && answers) && remove == exists,
            Err(e) => exists && answers && is_fatal(
                e,
                "another "@ + owner@ + " is running (answering on "@ + path@
                    + "); stop it first (cfab down)"@,
            ),
        },
{
    if exists && answers {
        return Err(
            Error::Fatal(
                cat5(
                    "another ",
                    owner,
                    " is running (answering on ",
                    path,
                    "); stop it first (cfab down)",
                ),
            ),
        );
    }
    Ok(exists)
}

/// How much of a text there is before the line feeds at its end.
pub open spec fn before_feeds(s: Seq<char>, n: int) -> int
    decreases n,
{
    if n > 0 && s[n - 1] == '\n' {
        before_feeds(s, n - 1)
    } else {
        n
    }
}

/// The request that a line carries: the line without the line feeds at its end.
pub open spec fn request_in(line: Seq<char>) -> Seq<char> {
    line.take(before_feeds(line, line.len() as int))
}

pub fn request(line: &str) -> (r: String)
    ensures
        r@ == request_in(line@),
{
    let v = chars_of(line);
    let mut n: usize = v.len();
    while n > 0 && v[n - 1] == '\n'
        invariant
            n <= v@.len(),
            v@ == line@,
            before_feeds(line@, line@.len() as int) == before_feeds(line@, n as int),
        decreases n,
    {
        n = n - 1;
    }
    assert(line@.take(n as int) =~= v@.subrange(0, n as int));
    text_of(&v, 0, n)
}

/// What is answered where a request fails.
pub fn error_reply(e: &Error) -> (r: Json)
    ensures
        r@ == JsonV::empty().with("error"@, JsonV::Str(error_text(*e))),
{
    Json::empty().with("error", Json::Str(e.to_string()))
}

} // verus!
