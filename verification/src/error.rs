//! The one error type of the library.

use vstd::prelude::*;

use crate::text::{cat2, cat4, dec_i64, dec_int, trim, trimmed};

verus! {

/// Config errors carry a `fabric.toml: ` prefix, so that a declaration problem can be told from
/// a host problem at a glance.
#[derive(Debug)]
pub enum Error {
    /// A problem in the declaration itself.
    Config(String),
    /// A precondition on the running system failed. Fatal, never degraded.
    Fatal(String),
    /// A command that was run failed.
    Cmd { cmd: String, status: i32, stderr: String },
    /// The operating system refused something: its error number, where there is one, and its
    /// own words.
    Io { code: Option<i32>, message: String },
}

/// What a failed command's own output adds to its line.
pub open spec fn stderr_part(stderr: Seq<char>) -> Seq<char> {
    if trim(stderr).len() == 0 {
        seq![]
    } else {
        " — "@ + trim(stderr)
    }
}

/// The line an error is printed as.
pub open spec fn error_text(e: Error) -> Seq<char> {
    match e {
        Error::Config(m) => "fabric.toml: "@ + m@,
        Error::Fatal(m) => "FATAL: "@ + m@,
        Error::Cmd { cmd, status, stderr } => cmd@ + ": exit "@ + dec_int(status as int)
            + stderr_part(stderr@),
        Error::Io { code, message } => message@,
    }
}

/// Does `r` succeed exactly where there is no refusal, and else fail with that refusal as a
/// config error?
pub open spec fn refuses<T>(r: Result<T, Error>, why: Option<Seq<char>>) -> bool {
    match r {
        Ok(_) => why is None,
        Err(Error::Config(m)) => why == Some(m@),
        Err(_) => false,
    }
}

/// Is this the fatal error of this message?
pub open spec fn is_fatal(e: Error, msg: Seq<char>) -> bool {
    e matches Error::Fatal(m) && m@ == msg
}

fn fmt_stderr(stderr: &str) -> (r: String)
    ensures
        r@ == stderr_part(stderr@),
{
    let s = trimmed(stderr);
    if s.as_str().is_empty() {
        String::new()
    } else {
        cat2(" — ", s.as_str())
    }
}

impl Error {
    pub fn config(msg: &str) -> (r: Error)
        ensures
            r matches Error::Config(m) && m@ == msg@,
    {
        Error::Config(msg.to_owned())
    }

    pub fn fatal(msg: &str) -> (r: Error)
        ensures
            r matches Error::Fatal(m) && m@ == msg@,
    {
        Error::Fatal(msg.to_owned())
    }

    /// Wrap an error in more context. The `fabric.toml: ` prefix belongs to the outermost error
    /// only, so the inner one is taken without it.
    pub fn context(prefix: &str, inner: Error) -> (r: Error)
        ensures
            r matches Error::Config(m) && m@ == prefix@ + (match inner {
                Error::Config(i) => i@,
                _ => error_text(inner),
            }),
    {
        match inner {
            Error::Config(msg) => Error::Config(cat2(prefix, msg.as_str())),
            other => Error::Config(cat2(prefix, other.to_string().as_str())),
        }
    }

    /// The line this error is printed as.
    pub fn to_string(&self) -> (r: String)
        ensures
            r@ == error_text(*self),
    {
        match self {
            Error::Config(m) => cat2("fabric.toml: ", m.as_str()),
            Error::Fatal(m) => cat2("FATAL: ", m.as_str()),
            Error::Cmd { cmd, status, stderr } => cat4(
                cmd.as_str(),
                ": exit ",
                dec_i64(*status as i64).as_str(),
                fmt_stderr(stderr.as_str()).as_str(),
            ),
            Error::Io { code, message } => message.clone(),
        }
    }
}

} // verus!
