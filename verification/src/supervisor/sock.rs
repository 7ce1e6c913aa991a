//! The supervisor's socket: it answers `components`, `log` and `reapply`.

use vstd::prelude::*;

use crate::error::{error_text, is_fatal, Error};
use crate::json::{strings, Json, JsonV};
use crate::text::lines::{words, words_of};
use crate::text::{cat2, cat3, parse_u64, parse_uint, str_eq, texts};

verus! {

/// How many lines `log` answers with where it is not told.
pub const LOG_DEFAULT: usize = 50;

/// How many lines `log` answers with at most.
pub const LOG_MAX: usize = 200;

/// What a request asks.
#[derive(Debug, PartialEq, Eq)]
pub enum Verb {
    Components,
    /// The last `n` lines of a component.
    Log { name: String, n: usize },
    Reapply,
}

pub enum VerbV {
    Components,
    Log { name: Seq<char>, n: int },
    Reapply,
}

impl View for Verb {
    type V = VerbV;

    open spec fn view(&self) -> VerbV {
        match self {
            Verb::Components => VerbV::Components,
            Verb::Log { name, n } => VerbV::Log { name: name@, n: *n as int },
            Verb::Reapply => VerbV::Reapply,
        }
    }
}

/// The line count of a `log` request.
pub open spec fn count_of(w: Seq<Seq<char>>) -> Option<int> {
    if w.len() > 2 {
        match parse_uint(w[2], usize::MAX as nat) {
            Some(n) => Some(
                if n <= LOG_MAX {
                    n as int
                } else {
                    LOG_MAX as int
                },
            ),
            None => None,
        }
    } else {
        Some(LOG_DEFAULT as int)
    }
}

/// What the words of a request ask, or why they ask nothing.
pub open spec fn verb_of(w: Seq<Seq<char>>) -> Result<VerbV, Seq<char>> {
    if w.len() == 0 {
        Err("empty request"@)
    } else if w[0] == "components"@ {
        Ok(VerbV::Components)
    } else if w[0] == "log"@ {
        if w.len() == 1 {
            Err("log needs a component name"@)
        } else {
            match count_of(w) {
                Some(n) => Ok(VerbV::Log { name: w[1], n }),
                None => Err("log: "@ + w[2] + " is not a line count"@),
            }
        }
    } else if w[0] == "reapply"@ {
        Ok(VerbV::Reapply)
    } else {
        Err("unknown request: "@ + w[0])
    }
}

/// Read one request line. An unknown verb is an error, and never an empty document.
pub fn read_request(line: &str) -> (r: Result<Verb, Error>)
    ensures
        match r {
            Ok(v) => verb_of(words(line@)) == Ok::<VerbV, Seq<char>>(v@),
            Err(e) => verb_of(words(line@)) matches Err(m) && is_fatal(e, m),
        },
{
    let w = words_of(line);
    assert(texts(w@).len() == w@.len());
    if w.len() == 0 {
        return Err(Error::fatal("empty request"));
    }
    let verb = w[0].as_str();
    assert(verb@ == texts(w@)[0]);
    if str_eq(verb, "components") {
        return Ok(Verb::Components);
    }
    if str_eq(verb, "log") {
        if w.len() == 1 {
            return Err(Error::fatal("log needs a component name"));
        }
        let mut n: usize = LOG_DEFAULT;
        if w.len() > 2 {
            assert(w@[2]@ == texts(w@)[2]);
            match parse_u64(w[2].as_str(), usize::MAX as u64) {
                Some(k) => {
                    n = if k <= LOG_MAX as u64 {
                        k as usize
                    } else {
                        LOG_MAX
                    };
                },
                None => {
                    return Err(
                        Error::Fatal(cat3("log: ", w[2].as_str(), " is not a line count")),
                    );
                },
            }
        }
        assert(w@[1]@ == texts(w@)[1]);
        return Ok(Verb::Log { name: w[1].clone(), n });
    }
    if str_eq(verb, "reapply") {
        return Ok(Verb::Reapply);
    }
    Err(Error::Fatal(cat2("unknown request: ", verb)))
}

/// The answer to `log`: the lines that were kept of the component, where this member has it.
pub fn log_answer(name: &str, lines: &Option<Vec<String>>) -> (r: Result<Json, Error>)
    ensures
        match r {
            Ok(j) => lines matches Some(v) && j@ == JsonV::empty().with(
                "lines"@,
                strings(texts(v@)),
            ),
            Err(e) => lines is None && is_fatal(e, "unknown component: "@ + name@),
        },
{
    match lines {
        Some(v) => Ok(Json::empty().with("lines", Json::strings(v))),
        None => Err(Error::Fatal(cat2("unknown component: ", name))),
    }
}

/// The answer to `reapply`: how it went.
pub fn reapply_answer(done: &Result<(), Error>) -> (r: Json)
    ensures
        r@ == match done {
            Ok(_) => JsonV::empty().with("ok"@, JsonV::Bool(true)),
            Err(e) => JsonV::empty().with("ok"@, JsonV::Bool(false)).with(
                "error"@,
                JsonV::Str(error_text(*e)),
            ),
        },
{
    match done {
        Ok(_) => Json::empty().with("ok", Json::Bool(true)),
        Err(e) => Json::empty().with("ok", Json::Bool(false)).with(
            "error",
            Json::Str(e.to_string()),
        ),
    }
}

} // verus!
