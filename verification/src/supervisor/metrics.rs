//! The telemetry endpoint: exactly enough HTTP for a scraper.

use vstd::prelude::*;
use vstd::utf8::{decode_utf8, encode_utf8, valid_utf8};

use crate::text::lines::{begins, starts_with};
use crate::text::{cat7, dec, dec_u64, split, split_on, str_eq, texts};

verus! {

/// The port that the endpoint listens on.
pub const PORT: u16 = 23232;

/// The largest request line that the endpoint reads.
pub const MAX_REQUEST: usize = 1024;

/// What the endpoint answers a connection with. `head` asks for the same headers and no body.
#[derive(Debug, Clone, Copy, PartialEq, Eq, Structural)]
pub enum Response {
    Metrics { head: bool },
    Landing { head: bool },
    NotFound,
    Close,
}

/// The page at `/`: one link.
pub const LANDING_BODY: &'static str = "<html><body><a href=\"/metrics\">/metrics</a></body></html>\n";

pub const NOT_FOUND_BODY: &'static str = "not found\n";

/// The first position from `i` on that holds a line feed, or the number of bytes.
pub open spec fn feed_from(b: Seq<u8>, i: int) -> int
    decreases b.len() - i,
{
    if i >= b.len() {
        b.len() as int
    } else if b[i] == 10 {
        i
    } else {
        feed_from(b, i + 1)
    }
}

/// The bytes that are looked at.
pub open spec fn capped(b: Seq<u8>) -> Seq<u8> {
    if b.len() <= MAX_REQUEST {
        b
    } else {
        b.take(MAX_REQUEST as int)
    }
}

/// The request line without its end, where it ends within what is looked at.
pub open spec fn request_line(b: Seq<u8>) -> Option<Seq<u8>> {
    let c = capped(b);
    let end = feed_from(c, 0);
    if end >= c.len() {
        None
    } else if end > 0 && c[end - 1] == 13 {
        Some(c.take(end - 1))
    } else {
        Some(c.take(end))
    }
}

/// What a request line asks, given its words.
pub open spec fn classified(w: Seq<Seq<char>>) -> Response {
    if w.len() != 3 || !begins(w[2], "HTTP/1."@) {
        Response::Close
    } else if w[0] != "GET"@ && w[0] != "HEAD"@ {
        Response::NotFound
    } else if w[1] == "/metrics"@ {
        Response::Metrics { head: w[0] == "HEAD"@ }
    } else if w[1] == "/"@ {
        Response::Landing { head: w[0] == "HEAD"@ }
    } else {
        Response::NotFound
    }
}

pub open spec fn response_to(b: Seq<u8>) -> Response {
    match request_line(b) {
        Some(line) => if valid_utf8(line) {
            classified(split(decode_utf8(line), ' '))
        } else {
            Response::Close
        },
        None => Response::Close,
    }
}

/// `std::str::from_utf8`: the text that the bytes encode, or nothing where they are not UTF-8.
#[verifier::external_body]
fn utf8_text(b: &Vec<u8>) -> (r: Option<String>)
    ensures
        match r {
            Some(s) => valid_utf8(b@) && s@ == decode_utf8(b@),
            None => !valid_utf8(b@),
        },
{
    std::str::from_utf8(b).ok().map(String::from)
}

fn classify(line: &str) -> (r: Response)
    ensures
        r == classified(split(line@, ' ')),
{
    let w = split_on(line, ' ');
    assert(texts(w@).len() == w@.len());
    if w.len() != 3 {
        return Response::Close;
    }
    assert(texts(w@)[0] == w@[0]@ && texts(w@)[1] == w@[1]@ && texts(w@)[2] == w@[2]@);
    if !starts_with(w[2].as_str(), "HTTP/1.") {
        return Response::Close;
    }
    let method = w[0].as_str();
    let head = str_eq(method, "HEAD");
    if !head && !str_eq(method, "GET") {
        return Response::NotFound;
    }
    proof {
        reveal_strlit("HEAD");
        reveal_strlit("GET");
    }
    let target = w[1].as_str();
    if str_eq(target, "/metrics") {
        Response::Metrics { head }
    } else if str_eq(target, "/") {
        Response::Landing { head }
    } else {
        Response::NotFound
    }
}

/// Classify one request by its request line alone. What is not recognized gets the connection
/// closed, and no error page.
pub fn respond(request: &[u8]) -> (r: Response)
    ensures
        r == response_to(request@),
{
    let n: usize = if request.len() <= MAX_REQUEST {
        request.len()
    } else {
        MAX_REQUEST
    };
    let ghost c = capped(request@);
    assert(c.len() == n);
    let mut line: Vec<u8> = Vec::new();
    let mut end: usize = 0;
    while end < n && request[end] != 10
        invariant
            end <= n <= request@.len(),
            c == capped(request@),
            c.len() == n,
            line@ == c.take(end as int),
            feed_from(c, 0) == feed_from(c, end as int),
        decreases n - end,
    {
        assert(c[end as int] == request@[end as int]);
        line.push(request[end]);
        assert(c.take(end + 1) =~= c.take(end as int).push(c[end as int]));
        end = end + 1;
    }
    if end >= n {
        return Response::Close;
    }
    assert(c[end as int] == request@[end as int]);
    if end > 0 && line[end - 1] == 13 {
        let _ = line.pop();
        assert(line@ =~= c.take(end - 1));
    }
    assert(request_line(request@) == Some(line@));
    match utf8_text(&line) {
        Some(s) => classify(s.as_str()),
        None => Response::Close,
    }
}

pub open spec fn head_text(status: Seq<char>, content_type: Seq<char>, length: nat) -> Seq<char> {
    "HTTP/1.1 "@ + status + "\r\nContent-Type: "@ + content_type + "\r\nContent-Length: "@ + dec(
        length,
    ) + "\r\nConnection: close\r\n\r\n"@
}

/// The head of an answer, and its body where it is sent.
pub open spec fn answer_text(
    status: Seq<char>,
    content_type: Seq<char>,
    body: Seq<char>,
    head: bool,
) -> Seq<char> {
    let h = head_text(status, content_type, encode_utf8(body).len());
    if head {
        h
    } else {
        h + body
    }
}

/// What is sent for a classified request. Nothing is sent to a connection that is closed.
pub open spec fn response_bytes(r: Response, body: Seq<char>) -> Seq<u8> {
    match r {
        Response::Metrics { head } => encode_utf8(
            answer_text(
                "200 OK"@,
                "application/openmetrics-text; version=1.0.0; charset=utf-8"@,
                body,
                head,
            ),
        ),
        Response::Landing { head } => encode_utf8(
            answer_text("200 OK"@, "text/html; charset=utf-8"@, LANDING_BODY@, head),
        ),
        Response::NotFound => encode_utf8(
            answer_text("404 Not Found"@, "text/plain; charset=utf-8"@, NOT_FOUND_BODY@, false),
        ),
        Response::Close => seq![],
    }
}

fn answer(status: &str, content_type: &str, body: &str, head: bool) -> (r: Vec<u8>)
    ensures
        r@ == encode_utf8(answer_text(status@, content_type@, body@, head)),
{
    let length: usize = body.as_bytes().len();
    let mut s = cat7(
        "HTTP/1.1 ",
        status,
        "\r\nContent-Type: ",
        content_type,
        "\r\nContent-Length: ",
        dec_u64(length as u64).as_str(),
        "\r\nConnection: close\r\n\r\n",
    );
    if !head {
        s.append(body);
    }
    s.as_str().as_bytes_vec()
}

/// The bytes for a classified request. `body` is the metrics text.
pub fn write_response(r: &Response, body: &str) -> (b: Vec<u8>)
    ensures
        b@ == response_bytes(*r, body@),
{
    match r {
        Response::Metrics { head } => answer(
            "200 OK",
            "application/openmetrics-text; version=1.0.0; charset=utf-8",
            body,
            *head,
        ),
        Response::Landing { head } => answer(
            "200 OK",
            "text/html; charset=utf-8",
            LANDING_BODY,
            *head,
        ),
        Response::NotFound => answer(
            "404 Not Found",
            "text/plain; charset=utf-8",
            NOT_FOUND_BODY,
            false,
        ),
        Response::Close => Vec::new(),
    }
}

// ---- laws ----

/// A request for the head alone is answered with the head of the answer to the same request for
/// the whole, the length of the body that is not sent with it included.
pub proof fn lemma_head_is_the_head_of_the_whole(body: Seq<char>, status: Seq<char>, kind: Seq<char>)
    ensures
        answer_text(status, kind, body, false) == answer_text(status, kind, body, true) + body,
{
}

/// Only the first bytes of a request are looked at: what follows a request line that ends within
/// them does not change the answer.
pub proof fn lemma_only_the_request_line_counts(a: Seq<u8>, b: Seq<u8>, k: int)
    requires
        0 <= k < a.len(),
        k < b.len(),
        k < MAX_REQUEST,
        a[k] == 10,
        forall|i: int| 0 <= i <= k ==> a[i] == b[i],
    ensures
        response_to(a) == response_to(b),
{
    lemma_feed_same(a, b, k, 0);
    let e = feed_from(capped(a), 0);
    assert(capped(a).take(e) =~= capped(b).take(e));
    if e > 0 {
        assert(capped(a).take(e - 1) =~= capped(b).take(e - 1));
    }
}

proof fn lemma_feed_same(a: Seq<u8>, b: Seq<u8>, k: int, i: int)
    requires
        0 <= i <= k < a.len(),
        k < b.len(),
        k < MAX_REQUEST,
        a[k] == 10,
        forall|j: int| 0 <= j <= k ==> a[j] == b[j],
    ensures
        feed_from(capped(a), i) == feed_from(capped(b), i),
        i <= feed_from(capped(a), i) <= k,
    decreases k - i,
{
    assert(capped(a)[i] == a[i]);
    assert(capped(b)[i] == b[i]);
    if a[i] != 10 {
        lemma_feed_same(a, b, k, i + 1);
    }
}

} // verus!
