//! The engine socket's protocol: one request line, one JSON object back. There are three verbs:
//! `state`, `transit-cost leaf|normal`, and `workload-routes <leg> <ifindex> [<cidr> …]`.

use vstd::prelude::*;

use crate::emit::engine::{transit_word, TransitCost};
use crate::engine::cidr::{cidr_of, read_cidr};
use crate::error::{is_fatal, Error};
use crate::json::{Json, JsonV};
use crate::model::prefix::{floor_of, Ipv4Prefix};
use crate::text::lines::{behind, strip_prefix, words, words_of};
use crate::text::{
    cat2, cat3, cat7, dec, dec_u64, parse_u64, parse_uint, str_eq, texts, trim, trimmed,
};

verus! {

/// One request, already read.
#[derive(Debug, PartialEq, Eq)]
pub enum Request {
    /// The operational document.
    State,
    /// Advertise this member's transit links at that cost.
    TransitCost(TransitCost),
    /// The whole wanted set of host routes on one workload leg: an empty one withdraws every
    /// route on that leg. `ifindex` is the leg's current kernel index.
    WorkloadRoutes { leg: String, ifindex: u32, cidrs: Vec<Ipv4Prefix> },
}

/// What a request asks.
pub enum RequestV {
    State,
    TransitCost(TransitCost),
    WorkloadRoutes { leg: Seq<char>, ifindex: u32, cidrs: Seq<Ipv4Prefix> },
}

impl View for Request {
    type V = RequestV;

    open spec fn view(&self) -> RequestV {
        match self {
            Request::State => RequestV::State,
            Request::TransitCost(t) => RequestV::TransitCost(*t),
            Request::WorkloadRoutes { leg, ifindex, cidrs } => RequestV::WorkloadRoutes {
                leg: leg@,
                ifindex: *ifindex,
                cidrs: cidrs@,
            },
        }
    }
}

pub open spec fn summary_text(r: RequestV) -> Seq<char> {
    match r {
        RequestV::State => "state"@,
        RequestV::TransitCost(t) => "transit-cost "@ + transit_word(t),
        RequestV::WorkloadRoutes { leg, ifindex, cidrs } => "workload-routes "@ + leg + " "@ + dec(
            ifindex as nat,
        ) + " ("@ + dec(cidrs.len()) + " routes)"@,
    }
}

impl Request {
    /// One short line for a request that was acted on: never the whole set of routes.
    pub fn summary(&self) -> (r: String)
        ensures
            r@ == summary_text(self@),
    {
        match self {
            Request::State => String::from_str("state"),
            Request::TransitCost(t) => cat2("transit-cost ", t.word()),
            Request::WorkloadRoutes { leg, ifindex, cidrs } => cat7(
                "workload-routes ",
                leg.as_str(),
                " ",
                dec_u64(*ifindex as u64).as_str(),
                " (",
                dec_u64(cidrs.len() as u64).as_str(),
                " routes)",
            ),
        }
    }
}

// ---- a set of routes ----

/// The order of routes: by address, and by length under one address.
pub open spec fn route_lt(a: Ipv4Prefix, b: Ipv4Prefix) -> bool {
    a.net.bits < b.net.bits || (a.net.bits == b.net.bits && a.len < b.len)
}

/// In order, and none twice.
pub open spec fn increasing(s: Seq<Ipv4Prefix>) -> bool {
    forall|i: int, j: int| 0 <= i < j < s.len() ==> route_lt(#[trigger] s[i], #[trigger] s[j])
}

/// The first position from `i` on whose route does not come before `p`.
pub open spec fn route_place(s: Seq<Ipv4Prefix>, p: Ipv4Prefix, i: int) -> int
    decreases s.len() - i,
{
    if i >= s.len() {
        s.len() as int
    } else if route_lt(s[i], p) {
        route_place(s, p, i + 1)
    } else {
        i
    }
}

/// The set with one more route.
pub open spec fn with_route(s: Seq<Ipv4Prefix>, p: Ipv4Prefix) -> Seq<Ipv4Prefix> {
    let k = route_place(s, p, 0);
    if k < s.len() && s[k] == p {
        s
    } else {
        s.insert(k, p)
    }
}

/// The route that a word spells: one with no host bit set, so that a destination has one
/// spelling.
pub open spec fn route_of(w: Seq<char>) -> Option<Ipv4Prefix> {
    match cidr_of(w) {
        Some(p) => if floor_of(p.net.bits as int, p.len as int) == p.net.bits {
            Some(p)
        } else {
            None
        },
        None => None,
    }
}

/// Are all of these words routes?
pub open spec fn all_routes(w: Seq<Seq<char>>) -> bool {
    forall|i: int| 0 <= i < w.len() ==> route_of(#[trigger] w[i]) is Some
}

/// Do the first `n` words name this route?
pub open spec fn names_route(w: Seq<Seq<char>>, n: int, p: Ipv4Prefix) -> bool {
    exists|i: int| 0 <= i < n && route_of(#[trigger] w[i]) == Some(p)
}

/// The routes of the first `n` words.
pub open spec fn routes_of(w: Seq<Seq<char>>, n: int) -> Seq<Ipv4Prefix>
    decreases n,
{
    if n <= 0 {
        seq![]
    } else {
        with_route(routes_of(w, n - 1), route_of(w[n - 1])->0)
    }
}

// ---- the request ----

/// What a `workload-routes` request asks, given the words behind the verb. One word that is not
/// a route refuses the whole of it.
pub open spec fn workload_request(w: Seq<Seq<char>>) -> Option<RequestV> {
    let cidrs = w.skip(2);
    if w.len() >= 2 && parse_uint(w[1], u32::MAX as nat) is Some && all_routes(cidrs) {
        Some(
            RequestV::WorkloadRoutes {
                leg: w[0],
                ifindex: parse_uint(w[1], u32::MAX as nat)->0 as u32,
                cidrs: routes_of(cidrs, cidrs.len() as int),
            },
        )
    } else {
        None
    }
}

/// What a line asks; nothing where it is not of the protocol.
pub open spec fn request_of(line: Seq<char>) -> Option<RequestV> {
    let l = trim(line);
    if l == "state"@ {
        Some(RequestV::State)
    } else if l == "transit-cost leaf"@ {
        Some(RequestV::TransitCost(TransitCost::LeafOffset))
    } else if l == "transit-cost normal"@ {
        Some(RequestV::TransitCost(TransitCost::Declared))
    } else {
        match behind(l, "workload-routes "@) {
            Some(rest) => workload_request(words(rest)),
            None => None,
        }
    }
}

proof fn lemma_route_place(s: Seq<Ipv4Prefix>, p: Ipv4Prefix, i: int)
    requires
        0 <= i <= s.len(),
    ensures
        i <= route_place(s, p, i) <= s.len(),
        forall|j: int| i <= j < route_place(s, p, i) ==> route_lt(#[trigger] s[j], p),
        route_place(s, p, i) < s.len() ==> !route_lt(s[route_place(s, p, i)], p),
    decreases s.len() - i,
{
    if i < s.len() && route_lt(s[i], p) {
        lemma_route_place(s, p, i + 1);
    }
}

fn add_route(v: &mut Vec<Ipv4Prefix>, p: Ipv4Prefix)
    ensures
        final(v)@ == with_route(old(v)@, p),
{
    let ghost s = v@;
    let mut i: usize = 0;
    while i < v.len() && (v[i].net.bits < p.net.bits || (v[i].net.bits == p.net.bits && v[i].len
        < p.len))
        invariant
            i <= v@.len(),
            v@ == s,
            route_place(s, p, 0) == route_place(s, p, i as int),
        decreases v@.len() - i,
    {
        i = i + 1;
    }
    if i < v.len() && v[i].net.bits == p.net.bits && v[i].len == p.len {
        return;
    }
    v.insert(i, p);
}

fn route(w: &str) -> (r: Option<Ipv4Prefix>)
    ensures
        r == route_of(w@),
{
    match read_cidr(w) {
        Some(p) => if p.is_aligned() {
            Some(p)
        } else {
            None
        },
        None => None,
    }
}

/// The routes that the words from the third on name, unless one of them is none.
fn routes_in(w: &Vec<String>) -> (r: Option<Vec<Ipv4Prefix>>)
    requires
        w@.len() >= 2,
    ensures
        r is Some <==> all_routes(texts(w@).skip(2)),
        r matches Some(v) ==> v@ == routes_of(texts(w@).skip(2), w@.len() - 2),
{
    let ghost rest = texts(w@).skip(2);
    let mut cidrs: Vec<Ipv4Prefix> = Vec::new();
    let mut i: usize = 2;
    while i < w.len()
        invariant
            2 <= i <= w@.len(),
            rest == texts(w@).skip(2),
            cidrs@ == routes_of(rest, i - 2),
            forall|j: int| 0 <= j < i - 2 ==> route_of(#[trigger] rest[j]) is Some,
        decreases w@.len() - i,
    {
        assert(rest[i - 2] == w@[i as int]@);
        match route(w[i].as_str()) {
            Some(p) => {
                add_route(&mut cidrs, p);
            },
            None => {
                return None;
            },
        }
        i = i + 1;
    }
    Some(cidrs)
}

fn workload_routes(rest: &str) -> (r: Option<Request>)
    ensures
        match r {
            Some(q) => workload_request(words(rest@)) == Some(q@),
            None => workload_request(words(rest@)) is None,
        },
{
    let w = words_of(rest);
    let ghost all = texts(w@);
    assert(all.len() == w@.len());
    if w.len() < 2 {
        return None;
    }
    let ifindex = match parse_u64(w[1].as_str(), u32::MAX as u64) {
        Some(n) => n as u32,
        None => {
            return None;
        },
    };
    let cidrs = match routes_in(&w) {
        Some(v) => v,
        None => {
            return None;
        },
    };
    Some(Request::WorkloadRoutes { leg: w[0].clone(), ifindex, cidrs })
}

/// What a line asks; anything that is not of the protocol is nothing, and is answered with an
/// error rather than guessed at.
pub fn parse_request(line: &str) -> (r: Option<Request>)
    ensures
        match r {
            Some(q) => request_of(line@) == Some(q@),
            None => request_of(line@) is None,
        },
{
    let l = trimmed(line);
    let s = l.as_str();
    if str_eq(s, "state") {
        return Some(Request::State);
    }
    if str_eq(s, "transit-cost leaf") {
        return Some(Request::TransitCost(TransitCost::LeafOffset));
    }
    if str_eq(s, "transit-cost normal") {
        return Some(Request::TransitCost(TransitCost::Declared));
    }
    match strip_prefix(s, "workload-routes ") {
        Some(rest) => workload_routes(rest.as_str()),
        None => None,
    }
}

// ---- the answers ----

/// A text in quotes, with what is not plain in it escaped.
pub uninterp spec fn quoted_text(s: Seq<char>) -> Seq<char>;

/// The `Debug` form of a text, by `std::fmt`: it is a function of the text.
#[verifier::external_body]
fn quoted(s: &str) -> (r: String)
    ensures
        r@ == quoted_text(s@),
{
    format!("{s:?}")
}

/// The answer to a line that is not of the protocol, given the form in which it is shown.
pub open spec fn unknown_answer(shown: Seq<char>) -> JsonV {
    JsonV::empty().with("error"@, JsonV::Str("unknown request "@ + shown))
}

pub fn unknown_answer_of(shown: &str) -> (r: Json)
    ensures
        r@ == unknown_answer(shown@),
{
    Json::empty().with("error", Json::Str(cat2("unknown request ", shown)))
}

/// The answer to a line that is not of the protocol.
pub fn unknown_request(line: &str) -> (r: Json)
    ensures
        r@ == unknown_answer(quoted_text(trim(line@))),
{
    let l = trimmed(line);
    unknown_answer_of(quoted(l.as_str()).as_str())
}

/// The answer to a request for another transit cost, once it is in force.
pub fn transit_answer(at: TransitCost) -> (r: Json)
    ensures
        r@ == JsonV::empty().with("transit_cost"@, JsonV::Str(transit_word(at))),
{
    Json::empty().with("transit_cost", Json::str(at.word()))
}

/// Refuse to start where another engine already answers on this socket.
pub fn refuse_if_live(answers: bool, sock_path: &str) -> (r: Result<(), Error>)
    ensures
        match r {
            Ok(_) => !answers,
            Err(e) => answers && is_fatal(
                e,
                "another engine is running (answering on "@ + sock_path@
                    + "); stop it first (cfab down)"@,
            ),
        },
{
    if answers {
        return Err(
            Error::Fatal(
                cat3(
                    "another engine is running (answering on ",
                    sock_path,
                    "); stop it first (cfab down)",
                ),
            ),
        );
    }
    Ok(())
}

// ---- laws ----

/// Adding a route keeps a set in order, and adds that route and no other.
proof fn lemma_with_route(s: Seq<Ipv4Prefix>, p: Ipv4Prefix)
    requires
        increasing(s),
    ensures
        increasing(with_route(s, p)),
        forall|q: Ipv4Prefix|
            #[trigger] with_route(s, p).contains(q) <==> s.contains(q) || q == p,
{
    lemma_route_place(s, p, 0);
    let k = route_place(s, p, 0);
    if k < s.len() && s[k] == p {
        assert(s.contains(p));
    } else {
        let t = s.insert(k, p);
        assert forall|i: int, j: int| 0 <= i < j < t.len() implies route_lt(
            #[trigger] t[i],
            #[trigger] t[j],
        ) by {
            let a = if i < k {
                i
            } else {
                i - 1
            };
            let b = if j < k {
                j
            } else {
                j - 1
            };
            if i == k {
                assert(t[j] == s[b]);
                assert(route_lt(p, s[k]));
                if b > k {
                    assert(route_lt(s[k], s[b]));
                }
            } else if j == k {
                assert(t[i] == s[a]);
            } else {
                assert(t[i] == s[a]);
                assert(t[j] == s[b]);
            }
        }
        assert forall|q: Ipv4Prefix| #[trigger] t.contains(q) <==> s.contains(q) || q == p by {
            if s.contains(q) {
                let i = choose|i: int| 0 <= i < s.len() && s[i] == q;
                let j = if i < k {
                    i
                } else {
                    i + 1
                };
                assert(t[j] == q);
            }
            if q == p {
                assert(t[k] == q);
            }
            if t.contains(q) {
                let j = choose|j: int| 0 <= j < t.len() && t[j] == q;
                if j < k {
                    assert(s[j] == q);
                } else if j > k {
                    assert(s[j - 1] == q);
                }
            }
        }
    }
}

/// The routes of a request are in order, none occurs twice, and they are the routes that the
/// words spell and no others.
pub proof fn lemma_routes_are_a_set(w: Seq<Seq<char>>, n: int)
    requires
        0 <= n <= w.len(),
        all_routes(w),
    ensures
        increasing(routes_of(w, n)),
        forall|p: Ipv4Prefix|
            #[trigger] routes_of(w, n).contains(p) <==> names_route(w, n, p),
    decreases n,
{
    if n > 0 {
        lemma_routes_are_a_set(w, n - 1);
        let s = routes_of(w, n - 1);
        let last = route_of(w[n - 1])->0;
        lemma_with_route(s, last);
        assert forall|p: Ipv4Prefix|
            #[trigger] routes_of(w, n).contains(p) <==> names_route(w, n, p) by {
            if s.contains(p) {
                let i = choose|i: int| 0 <= i < n - 1 && route_of(#[trigger] w[i]) == Some(p);
                assert(route_of(w[i]) == Some(p));
            }
            if p == last {
                assert(route_of(w[n - 1]) == Some(p));
            }
        }
    }
}

/// Two sets of routes in order that hold the same routes are the same.
proof fn lemma_increasing_unique(s: Seq<Ipv4Prefix>, t: Seq<Ipv4Prefix>)
    requires
        increasing(s),
        increasing(t),
        forall|p: Ipv4Prefix| s.contains(p) <==> t.contains(p),
    ensures
        s == t,
    decreases s.len(),
{
    if s.len() == 0 {
        if t.len() > 0 {
            assert(t.contains(t[0]));
        }
        assert(s =~= t);
    } else {
        assert(s.contains(s.last()));
        let k = choose|k: int| 0 <= k < t.len() && t[k] == s.last();
        assert(t.contains(t.last()));
        let m = choose|m: int| 0 <= m < s.len() && s[m] == t.last();
        assert(s.last() == t.last()) by {
            if k < t.len() - 1 {
                assert(route_lt(t[k], t[t.len() - 1]));
                if m < s.len() - 1 {
                    assert(route_lt(s[m], s[s.len() - 1]));
                }
            }
        }
        let a = s.drop_last();
        let b = t.drop_last();
        assert forall|p: Ipv4Prefix| a.contains(p) <==> b.contains(p) by {
            if a.contains(p) {
                let i = choose|i: int| 0 <= i < a.len() && a[i] == p;
                assert(s[i] == p);
                assert(s.contains(p));
                assert(route_lt(s[i], s[s.len() - 1]));
                let j = choose|j: int| 0 <= j < t.len() && t[j] == p;
                assert(j < t.len() - 1);
                assert(b[j] == p);
            }
            if b.contains(p) {
                let i = choose|i: int| 0 <= i < b.len() && b[i] == p;
                assert(t[i] == p);
                assert(t.contains(p));
                assert(route_lt(t[i], t[t.len() - 1]));
                let j = choose|j: int| 0 <= j < s.len() && s[j] == p;
                assert(j < s.len() - 1);
                assert(a[j] == p);
            }
        }
        lemma_increasing_unique(a, b);
        assert(s =~= a.push(s.last()));
        assert(t =~= b.push(t.last()));
    }
}

/// The routes of a request do not depend on the order in which they are named, nor on how often.
pub proof fn lemma_order_of_routes_is_no_matter(v: Seq<Seq<char>>, w: Seq<Seq<char>>)
    requires
        all_routes(v),
        all_routes(w),
        forall|p: Ipv4Prefix|
            names_route(v, v.len() as int, p) <==> names_route(w, w.len() as int, p),
    ensures
        routes_of(v, v.len() as int) == routes_of(w, w.len() as int),
{
    lemma_routes_are_a_set(v, v.len() as int);
    lemma_routes_are_a_set(w, w.len() as int);
    let s = routes_of(v, v.len() as int);
    let t = routes_of(w, w.len() as int);
    assert forall|p: Ipv4Prefix| s.contains(p) <==> t.contains(p) by {
        assert(s.contains(p) <==> names_route(v, v.len() as int, p));
        assert(t.contains(p) <==> names_route(w, w.len() as int, p));
    }
    lemma_increasing_unique(s, t);
}

} // verus!
