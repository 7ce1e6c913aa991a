//! What is asked of the engine and what is answered, and how a change is committed.

use vstd::prelude::*;

use crate::emit::engine::TransitCost;
use crate::engine::cidr::{cidr_of, cidr6_of, mask_len, network_of};
use crate::engine::laws::{lemma_an_address_has_no_slash, lemma_digits_are_no_address};
use crate::engine::northbound::{
    batch, commit_after, nb_error_text, owner, reply_error, unmapped, unmapped_from, CommitPhase,
    CommitV, ConfigChangeV, NbError, Reply, YangError,
};
use crate::engine::sock::{
    all_routes, lemma_routes_are_a_set, request_of, route_of, summary_text, unknown_answer,
    RequestV,
};
use crate::engine::{host_of, path_in, prefsrc_refusal, prefsrc_refusals, IpHost, IpNet};
use crate::ipv4::{dotted, lemma_parse_dotted, Ipv4Addr};
use crate::json::keys::lemma_found_under_its_key;
use crate::json::JsonV;
use crate::model::prefix::{span, Ipv4Prefix};
use crate::text::lines::{behind, words};
use crate::text::reading::{blank, lemma_cut_at_the_first, lemma_cut_at_the_last, lemma_trim_of_solid};
use crate::text::{dec, is_space, lemma_dec, lemma_parse_dec, rsplit_once};
use crate::textmap::TextMap;

verus! {

// ---- networks ----

/// An address, a slash and a length is the network that it spells, host bits and all, and an
/// address alone is the network of its own.
pub proof fn lemma_a_network_is_read(bits: u32, len: u8)
    requires
        len <= 32,
    ensures
        cidr_of(dotted(bits) + seq!['/'] + dec(len as nat)) == Some(
            Ipv4Prefix { net: Ipv4Addr { bits }, len },
        ),
        cidr_of(dotted(bits)) == Some(Ipv4Prefix { net: Ipv4Addr { bits }, len: 32 }),
{
    let d = dec(len as nat);
    lemma_an_address_has_no_slash(bits);
    lemma_parse_dotted(bits);
    lemma_dec(len as nat);
    lemma_parse_dec(len as nat, 255);
    lemma_digits_are_no_address(d);
    if d.contains('/') {
        let i = choose|i: int| 0 <= i < d.len() && d[i] == '/';
        assert(crate::text::is_digit(d[i]));
    }
    lemma_cut_at_the_first(dotted(bits), '/', d);
}

proof fn lemma_spans_differ(p: int, q: int)
    requires
        0 <= p < q <= 32,
    ensures
        span(p) > span(q),
    decreases q - p,
{
    if p + 1 < q {
        lemma_spans_differ(p + 1, q);
    }
    crate::model::prefix::lemma_span(p);
    crate::model::prefix::lemma_span(q);
}

/// A netmask stands for the number of its leading ones.
pub proof fn lemma_a_netmask_is_read(bits: u32, mask: u32, len: int)
    requires
        0 <= len <= 32,
        mask == 0x1_0000_0000 - span(len),
    ensures
        cidr_of(dotted(bits) + seq!['/'] + dotted(mask)) == Some(
            Ipv4Prefix { net: Ipv4Addr { bits }, len: len as u8 },
        ),
{
    lemma_an_address_has_no_slash(bits);
    lemma_an_address_has_no_slash(mask);
    lemma_parse_dotted(bits);
    lemma_parse_dotted(mask);
    lemma_cut_at_the_first(dotted(bits), '/', dotted(mask));
    assert(mask_len(mask) is Some);
    let p = mask_len(mask)->0;
    if p < len {
        lemma_spans_differ(p, len);
    } else if len < p {
        lemma_spans_differ(len, p);
    }
}

/// A longer length than an address has is no network.
pub proof fn lemma_a_length_has_a_limit(bits: u32, n: nat)
    requires
        n > 32,
    ensures
        cidr_of(dotted(bits) + seq!['/'] + dec(n)) is None,
{
    let d = dec(n);
    lemma_an_address_has_no_slash(bits);
    lemma_dec(n);
    lemma_digits_are_no_address(d);
    if d.contains('/') {
        let i = choose|i: int| 0 <= i < d.len() && d[i] == '/';
        assert(crate::text::is_digit(d[i]));
    }
    assert(crate::text::is_digit(d[0]));
    lemma_cut_at_the_first(dotted(bits), '/', d);
}

/// A network without a length is a host; one with a length is none. IPv4 is tried first.
pub proof fn lemma_a_host_has_no_length(s: Seq<char>)
    ensures
        s.contains('/') ==> host_of(s) is None,
        !s.contains('/') && cidr_of(s) is Some ==> host_of(s) == Some(
            IpHost::V4(cidr_of(s)->0.net),
        ),
        !s.contains('/') && cidr_of(s) is None && cidr6_of(s) is Some ==> host_of(s) == Some(
            IpHost::V6((cidr6_of(s)->0).0),
        ),
        cidr_of(s) is None && cidr6_of(s) is None ==> host_of(s) is None && network_of(s) is None,
        cidr_of(s) is Some ==> network_of(s) == Some(IpNet::V4(cidr_of(s)->0)),
{
}

proof fn lemma_refusals(rules: Seq<(Seq<char>, Seq<char>)>, i: int, k: int)
    requires
        0 <= i <= k <= rules.len(),
        forall|j: int| i <= j < k ==> prefsrc_refusal(#[trigger] rules[j]) is None,
        k < rules.len() ==> prefsrc_refusal(rules[k]) is Some,
    ensures
        prefsrc_refusals(rules, i) == if k < rules.len() {
            prefsrc_refusal(rules[k])
        } else {
            None
        },
    decreases k - i,
{
    if i < k {
        assert(prefsrc_refusal(rules[i]) is None);
        lemma_refusals(rules, i + 1, k);
    }
}

/// The rules are accepted where every prefix is a network and every source an address; otherwise
/// the first that is not is named, its prefix before its source.
pub proof fn lemma_the_first_bad_rule_is_named(rules: Seq<(Seq<char>, Seq<char>)>, k: int)
    requires
        0 <= k <= rules.len(),
        forall|j: int|
            0 <= j < k ==> network_of((#[trigger] rules[j]).0) is Some && host_of(rules[j].1) is Some,
        k < rules.len() ==> network_of(rules[k].0) is None || host_of(rules[k].1) is None,
    ensures
        k == rules.len() ==> prefsrc_refusals(rules, 0) is None,
        k < rules.len() && network_of(rules[k].0) is None ==> prefsrc_refusals(rules, 0) == Some(
            "engine: prefsrc prefix "@ + rules[k].0 + ": invalid address: "@ + rules[k].0,
        ),
        k < rules.len() && network_of(rules[k].0) is Some ==> prefsrc_refusals(rules, 0) == Some(
            "engine: prefsrc address "@ + rules[k].1 + ": invalid IP address syntax"@,
        ),
{
    lemma_refusals(rules, 0, k);
}

/// A file stands in its directory behind one slash.
pub proof fn lemma_a_path_has_one_slash(dir: Seq<char>, name: Seq<char>)
    requires
        dir.len() > 0,
        dir.last() != '/',
    ensures
        path_in(dir, name) == dir + seq!['/'] + name,
        path_in(dir + seq!['/'], name) == dir + seq!['/'] + name,
{
    reveal_strlit("/");
    assert("/"@ =~= seq!['/']);
    assert((dir + seq!['/']).last() == '/');
}

// ---- requests ----

/// The lines that ask for the state and for a cost, with white space around them or without.
pub proof fn lemma_what_the_plain_lines_ask(a: Seq<char>, b: Seq<char>)
    requires
        blank(a),
        blank(b),
    ensures
        request_of(a + "state"@ + b) == Some(RequestV::State),
        request_of(a + "transit-cost leaf"@ + b) == Some(
            RequestV::TransitCost(TransitCost::LeafOffset),
        ),
        request_of(a + "transit-cost normal"@ + b) == Some(
            RequestV::TransitCost(TransitCost::Declared),
        ),
{
    reveal_strlit("state");
    reveal_strlit("transit-cost leaf");
    reveal_strlit("transit-cost normal");
    assert("state"@.len() == 5);
    assert("transit-cost leaf"@.len() == 17);
    assert("transit-cost normal"@.len() == 19);
    lemma_trim_of_solid(a, "state"@, b);
    lemma_trim_of_solid(a, "transit-cost leaf"@, b);
    lemma_trim_of_solid(a, "transit-cost normal"@, b);
}

proof fn lemma_routes_line(a: Seq<char>, rest: Seq<char>, b: Seq<char>)
    requires
        blank(a),
        blank(b),
        rest.len() > 0,
        !is_space(rest.last()),
    ensures
        crate::text::trim(a + ("workload-routes "@ + rest) + b) == "workload-routes "@ + rest,
        behind("workload-routes "@ + rest, "workload-routes "@) == Some(rest),
        "workload-routes "@ + rest != "state"@,
        "workload-routes "@ + rest != "transit-cost leaf"@,
        "workload-routes "@ + rest != "transit-cost normal"@,
{
    reveal_strlit("state");
    reveal_strlit("transit-cost leaf");
    reveal_strlit("transit-cost normal");
    reveal_strlit("workload-routes ");
    let l = "workload-routes "@ + rest;
    assert("workload-routes "@.len() == 16);
    assert(l[0] == 'w');
    assert("state"@[0] == 's');
    assert("transit-cost leaf"@[0] == 't');
    assert("transit-cost normal"@[0] == 't');
    assert(l.last() == rest.last());
    lemma_trim_of_solid(a, l, b);
    crate::text::lines::lemma_behind("workload-routes "@, rest);
}

/// A leg, its index and routes, in whatever order and however often: the routes are asked for as
/// a set. One word that is no route refuses all of it.
pub proof fn lemma_what_a_routes_line_asks(
    a: Seq<char>,
    rest: Seq<char>,
    b: Seq<char>,
    leg: Seq<char>,
    ifindex: u32,
    cidrs: Seq<Seq<char>>,
)
    requires
        blank(a),
        blank(b),
        rest.len() > 0,
        !is_space(rest.last()),
        words(rest) == seq![leg, dec(ifindex as nat)] + cidrs,
    ensures
        ({
            let line = a + ("workload-routes "@ + rest) + b;
            let good = forall|i: int| 0 <= i < cidrs.len() ==> route_of(#[trigger] cidrs[i]) is Some;
            &&& request_of(line) is Some <==> good
            &&& good ==> request_of(line)->0 is WorkloadRoutes
            &&& good ==> request_of(line)->0->leg == leg
            &&& good ==> request_of(line)->0->ifindex == ifindex
            &&& good ==> forall|p: Ipv4Prefix| #[trigger]
                request_of(line)->0->cidrs.contains(p) <==> exists|i: int|
                    0 <= i < cidrs.len() && route_of(#[trigger] cidrs[i]) == Some(p)
            &&& good ==> forall|i: int, j: int|
                #![trigger request_of(line)->0->cidrs[i], request_of(line)->0->cidrs[j]]
                0 <= i < j < request_of(line)->0->cidrs.len() ==> {
                    let x = request_of(line)->0->cidrs[i];
                    let y = request_of(line)->0->cidrs[j];
                    x.net.bits < y.net.bits || x.net.bits == y.net.bits && x.len < y.len
                }
        }),
{
    lemma_routes_line(a, rest, b);
    let w = words(rest);
    assert(w[0] == leg);
    assert(w[1] == dec(ifindex as nat));
    assert(w.skip(2) =~= cidrs);
    lemma_parse_dec(ifindex as nat, u32::MAX as nat);
    if all_routes(cidrs) {
        lemma_routes_are_a_set(cidrs, cidrs.len() as int);
    }
}

/// A route is a network without a host bit.
pub proof fn lemma_a_route_has_no_host_bit(w: Seq<char>)
    ensures
        route_of(w) is Some <==> cidr_of(w) is Some && exists|k: int|
            cidr_of(w)->0.net.bits == #[trigger] (k * span(cidr_of(w)->0.len as int)),
        route_of(w) is Some ==> route_of(w) == cidr_of(w),
{
    if cidr_of(w) is Some {
        let p = cidr_of(w)->0;
        assert(p.len <= 32) by {
            assert(cidr_of(w) == Some(p));
        }
        let s = span(p.len as int);
        let b = p.net.bits as int;
        crate::model::prefix::lemma_span(p.len as int);
        assert(s > 0);
        if route_of(w) is Some {
            assert(b == (b / s) * s) by (nonlinear_arith)
                requires
                    b - b % s == b,
                    s > 0,
            ;
        }
        if exists|k: int| b == #[trigger] (k * s) {
            let k = choose|k: int| b == #[trigger] (k * s);
            assert(b % s == 0) by (nonlinear_arith)
                requires
                    b == k * s,
                    s > 0,
            ;
        }
    }
}

/// How a request is told in the log, and how a line that asks nothing is answered.
pub proof fn lemma_how_requests_are_told(
    leg: Seq<char>,
    ifindex: u32,
    cidrs: Seq<Ipv4Prefix>,
    shown: Seq<char>,
)
    ensures
        summary_text(RequestV::State) == "state"@,
        summary_text(RequestV::TransitCost(TransitCost::LeafOffset)) == "transit-cost "@ + "leaf"@,
        summary_text(RequestV::TransitCost(TransitCost::Declared)) == "transit-cost "@ + "normal"@,
        summary_text(RequestV::WorkloadRoutes { leg, ifindex, cidrs }) == "workload-routes "@ + leg
            + " "@ + dec(ifindex as nat) + " ("@ + dec(cidrs.len()) + " routes)"@,
        unknown_answer(shown).at("error"@) == JsonV::Str("unknown request "@ + shown),
{
    lemma_found_under_its_key(unknown_answer(shown)->Obj_0, 0);
}

// ---- commits ----

/// A commit that everybody accepts has every provider prepare in turn, and then every provider
/// apply in turn, and is applied when the last one has.
pub proof fn lemma_a_commit_that_all_accept(providers: int, replies: Seq<Reply>, n: int)
    requires
        0 <= providers,
        0 <= n <= 2 * providers,
        n <= replies.len(),
        forall|i: int| 0 <= i < n ==> (#[trigger] replies[i]) is Accepted,
    ensures
        0 <= n < providers ==> commit_after(providers, replies, n) == (CommitV::Asking {
            phase: CommitPhase::Prepare,
            next: n,
            providers,
            why: seq![],
        }),
        providers <= n < 2 * providers ==> commit_after(providers, replies, n) == (CommitV::Asking {
            phase: CommitPhase::Apply,
            next: n - providers,
            providers,
            why: seq![],
        }),
        n == 2 * providers ==> commit_after(providers, replies, n) is Applied,
    decreases n,
{
    if n > 0 {
        lemma_a_commit_that_all_accept(providers, replies, n - 1);
    }
}

/// Where a provider refuses to prepare, everybody is told to abort, from the first to the last,
/// and the commit fails with the refusal.
pub proof fn lemma_a_refused_prepare_has_everybody_abort(
    providers: int,
    replies: Seq<Reply>,
    k: int,
    j: int,
)
    requires
        0 <= k < providers,
        0 <= j <= providers,
        k + 1 + j <= replies.len(),
        forall|i: int| 0 <= i < k ==> (#[trigger] replies[i]) is Accepted,
        !(replies[k] is Accepted),
        forall|i: int| k < i < k + 1 + j ==> (#[trigger] replies[i]) is Accepted,
    ensures
        j < providers ==> commit_after(providers, replies, k + 1 + j) == (CommitV::Asking {
            phase: CommitPhase::Abort,
            next: j,
            providers,
            why: reply_error(CommitPhase::Prepare, replies[k]),
        }),
        j == providers ==> commit_after(providers, replies, k + 1 + j) == (CommitV::Failed {
            why: reply_error(CommitPhase::Prepare, replies[k]),
        }),
    decreases j,
{
    if j == 0 {
        lemma_a_commit_that_all_accept(providers, replies, k);
    } else {
        lemma_a_refused_prepare_has_everybody_abort(providers, replies, k, j - 1);
    }
}

/// Where a provider refuses to apply, the commit fails at once with that refusal.
pub proof fn lemma_a_refused_apply_fails_at_once(providers: int, replies: Seq<Reply>, k: int)
    requires
        0 <= k < providers,
        providers + k < replies.len(),
        forall|i: int| 0 <= i < providers + k ==> (#[trigger] replies[i]) is Accepted,
        !(replies[providers + k] is Accepted),
    ensures
        commit_after(providers, replies, providers + k + 1) == (CommitV::Failed {
            why: reply_error(CommitPhase::Apply, replies[providers + k]),
        }),
{
    lemma_a_commit_that_all_accept(providers, replies, providers + k);
}

/// What a commit fails with: that a provider is gone, or the phase and what the provider said.
pub proof fn lemma_why_a_commit_fails(e: NbError)
    ensures
        reply_error(CommitPhase::Prepare, Reply::Rejected(e)) == "engine: commit "@ + "Prepare"@
            + " rejected: "@ + nb_error_text(e),
        reply_error(CommitPhase::Apply, Reply::Rejected(e)) == "engine: commit "@ + "Apply"@
            + " rejected: "@ + nb_error_text(e),
        reply_error(CommitPhase::Prepare, Reply::Exited)
            == "engine: a provider exited during commit"@,
        reply_error(CommitPhase::Apply, Reply::Exited) == "engine: a provider exited during commit"@,
        reply_error(CommitPhase::Prepare, Reply::Dropped)
            == "engine: a provider dropped its commit response"@,
        reply_error(CommitPhase::Apply, Reply::Dropped)
            == "engine: a provider dropped its commit response"@,
{
}

/// How an error of the engine is told.
pub proof fn lemma_how_an_error_is_told(message: String, path: String, shown: String, y: YangError)
    ensures
        nb_error_text(NbError::Validate { message, path }) == message@ + " at "@ + path@,
        nb_error_text(NbError::Prepare { message, path }) == message@ + " at "@ + path@,
        nb_error_text(NbError::Parse { path, shown }) == "cannot parse change at "@ + path@ + ": "@
            + shown@,
        nb_error_text(NbError::Plain { shown }) == shown@,
        y.msg is Some && y.path is None ==> nb_error_text(NbError::Yang { shown, error: y })
            == shown@ + ": "@ + y.msg->0@,
        y.msg is Some && y.path is Some ==> nb_error_text(NbError::Yang { shown, error: y })
            == shown@ + ": "@ + (y.msg->0@ + " (path "@ + y.path->0@ + ")"@),
        y.msg is None && y.path is None ==> nb_error_text(NbError::Yang { shown, error: y })
            == shown@ + ": "@ + ("libyang error "@ + dec(y.code as nat)),
{
}

// ---- who owns a change ----

/// The owner of a path is who registered it, or else the owner of the path one step up; what has
/// no step up and is not registered has none.
pub proof fn lemma_who_owns_a_path(reg: TextMap<usize>, path: Seq<char>, step: Seq<char>)
    requires
        !step.contains('/'),
    ensures
        reg.has(path) ==> owner(reg, path) == Some(reg.value_of(path)),
        !reg.has(path + seq!['/'] + step) ==> owner(reg, path + seq!['/'] + step) == owner(
            reg,
            path,
        ),
        !reg.has(step) ==> owner(reg, step) is None,
{
    lemma_cut_at_the_last(path, '/', step);
    let s = path + seq!['/'] + step;
    let k = crate::text::rfind(s, '/', s.len() as int);
    assert(rsplit_once(s, '/') is Some);
    assert(s.subrange(0, k) == path);
    assert(0 <= k < s.len()) by {
        assert(s.subrange(0, k).len() == path.len());
        lemma_rfind_below(s, s.len() as int);
    }
    lemma_rfind_below(step, step.len() as int);
    assert(rsplit_once(step, '/') is None);
}

proof fn lemma_rfind_below(s: Seq<char>, j: int)
    requires
        0 <= j <= s.len(),
    ensures
        -1 <= crate::text::rfind(s, '/', j) < j,
    decreases j,
{
    if j > 0 && s[j - 1] != '/' {
        lemma_rfind_below(s, j - 1);
    }
}

/// A provider is handed the changes that it owns, each once and in their order.
pub proof fn lemma_a_provider_gets_its_changes(
    changes: Seq<ConfigChangeV>,
    paths: TextMap<usize>,
    provider: int,
    n: int,
    c: ConfigChangeV,
)
    requires
        0 <= n <= changes.len(),
    ensures
        batch(changes, paths, provider, n).contains(c) <==> exists|i: int|
            0 <= i < n && #[trigger] changes[i] == c && paths.has(c.path) && paths.value_of(c.path)
                == provider,
        n > 0 && paths.has(changes[n - 1].path) && paths.value_of(changes[n - 1].path) == provider
            ==> batch(changes, paths, provider, n) == batch(changes, paths, provider, n - 1).push(
            changes[n - 1],
        ),
        n > 0 && !(paths.has(changes[n - 1].path) && paths.value_of(changes[n - 1].path)
            == provider) ==> batch(changes, paths, provider, n) == batch(
            changes,
            paths,
            provider,
            n - 1,
        ),
    decreases n,
{
    if n > 0 {
        lemma_a_provider_gets_its_changes(changes, paths, provider, n - 1, c);
        let b = batch(changes, paths, provider, n - 1);
        let d = batch(changes, paths, provider, n);
        let last = changes[n - 1];
        if d.contains(c) {
            let i = choose|i: int| 0 <= i < d.len() && d[i] == c;
            if i < b.len() {
                assert(b[i] == c);
                assert(b.contains(c));
            }
        }
        if b.contains(c) {
            let i = choose|i: int| 0 <= i < b.len() && b[i] == c;
            assert(d[i] == c);
        }
        if last == c && paths.has(c.path) && paths.value_of(c.path) == provider {
            assert(d.last() == c);
        }
    }
}

proof fn lemma_unmapped_at(changes: Seq<ConfigChangeV>, paths: TextMap<usize>, i: int, k: int)
    requires
        0 <= i <= k <= changes.len(),
        forall|j: int| i <= j < k ==> paths.has((#[trigger] changes[j]).path),
        k < changes.len() ==> !paths.has(changes[k].path),
    ensures
        unmapped_from(changes, paths, i) == k,
    decreases k - i,
{
    if i < k {
        lemma_unmapped_at(changes, paths, i + 1, k);
    }
}

/// The first change that nobody owns is the one that is complained of.
pub proof fn lemma_a_change_that_nobody_owns(
    changes: Seq<ConfigChangeV>,
    paths: TextMap<usize>,
    k: int,
)
    requires
        0 <= k <= changes.len(),
        forall|j: int| 0 <= j < k ==> paths.has((#[trigger] changes[j]).path),
        k < changes.len() ==> !paths.has(changes[k].path),
    ensures
        k < changes.len() ==> unmapped(changes, paths) == Some(changes[k].data_path),
        k == changes.len() ==> unmapped(changes, paths) is None,
{
    lemma_unmapped_at(changes, paths, 0, k);
}

} // verus!
