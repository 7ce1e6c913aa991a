//! What the command line chooses and says.

use vstd::prelude::*;

use crate::cli::{
    carrying_wires, chosen_name, config_choice, fabric_line, is_local_path, is_up, lines_with,
    member_line, universal_count, watchdog_lines, WatchdogReport,
};
use crate::derive::MemberViewV;
use crate::error::{error_text, stderr_part, Error};
use crate::model::validate::lemma_sorted_set;
use crate::model::{FabricV, MemberKind, SegmentV};
use crate::sock_frame::{before_feeds, request_in};
use crate::text::lines::words;
use crate::text::reading::{before, blank, lemma_the_order_of_texts, lemma_trim_of_solid};
use crate::text::{dec, dec_int, join, texts, trim};
use crate::time::{since, Instant};

verus! {

/// The declaration that is read: the one that was asked for, else the one beside the program,
/// else the installed one where there is one, else the one here.
pub proof fn lemma_which_declaration_is_read(p: Seq<char>, q: Option<Seq<char>>, b: bool)
    ensures
        config_choice(Some(p), q, b) == p,
        config_choice(None, Some(p), b) == p,
        config_choice(None, None, true) == "/etc/cfab/fabric.conf"@,
        config_choice(None, None, false) == "fabric.conf"@,
{
}

/// The member that is meant: the one that was asked for, else the one that the environment
/// names, unless that is empty.
pub proof fn lemma_which_member_is_meant(h: Seq<char>, e: Option<Seq<char>>)
    ensures
        chosen_name(Some(h), e) == Some(h),
        h.len() > 0 ==> chosen_name(None, Some(h)) == Some(h),
        h.len() == 0 ==> chosen_name(None, Some(h)) is None,
        chosen_name(None, None) is None,
{
}

/// A wire is up where the list in the environment names it, or, without a list, where its carrier
/// is 1; and where nothing is known of it.
pub proof fn lemma_when_a_wire_is_up(
    list: Seq<char>,
    carrier: Option<Seq<char>>,
    wire: Seq<char>,
    a: Seq<char>,
    b: Seq<char>,
)
    requires
        blank(a),
        blank(b),
    ensures
        is_up(Some(list), carrier, wire) <==> exists|i: int|
            0 <= i < words(list).len() && #[trigger] words(list)[i] == wire,
        is_up(None, Some(a + "1"@ + b), wire),
        !is_up(None, Some(a + "0"@ + b), wire),
        is_up(None, None, wire),
{
    reveal_strlit("1");
    reveal_strlit("0");
    assert("1"@.len() == 1);
    assert("0"@.len() == 1);
    assert("1"@[0] == '1');
    assert("0"@[0] == '0');
    lemma_trim_of_solid(a, "1"@, b);
    lemma_trim_of_solid(a, "0"@, b);
    if words(list).contains(wire) {
        let i = choose|i: int| 0 <= i < words(list).len() && words(list)[i] == wire;
        assert(words(list)[i] == wire);
    }
}

/// What is said of a fabric that is accepted: a segment is counted as a leg of last resort where
/// it is on all domains, and as a segment otherwise.
pub proof fn lemma_what_is_said_of_a_fabric(f: FabricV, legs: nat)
    requires
        legs == legs_among(f.segments, f.segments.len() as int),
    ensures
        fabric_line(f) == "fabric.conf OK: "@ + dec(f.zones.len()) + " zones, "@ + dec(
            (f.segments.len() - legs) as nat,
        ) + " segments, "@ + dec(legs) + " fallback legs, "@ + dec(f.members.len())
            + " members\n"@,
{
    lemma_legs(f.segments, f.segments.len() as int);
}

/// How many of the first `n` segments are on all domains.
pub open spec fn legs_among(s: Seq<SegmentV>, n: int) -> nat
    decreases n,
{
    if n <= 0 {
        0
    } else if s[n - 1].scope == None::<Seq<char>> {
        legs_among(s, n - 1) + 1
    } else {
        legs_among(s, n - 1)
    }
}

proof fn lemma_legs(s: Seq<SegmentV>, n: int)
    ensures
        universal_count(s, n) == legs_among(s, n),
    decreases n,
{
    if n > 0 {
        lemma_legs(s, n - 1);
    }
}

/// What is said of a member, and of its wires each one that carries a segment, once and in order.
pub proof fn lemma_what_is_said_of_a_member(v: MemberViewV, w: Seq<char>, i: int, j: int)
    ensures
        member_line(v) == "this member: "@ + v.member.name + " (node "@ + dec(v.member.node as nat)
            + ", "@ + (match v.member.kind {
            MemberKind::Host => "host"@,
            MemberKind::Leaf => "leaf"@,
        }) + "); "@ + dec(v.class_rows.len()) + " segment sub-ifs on wires ["@ + join(
            carrying_wires(v),
            " "@,
        ) + "], "@ + dec(v.fallback_rows.len()) + " fallback leg(s), "@ + dec(v.gw_rows.len())
            + " ingress leg(s)\n"@,
        carrying_wires(v).contains(w) <==> exists|k: int|
            0 <= k < v.class_rows.len() && (#[trigger] v.class_rows[k]).wire == w,
        0 <= i < j < carrying_wires(v).len() ==> before(carrying_wires(v)[i], carrying_wires(v)[j]),
{
    let names = Seq::new(v.class_rows.len(), |k: int| v.class_rows[k].wire);
    let n = names.len() as int;
    lemma_sorted_set(names, n);
    assert(names.take(n) =~= names);
    if names.contains(w) {
        let k = choose|k: int| 0 <= k < names.len() && names[k] == w;
        assert(v.class_rows[k].wire == w);
    }
    if exists|k: int| 0 <= k < v.class_rows.len() && (#[trigger] v.class_rows[k]).wire == w {
        let k = choose|k: int|
            0 <= k < v.class_rows.len() && (#[trigger] v.class_rows[k]).wire == w;
        assert(names[k] == w);
    }
    if 0 <= i < j < carrying_wires(v).len() {
        lemma_the_order_of_texts(carrying_wires(v)[i], carrying_wires(v)[j]);
    }
}

/// The texts, each behind the same words.
pub open spec fn each_behind(head: Seq<char>, v: Seq<String>) -> Seq<Seq<char>> {
    Seq::new(v.len(), |i: int| head + v[i]@)
}

proof fn lemma_each_behind(head: Seq<char>, v: Seq<String>, n: int)
    requires
        0 <= n <= v.len(),
    ensures
        lines_with(head, texts(v), n) == each_behind(head, v).take(n),
    decreases n,
{
    if n > 0 {
        lemma_each_behind(head, v, n - 1);
        assert(each_behind(head, v).take(n) =~= each_behind(head, v).take(n - 1).push(
            head + v[n - 1]@,
        ));
    } else {
        assert(each_behind(head, v).take(0) =~= seq![]);
    }
}

/// What the watchdog says: what it restored, what it took down and what it could not restore, what
/// it let through, what a foreign ruleset blocks, and that it failed closed.
pub proof fn lemma_what_the_watchdog_says(r: WatchdogReport)
    ensures
        watchdog_lines(r) == each_behind("cfab fwd-watchdog: restored: "@, r.restored@)
            + each_behind("cfab fwd-watchdog: ACTUATED: "@, r.downed@) + each_behind(
            "cfab fwd-watchdog: COULD NOT RESTORE: "@,
            r.unrestored@,
        ) + (match r.resolved {
            Some(t) => seq!["cfab fwd-watchdog: installed foreign-stack accept: "@ + t@],
            None => seq![],
        }) + each_behind("cfab fwd-watchdog: BLOCKED by a foreign ruleset: "@, r.blocked@) + (
        match r.failed {
            Some(t) => seq!["cfab fwd-watchdog: FAIL-CLOSED: "@ + t@],
            None => seq![],
        }),
{
    lemma_all_behind("cfab fwd-watchdog: restored: "@, r.restored@);
    lemma_all_behind("cfab fwd-watchdog: ACTUATED: "@, r.downed@);
    lemma_all_behind("cfab fwd-watchdog: COULD NOT RESTORE: "@, r.unrestored@);
    lemma_all_behind("cfab fwd-watchdog: BLOCKED by a foreign ruleset: "@, r.blocked@);
}

proof fn lemma_all_behind(head: Seq<char>, v: Seq<String>)
    ensures
        crate::cli::all_with(head, texts(v)) == each_behind(head, v),
{
    lemma_each_behind(head, v, v.len() as int);
    assert(each_behind(head, v).take(v.len() as int) =~= each_behind(head, v));
}

/// A path is the local file where it is that one name, with nothing but dots and slashes behind.
pub proof fn lemma_which_path_is_local(name: Seq<char>)
    requires
        !name.contains('/'),
    ensures
        is_local_path(name, name),
{
    crate::text::reading::lemma_cut_at_the_first(name, '/', name);
}

/// How an error is told: whose fault it is, or how the command ended and what it said.
pub proof fn lemma_how_an_error_is_told(m: String, cmd: String, status: i32, stderr: String)
    ensures
        error_text(Error::Config(m)) == "fabric.toml: "@ + m@,
        error_text(Error::Fatal(m)) == "FATAL: "@ + m@,
        trim(stderr@).len() == 0 ==> error_text(Error::Cmd { cmd, status, stderr }) == cmd@
            + ": exit "@ + dec_int(status as int),
        trim(stderr@).len() > 0 ==> error_text(Error::Cmd { cmd, status, stderr }) == cmd@
            + ": exit "@ + dec_int(status as int) + (" — "@ + trim(stderr@)),
        status >= 0 ==> dec_int(status as int) == dec(status as nat),
        status < 0 ==> dec_int(status as int) == "-"@ + dec((-status) as nat),
{
    let h = cmd@ + ": exit "@ + dec_int(status as int);
    if trim(stderr@).len() == 0 {
        assert(h + stderr_part(stderr@) =~= h);
    }
}

/// A request is its line without the line feeds behind it.
pub proof fn lemma_what_a_line_carries(s: Seq<char>, feeds: Seq<char>)
    requires
        s.len() == 0 || s.last() != '\n',
        forall|i: int| 0 <= i < feeds.len() ==> feeds[i] == '\n',
    ensures
        request_in(s + feeds) == s,
{
    let l = s + feeds;
    lemma_feeds(l, l.len() as int, s.len() as int);
    assert(l.take(s.len() as int) =~= s);
}

proof fn lemma_feeds(l: Seq<char>, n: int, k: int)
    requires
        0 <= k <= n <= l.len(),
        forall|i: int| k <= i < n ==> l[i] == '\n',
        k > 0 ==> l[k - 1] != '\n',
    ensures
        before_feeds(l, n) == k,
    decreases n,
{
    if k < n {
        lemma_feeds(l, n - 1, k);
    }
}

/// Time goes forward: what is not over yet is no time ago.
pub proof fn lemma_how_long_ago(now: Instant, t: Instant)
    ensures
        t.ns <= now.ns ==> t.ns + since(now, t) == now.ns,
        t.ns > now.ns ==> since(now, t) == 0,
        crate::time::secs(1) == 1000 * crate::time::millis(1),
        crate::time::millis(1) == 1_000_000,
{
}

} // verus!
