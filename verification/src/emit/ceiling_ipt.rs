//! The ceiling on fallback control traffic, for `iptables-legacy-restore`: the form for a member
//! whose kernel has no nftables. The chain's name is the label.

use vstd::prelude::*;

use crate::derive::{CeilingV, MemberView};
use crate::error::Error;
use crate::model::views;
use crate::text::lines::{
    begins, behind, chomp, ended, lemma_lines_plain, lemma_lines_push_chomped, lines, lines_of,
    starts_with, strip_prefix, word_end,
};
use crate::text::{
    cat2, cat3, chars_of, dec, dec_u64, is_space, is_space_char, lemma_texts_push, parse_u64,
    parse_uint, split, split_at_first, split_on, split_once, str_eq, text_of, texts, trim, trimmed,
};

pub mod limits;

verus! {

/// The chain that hangs off the output hook.
pub const OUT_CHAIN: &'static str = "cfab-out";

pub open spec fn ceil_chain_of(zone: Seq<char>) -> Seq<char> {
    "cfab-ceil-"@ + zone
}

/// The ceiling chain of a zone.
pub fn ceil_chain(zone: &str) -> (r: String)
    ensures
        r@ == ceil_chain_of(zone@),
{
    cat2("cfab-ceil-", zone)
}

/// Which backend applies the marks on a member.
#[derive(Debug, Clone, Copy, PartialEq, Eq, Structural)]
pub enum Backend {
    Nft,
    IptablesLegacy,
}

pub open spec fn backend_word(b: Backend) -> Seq<char> {
    match b {
        Backend::Nft => "nft"@,
        Backend::IptablesLegacy => "iptables-legacy"@,
    }
}

pub open spec fn backend_line(b: Backend) -> Seq<char> {
    match b {
        Backend::Nft => "mark: nft"@,
        Backend::IptablesLegacy =>
            "mark: iptables-legacy (ceiling only; bulk DSCP clamp unavailable on this kernel)"@,
    }
}

/// The backend that a record names, if it names one.
pub open spec fn backend_of(s: Seq<char>) -> Option<Backend> {
    if trim(s) == "nft"@ {
        Some(Backend::Nft)
    } else if trim(s) == "iptables-legacy"@ {
        Some(Backend::IptablesLegacy)
    } else {
        None
    }
}

impl Backend {
    pub fn as_str(self) -> (r: &'static str)
        ensures
            r@ == backend_word(self),
    {
        match self {
            Backend::Nft => "nft",
            Backend::IptablesLegacy => "iptables-legacy",
        }
    }

    /// The line that says it in a status.
    pub fn status_line(self) -> (r: &'static str)
        ensures
            r@ == backend_line(self),
    {
        match self {
            Backend::Nft => "mark: nft",
            Backend::IptablesLegacy =>
                "mark: iptables-legacy (ceiling only; bulk DSCP clamp unavailable on this kernel)",
        }
    }

    pub fn parse(s: &str) -> (r: Option<Backend>)
        ensures
            r == backend_of(s@),
    {
        let t = trimmed(s);
        if str_eq(t.as_str(), "nft") {
            Some(Backend::Nft)
        } else if str_eq(t.as_str(), "iptables-legacy") {
            Some(Backend::IptablesLegacy)
        } else {
            None
        }
    }
}

/// What is recorded of a backend reads back as that backend.
pub proof fn lemma_backend_round_trip(b: Backend)
    ensures
        backend_of(backend_word(b)) == Some(b),
{
    reveal_strlit("nft");
    reveal_strlit("iptables-legacy");
    let w = backend_word(b);
    assert(w.len() > 0);
    assert(crate::text::skip_space(w, 0) == 0);
    assert(crate::text::back_space(w, 0, w.len() as int) == w.len());
    assert(trim(w) =~= w);
    assert("nft"@.len() != "iptables-legacy"@.len());
}

/// Where the backend is recorded.
pub fn record_path(run_dir: &str) -> (r: String)
    ensures
        r@ == run_dir@ + "/mark.backend"@,
{
    cat2(run_dir, "/mark.backend")
}

/// The recorded backend: what the record's text names, where there is a record.
pub fn recorded(text: &Option<String>) -> (r: Option<Backend>)
    ensures
        r == match *text {
            Some(t) => backend_of(t@),
            None => None,
        },
{
    match text {
        Some(t) => Backend::parse(t.as_str()),
        None => None,
    }
}

// ---- the rules ----

/// The first `n` ceiling chains, made.
pub open spec fn chain_lines(c: Seq<CeilingV>, n: int) -> Seq<char>
    decreases n,
{
    if n <= 0 {
        seq![]
    } else {
        chain_lines(c, n - 1) + (":"@ + ceil_chain_of(c[n - 1].zone) + " - [0:0]\n"@)
    }
}

/// The first `n` ceiling chains, emptied.
pub open spec fn flush_lines(c: Seq<CeilingV>, n: int) -> Seq<char>
    decreases n,
{
    if n <= 0 {
        seq![]
    } else {
        flush_lines(c, n - 1) + ("-F "@ + ceil_chain_of(c[n - 1].zone) + "\n"@)
    }
}

/// The jump into a ceiling chain. It carries the match: a ceiling chain ends in an unconditional
/// drop, so that only what the ceiling is for may enter it.
pub open spec fn jump_line(c: CeilingV) -> Seq<char> {
    "-A cfab-out -o "@ + c.ifname + " -p 89 -j "@ + ceil_chain_of(c.zone) + "\n"@
}

pub open spec fn jump_lines(c: Seq<CeilingV>, n: int) -> Seq<char>
    decreases n,
{
    if n <= 0 {
        seq![]
    } else {
        jump_lines(c, n - 1) + jump_line(c[n - 1])
    }
}

/// The two rules of a ceiling chain: under the rate a packet returns, over it the last rule drops
/// and counts it.
pub open spec fn limit_lines_of(c: CeilingV) -> Seq<char> {
    "-A "@ + ceil_chain_of(c.zone) + " -m limit --limit "@ + dec(c.rate_pps as nat)
        + "/second --limit-burst "@ + dec(c.burst_pkts as nat) + " -j RETURN\n"@ + "-A "@
        + ceil_chain_of(c.zone) + " -j DROP\n"@
}

pub open spec fn limit_lines(c: Seq<CeilingV>, n: int) -> Seq<char>
    decreases n,
{
    if n <= 0 {
        seq![]
    } else {
        limit_lines(c, n - 1) + limit_lines_of(c[n - 1])
    }
}

/// The whole input. Every chain is emptied before it is filled: to name one creates it where it
/// is missing and leaves its rules in place where it is not.
pub open spec fn restore_text(c: Seq<CeilingV>) -> Seq<char> {
    let n = c.len() as int;
    "*mangle\n"@ + ":cfab-out - [0:0]\n"@ + chain_lines(c, n) + "-F cfab-out\n"@ + flush_lines(c, n)
        + jump_lines(c, n) + limit_lines(c, n) + "COMMIT\n"@
}

/// The input for this member's ceilings.
pub fn generate(view: &MemberView) -> (r: Result<String, Error>)
    ensures
        r is Ok,
        r->Ok_0@ == restore_text(view@.ceilings),
{
    let c = &view.ceilings;
    let ghost cv = view@.ceilings;
    let mut chains = String::new();
    let mut flushes = String::new();
    let mut jumps = String::new();
    let mut limits = String::new();
    let mut i: usize = 0;
    while i < c.len()
        invariant
            i <= c@.len(),
            cv == views(c@),
            chains@ == chain_lines(cv, i as int),
            flushes@ == flush_lines(cv, i as int),
            jumps@ == jump_lines(cv, i as int),
            limits@ == limit_lines(cv, i as int),
        decreases c@.len() - i,
    {
        let ce = &c[i];
        assert(ce@ == cv[i as int]);
        let chain = ceil_chain(ce.zone.as_str());
        chains.append(cat3(":", chain.as_str(), " - [0:0]\n").as_str());
        flushes.append(cat3("-F ", chain.as_str(), "\n").as_str());
        let mut j = String::from_str("-A cfab-out -o ");
        j.append(ce.ifname.as_str());
        j.append(" -p 89 -j ");
        j.append(chain.as_str());
        j.append("\n");
        jumps.append(j.as_str());
        let mut l = String::from_str("-A ");
        l.append(chain.as_str());
        l.append(" -m limit --limit ");
        l.append(dec_u64(ce.rate_pps as u64).as_str());
        l.append("/second --limit-burst ");
        l.append(dec_u64(ce.burst_pkts as u64).as_str());
        l.append(" -j RETURN\n");
        l.append("-A ");
        l.append(chain.as_str());
        l.append(" -j DROP\n");
        limits.append(l.as_str());
        i = i + 1;
    }
    let mut out = String::from_str("*mangle\n");
    out.append(":cfab-out - [0:0]\n");
    out.append(chains.as_str());
    out.append("-F cfab-out\n");
    out.append(flushes.as_str());
    out.append(jumps.as_str());
    out.append(limits.as_str());
    out.append("COMMIT\n");
    Ok(out)
}

// ---- reading a dump ----

/// Is the line one of ours?
pub open spec fn our_line(l: Seq<char>) -> bool {
    begins(l, ":cfab-"@) || begins(l, "-A cfab-"@)
}

/// Those of the first `n` lines that are ours.
pub open spec fn our_lines(l: Seq<Seq<char>>, n: int) -> Seq<char>
    decreases n,
{
    if n <= 0 {
        seq![]
    } else if our_line(l[n - 1]) {
        our_lines(l, n - 1) + (l[n - 1] + "\n"@)
    } else {
        our_lines(l, n - 1)
    }
}

/// The lines of a dump that are ours. What is not is not read.
pub fn ours(save_output: &str) -> (r: String)
    ensures
        r@ == our_lines(lines(save_output@), lines(save_output@).len() as int),
{
    let l = lines_of(save_output);
    let ghost lv = lines(save_output@);
    assert(texts(l@).len() == l@.len());
    let mut out = String::new();
    let mut i: usize = 0;
    while i < l.len()
        invariant
            i <= l@.len(),
            texts(l@) == lv,
            out@ == our_lines(lv, i as int),
        decreases l@.len() - i,
    {
        assert(lv[i as int] == l@[i as int]@);
        if starts_with(l[i].as_str(), ":cfab-") || starts_with(l[i].as_str(), "-A cfab-") {
            out.append(cat2(l[i].as_str(), "\n").as_str());
        }
        i = i + 1;
    }
    out
}

/// The chain that a line makes, if it makes one of ours: what stands behind the colon, up to the
/// first white space.
pub open spec fn chain_in(l: Seq<char>) -> Option<Seq<char>> {
    if begins(l, ":cfab-"@) {
        Some(l.subrange(1, word_end(l, 1)))
    } else {
        None
    }
}

/// The chains that the first `n` lines make.
pub open spec fn chains_of(l: Seq<Seq<char>>, n: int) -> Seq<Seq<char>>
    decreases n,
{
    if n <= 0 {
        seq![]
    } else {
        match chain_in(l[n - 1]) {
            Some(c) => chains_of(l, n - 1).push(c),
            None => chains_of(l, n - 1),
        }
    }
}

fn name_behind_colon(l: &str) -> (r: String)
    requires
        begins(l@, ":cfab-"@),
    ensures
        Some(r@) == chain_in(l@),
{
    let v = chars_of(l);
    proof {
        reveal_strlit(":cfab-");
    }
    let mut e: usize = 1;
    while e < v.len() && !is_space_char(v[e])
        invariant
            1 <= e <= v@.len(),
            v@ == l@,
            word_end(l@, 1) == word_end(l@, e as int),
        decreases v@.len() - e,
    {
        e = e + 1;
    }
    text_of(&v, 1, e)
}

/// Every chain of ours in a dump, in its order: exact names, each one that the dump holds.
pub fn chains_in(save_output: &str) -> (r: Vec<String>)
    ensures
        texts(r@) == chains_of(lines(save_output@), lines(save_output@).len() as int),
{
    broadcast use lemma_texts_push;

    let l = lines_of(save_output);
    let ghost lv = lines(save_output@);
    assert(texts(l@).len() == l@.len());
    let mut out: Vec<String> = Vec::new();
    assert(texts(out@) =~= seq![]);
    let mut i: usize = 0;
    while i < l.len()
        invariant
            i <= l@.len(),
            texts(l@) == lv,
            texts(out@) == chains_of(lv, i as int),
        decreases l@.len() - i,
    {
        assert(lv[i as int] == l@[i as int]@);
        if starts_with(l[i].as_str(), ":cfab-") {
            out.push(name_behind_colon(l[i].as_str()));
        }
        i = i + 1;
    }
    out
}

/// The counter of a line, if the line is the zone's drop rule.
pub open spec fn drop_in(l: Seq<char>, zone: Seq<char>) -> Option<nat> {
    match behind(l, "["@) {
        Some(rest) => match split_once(rest, ']') {
            Some(p) => if trim(p.1) == "-A "@ + ceil_chain_of(zone) + " -j DROP"@ {
                parse_uint(split(p.0, ':')[0], u64::MAX as nat)
            } else {
                None
            },
            None => None,
        },
        None => None,
    }
}

/// The counter of the first line from `i` on that has one.
pub open spec fn drop_from(l: Seq<Seq<char>>, zone: Seq<char>, i: int) -> Option<nat>
    decreases l.len() - i,
{
    if i >= l.len() {
        None
    } else if drop_in(l[i], zone) is Some {
        drop_in(l[i], zone)
    } else {
        drop_from(l, zone, i + 1)
    }
}

fn drop_of(l: &str, zone: &str) -> (r: Option<u64>)
    ensures
        match r {
            Some(n) => drop_in(l@, zone@) == Some(n as nat),
            None => drop_in(l@, zone@) is None,
        },
{
    match strip_prefix(l, "[") {
        Some(rest) => match split_at_first(rest.as_str(), ']') {
            Some(p) => {
                let tail = cat3("-A ", ceil_chain(zone).as_str(), " -j DROP");
                if str_eq(trimmed(p.1.as_str()).as_str(), tail.as_str()) {
                    let parts = split_on(p.0.as_str(), ':');
                    assert(texts(parts@).len() == parts@.len());
                    assert(split(p.0@, ':').len() > 0);
                    assert(texts(parts@)[0] == parts@[0]@);
                    parse_u64(parts[0].as_str(), u64::MAX)
                } else {
                    None
                }
            },
            None => None,
        },
        None => None,
    }
}

/// How many packets the zone's ceiling has dropped, from a dump with counters; nothing where the
/// rule is not in the dump.
pub fn drop_packets(save_c_output: &str, zone: &str) -> (r: Option<u64>)
    ensures
        match r {
            Some(n) => drop_from(lines(save_c_output@), zone@, 0) == Some(n as nat),
            None => drop_from(lines(save_c_output@), zone@, 0) is None,
        },
{
    let l = lines_of(save_c_output);
    let ghost lv = lines(save_c_output@);
    assert(texts(l@).len() == l@.len());
    let mut i: usize = 0;
    while i < l.len()
        invariant
            i <= l@.len(),
            texts(l@) == lv,
            lv.len() == l@.len(),
            lv == lines(save_c_output@),
            drop_from(lv, zone@, 0) == drop_from(lv, zone@, i as int),
        decreases l@.len() - i,
    {
        assert(lv[i as int] == l@[i as int]@);
        match drop_of(l[i].as_str(), zone) {
            Some(n) => {
                return Some(n);
            },
            None => {},
        }
        i = i + 1;
    }
    None
}

/// A member without a ceiling renders an empty rule set that still removes the old one.
pub proof fn lemma_no_ceiling_still_flushes()
    ensures
        restore_text(seq![]) == "*mangle\n"@ + ":cfab-out - [0:0]\n"@ + "-F cfab-out\n"@ + "COMMIT\n"@,
{
    let e: Seq<CeilingV> = seq![];
    assert(restore_text(e) =~= "*mangle\n"@ + ":cfab-out - [0:0]\n"@ + "-F cfab-out\n"@
        + "COMMIT\n"@);
}

proof fn lemma_flush_within(c: Seq<CeilingV>, n: int, i: int) -> (b: Seq<char>)
    requires
        0 <= i < n,
    ensures
        flush_lines(c, n) == flush_lines(c, i) + ("-F "@ + ceil_chain_of(c[i].zone) + "\n"@) + b,
    decreases n,
{
    let line = "-F "@ + ceil_chain_of(c[i].zone) + "\n"@;
    if i == n - 1 {
        assert(flush_lines(c, n) =~= flush_lines(c, i) + line + seq![]);
        seq![]
    } else {
        let b = lemma_flush_within(c, n - 1, i);
        let last = "-F "@ + ceil_chain_of(c[n - 1].zone) + "\n"@;
        assert(flush_lines(c, n) =~= flush_lines(c, i) + line + (b + last));
        b + last
    }
}

proof fn lemma_jump_within(c: Seq<CeilingV>, n: int, i: int) -> (b: Seq<char>)
    requires
        0 <= i < n,
    ensures
        jump_lines(c, n) == jump_lines(c, i) + jump_line(c[i]) + b,
    decreases n,
{
    if i == n - 1 {
        assert(jump_lines(c, n) =~= jump_lines(c, i) + jump_line(c[i]) + seq![]);
        seq![]
    } else {
        let b = lemma_jump_within(c, n - 1, i);
        let last = jump_line(c[n - 1]);
        assert(jump_lines(c, n) =~= jump_lines(c, i) + jump_line(c[i]) + (b + last));
        b + last
    }
}

proof fn lemma_limit_within(c: Seq<CeilingV>, n: int, i: int) -> (b: Seq<char>)
    requires
        0 <= i < n,
    ensures
        limit_lines(c, n) == limit_lines(c, i) + limit_lines_of(c[i]) + b,
    decreases n,
{
    if i == n - 1 {
        assert(limit_lines(c, n) =~= limit_lines(c, i) + limit_lines_of(c[i]) + seq![]);
        seq![]
    } else {
        let b = lemma_limit_within(c, n - 1, i);
        let last = limit_lines_of(c[n - 1]);
        assert(limit_lines(c, n) =~= limit_lines(c, i) + limit_lines_of(c[i]) + (b + last));
        b + last
    }
}

proof fn lemma_regroup(
    head: Seq<char>,
    a: Seq<Seq<char>>,
    b: Seq<Seq<char>>,
    c: Seq<Seq<char>>,
    tail: Seq<char>,
)
    ensures
        head + (a[0] + a[1] + a[2]) + (b[0] + b[1] + b[2]) + (c[0] + c[1] + c[2]) + tail == (head
            + a[0]) + a[1] + (a[2] + b[0]) + b[1] + (b[2] + c[0]) + c[1] + (c[2] + tail),
{
    let x = (head + a[0]) + a[1];
    assert(head + (a[0] + a[1] + a[2]) =~= x + a[2]);
    let y = x + (a[2] + b[0]) + b[1];
    assert(x + a[2] + (b[0] + b[1] + b[2]) =~= y + b[2]);
    let z = y + (b[2] + c[0]) + c[1];
    assert(y + b[2] + (c[0] + c[1] + c[2]) =~= z + c[2]);
    assert(z + c[2] + tail =~= z + (c[2] + tail));
}

/// The three texts stand in the whole one, each behind the one before it.
pub open spec fn in_order(
    whole: Seq<char>,
    first: Seq<char>,
    second: Seq<char>,
    third: Seq<char>,
) -> bool {
    exists|a: Seq<char>, b: Seq<char>, c: Seq<char>, d: Seq<char>|
        #![trigger a + first + b + second + c + third + d]
        whole == a + first + b + second + c + third + d
}

/// Every ceiling is rendered, and its chain is emptied before it is filled: first the flush of the
/// chain, then the jump into it, which matches one protocol on one interface, then its limit at
/// the derived rate and burst and the drop behind that.
pub proof fn lemma_every_ceiling_is_rendered(c: Seq<CeilingV>, i: int)
    requires
        0 <= i < c.len(),
    ensures
        in_order(
            restore_text(c),
            "-F "@ + ceil_chain_of(c[i].zone) + "\n"@,
            jump_line(c[i]),
            limit_lines_of(c[i]),
        ),
{
    let n = c.len() as int;
    let flush = "-F "@ + ceil_chain_of(c[i].zone) + "\n"@;
    let f = lemma_flush_within(c, n, i);
    let j = lemma_jump_within(c, n, i);
    let l = lemma_limit_within(c, n, i);
    let head = "*mangle\n"@ + ":cfab-out - [0:0]\n"@ + chain_lines(c, n) + "-F cfab-out\n"@
        + flush_lines(c, i);
    lemma_regroup(
        "*mangle\n"@ + ":cfab-out - [0:0]\n"@ + chain_lines(c, n) + "-F cfab-out\n"@,
        seq![flush_lines(c, i), flush, f],
        seq![jump_lines(c, i), jump_line(c[i]), j],
        seq![limit_lines(c, i), limit_lines_of(c[i]), l],
        "COMMIT\n"@,
    );
    assert(restore_text(c) == head + flush + (f + jump_lines(c, i)) + jump_line(c[i]) + (j
        + limit_lines(c, i)) + limit_lines_of(c[i]) + (l + "COMMIT\n"@));
}

// ---- what is kept of a dump ----

proof fn lemma_word_end_within(s: Seq<char>, t: Seq<char>, i: int)
    requires
        0 <= i <= t.len(),
        s == t || s == t.push('\r'),
    ensures
        word_end(s, i) == word_end(t, i),
        i <= word_end(t, i) <= t.len(),
    decreases t.len() - i,
{
    if i < t.len() && !is_space(t[i]) {
        assert(s[i] == t[i]);
        lemma_word_end_within(s, t, i + 1);
    }
}

/// A carriage return at the end of a line is no part of a chain's name.
proof fn lemma_chain_in_chomped(l: Seq<char>)
    ensures
        chain_in(chomp(l)) == chain_in(l),
{
    reveal_strlit(":cfab-");
    let t = chomp(l);
    let p = ":cfab-"@;
    if t != l {
        assert(l =~= t.push('\r'));
        if begins(l, p) {
            if l.len() == p.len() {
                assert(l.take(6)[5] == '-');
            }
            assert(t.take(6) =~= l.take(6));
        }
        if begins(t, p) {
            assert(t.take(6) =~= l.take(6));
        }
        if begins(t, p) {
            lemma_word_end_within(l, t, 1);
            let e = word_end(t, 1);
            assert(t.subrange(1, e) =~= l.subrange(1, e));
        }
    }
}

proof fn lemma_ours_keep(l: Seq<Seq<char>>, n: int)
    requires
        0 <= n <= l.len(),
        forall|i: int| 0 <= i < l.len() ==> !(#[trigger] l[i]).contains('\n'),
    ensures
        ended(our_lines(l, n)),
        ({
            let k = lines(our_lines(l, n));
            chains_of(k, k.len() as int) == chains_of(l, n)
        }),
    decreases n,
{
    let o = our_lines(l, n);
    let k = lines(o);
    if n <= 0 {
        assert(k.len() == 0);
    } else {
        lemma_ours_keep(l, n - 1);
        let last = l[n - 1];
        let before = our_lines(l, n - 1);
        let kb = lines(before);
        lemma_chain_in_chomped(last);
        if our_line(last) {
            reveal_strlit("\n");
            assert("\n"@ =~= seq!['\n']);
            lemma_lines_push_chomped(before, last);
            assert(k == kb.push(chomp(last)));
            lemma_chains_before(k, kb, kb.len() as int);
        } else {
            assert(chain_in(last) is None);
        }
    }
}

proof fn lemma_chains_before(a: Seq<Seq<char>>, b: Seq<Seq<char>>, n: int)
    requires
        0 <= n <= b.len() <= a.len(),
        forall|i: int| 0 <= i < b.len() ==> a[i] == b[i],
    ensures
        chains_of(a, n) == chains_of(b, n),
    decreases n,
{
    if n > 0 {
        lemma_chains_before(a, b, n - 1);
    }
}

/// What is kept of a dump names the same chains as the dump, in the same order.
pub proof fn lemma_ours_name_the_same_chains(dump: Seq<char>)
    ensures
        ({
            let l = lines(dump);
            let k = lines(our_lines(l, l.len() as int));
            chains_of(k, k.len() as int) == chains_of(l, l.len() as int)
        }),
{
    let l = lines(dump);
    assert forall|i: int| 0 <= i < l.len() implies !(#[trigger] l[i]).contains('\n') by {
        lemma_lines_plain(dump, i);
    }
    lemma_ours_keep(l, l.len() as int);
}

} // verus!
