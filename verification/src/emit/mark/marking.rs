//! The marks read as rules: what becomes of a packet that leaves over a zone's interface.

use vstd::prelude::*;

use crate::derive::{list_of, MemberViewV};
use crate::emit::mark::{all_zone_rules, dscp_rules, mark_text, on_zone, pcp_rules, quoted, zone_rules};
use crate::model::{dscp_text, Dscp, ZoneV};
use crate::text::{dec, join};

verus! {

/// What a packet is to the marks: OSPF, a BFD session, or anything else.
pub enum Traffic {
    Ospf,
    Bfd,
    Bulk,
}

/// What one rule marks.
pub enum Marks {
    All,
    Ospf,
    Bfd,
}

pub enum Mark {
    /// The priority of the frame.
    Priority(u8),
    /// The code point of the packet.
    Dscp(Dscp),
}

/// One rule on what leaves over these interfaces.
pub struct Rule {
    pub ifs: Seq<Seq<char>>,
    pub marks: Marks,
    pub mark: Mark,
    pub comment: Seq<char>,
}

pub open spec fn marks_text(m: Marks) -> Seq<char> {
    match m {
        Marks::All => seq![],
        Marks::Ospf => "ip protocol ospf "@,
        Marks::Bfd => "udp dport 3784-3785 "@,
    }
}

pub open spec fn mark_word(m: Mark) -> Seq<char> {
    match m {
        Mark::Priority(n) => "meta priority set 0:"@ + dec(n as nat),
        Mark::Dscp(Dscp::Cs0) => "ip dscp set cs0"@,
        Mark::Dscp(Dscp::Cs2) => "ip dscp set cs2"@,
        Mark::Dscp(Dscp::Cs6) => "ip dscp set cs6"@,
    }
}

/// A rule as a line of a chain.
#[verifier::opaque]
pub open spec fn rule_text(r: Rule) -> Seq<char> {
    "    oifname { "@ + join(Seq::new(r.ifs.len(), |i: int| "\""@ + r.ifs[i] + "\""@), ","@)
        + " } "@ + marks_text(r.marks) + mark_word(r.mark) + " comment \""@ + r.comment + "\"\n"@
}

pub open spec fn rules_text(r: Seq<Rule>, n: int) -> Seq<char>
    decreases n,
{
    if n <= 0 {
        seq![]
    } else {
        rules_text(r, n - 1) + rule_text(r[n - 1])
    }
}

/// The rules of a zone.
pub open spec fn marks_of(v: MemberViewV, z: ZoneV) -> Seq<Rule> {
    let ifs = list_of(v.zone_ifs, z.name, 0);
    let ctrl = v.fabric.pcp_ctrl;
    let none: Seq<Rule> = seq![];
    let a = if z.pcp == ctrl {
        none
    } else {
        none.push(
            Rule {
                ifs,
                marks: Marks::Ospf,
                mark: Mark::Priority(ctrl),
                comment: "pcp-"@ + z.name + "-ctrl"@,
            },
        ).push(
            Rule {
                ifs,
                marks: Marks::Bfd,
                mark: Mark::Priority(ctrl),
                comment: "pcp-"@ + z.name + "-bfd"@,
            },
        )
    };
    let b = a.push(
        Rule {
            ifs,
            marks: Marks::All,
            mark: Mark::Dscp(z.dscp),
            comment: "dscp-"@ + z.name + "-bulk"@,
        },
    );
    if ifs.len() == 0 {
        none
    } else if !v.fabric.dscp_mark {
        a
    } else if z.dscp == v.dscp_ctrl {
        b
    } else {
        b.push(
            Rule {
                ifs,
                marks: Marks::Ospf,
                mark: Mark::Dscp(v.dscp_ctrl),
                comment: "dscp-"@ + z.name + "-ctrl"@,
            },
        ).push(
            Rule {
                ifs,
                marks: Marks::Bfd,
                mark: Mark::Dscp(v.dscp_ctrl),
                comment: "dscp-"@ + z.name + "-bfd"@,
            },
        )
    }
}

// ---- what becomes of a packet ----

pub open spec fn is_marked(r: Rule, oif: Seq<char>, t: Traffic) -> bool {
    &&& r.ifs.contains(oif)
    &&& match r.marks {
        Marks::All => true,
        Marks::Ospf => t is Ospf,
        Marks::Bfd => t is Bfd,
    }
}

/// The priority that the first `n` rules leave a packet with, if they set one: the last one that
/// matches wins.
pub open spec fn priority_after(r: Seq<Rule>, oif: Seq<char>, t: Traffic, n: int) -> Option<u8>
    decreases n,
{
    if n <= 0 {
        None
    } else if is_marked(r[n - 1], oif, t) && r[n - 1].mark is Priority {
        Some(r[n - 1].mark->Priority_0)
    } else {
        priority_after(r, oif, t, n - 1)
    }
}

/// The code point that the first `n` rules leave a packet with, if they set one.
pub open spec fn dscp_after(r: Seq<Rule>, oif: Seq<char>, t: Traffic, n: int) -> Option<Dscp>
    decreases n,
{
    if n <= 0 {
        None
    } else if is_marked(r[n - 1], oif, t) && r[n - 1].mark is Dscp {
        Some(r[n - 1].mark->Dscp_0)
    } else {
        dscp_after(r, oif, t, n - 1)
    }
}

/// On a zone's interface, control leaves with the control code point and everything else with the
/// zone's own, whatever it came with, where code points are set at all. Control is lifted to the
/// control priority where the zone has another; what is not control keeps its priority.
pub proof fn lemma_what_a_packet_leaves_with(
    v: MemberViewV,
    z: ZoneV,
    oif: Seq<char>,
    t: Traffic,
)
    requires
        list_of(v.zone_ifs, z.name, 0).contains(oif),
    ensures
        ({
            let r = marks_of(v, z);
            let n = r.len() as int;
            let d = dscp_after(r, oif, t, n);
            let p = priority_after(r, oif, t, n);
            &&& !v.fabric.dscp_mark ==> d is None
            &&& v.fabric.dscp_mark && t is Bulk ==> d == Some(z.dscp)
            &&& v.fabric.dscp_mark && !(t is Bulk) ==> d == Some(v.dscp_ctrl)
            &&& t is Bulk ==> p is None
            &&& !(t is Bulk) && z.pcp != v.fabric.pcp_ctrl ==> p == Some(v.fabric.pcp_ctrl)
            &&& z.pcp == v.fabric.pcp_ctrl ==> p is None
        }),
{
    reveal_with_fuel(dscp_after, 6);
    reveal_with_fuel(priority_after, 6);
}

// ---- the text is those rules ----

#[verifier::spinoff_prover]
#[verifier::rlimit(60)]
proof fn lemma_splits()
    ensures
        "ip protocol ospf meta priority set 0:"@ == "ip protocol ospf "@ + "meta priority set 0:"@,
        "udp dport 3784-3785 meta priority set 0:"@ == "udp dport 3784-3785 "@
            + "meta priority set 0:"@,
        " comment \"pcp-"@ == " comment \""@ + "pcp-"@,
        " comment \"dscp-"@ == " comment \""@ + "dscp-"@,
        "-ctrl\"\n"@ == "-ctrl"@ + "\"\n"@,
        "-bfd\"\n"@ == "-bfd"@ + "\"\n"@,
        "-bulk\"\n"@ == "-bulk"@ + "\"\n"@,
        "ip protocol ospf ip dscp set "@ == "ip protocol ospf "@ + "ip dscp set "@,
        "udp dport 3784-3785 ip dscp set "@ == "udp dport 3784-3785 "@ + "ip dscp set "@,
        "ip dscp set cs0"@ == "ip dscp set "@ + "cs0"@,
        "ip dscp set cs2"@ == "ip dscp set "@ + "cs2"@,
        "ip dscp set cs6"@ == "ip dscp set "@ + "cs6"@,
{
    reveal_strlit("ip protocol ospf meta priority set 0:");
    reveal_strlit("udp dport 3784-3785 meta priority set 0:");
    reveal_strlit("ip protocol ospf ");
    reveal_strlit("udp dport 3784-3785 ");
    reveal_strlit("meta priority set 0:");
    reveal_strlit(" comment \"pcp-");
    reveal_strlit(" comment \"dscp-");
    reveal_strlit(" comment \"");
    reveal_strlit("pcp-");
    reveal_strlit("dscp-");
    reveal_strlit("-ctrl\"\n");
    reveal_strlit("-bfd\"\n");
    reveal_strlit("-bulk\"\n");
    reveal_strlit("-ctrl");
    reveal_strlit("-bfd");
    reveal_strlit("-bulk");
    reveal_strlit("\"\n");
    reveal_strlit("ip protocol ospf ip dscp set ");
    reveal_strlit("udp dport 3784-3785 ip dscp set ");
    reveal_strlit("ip dscp set ");
    reveal_strlit("ip dscp set cs0");
    reveal_strlit("ip dscp set cs2");
    reveal_strlit("ip dscp set cs6");
    reveal_strlit("cs0");
    reveal_strlit("cs2");
    reveal_strlit("cs6");
}

/// The same pieces, however they are put together.
proof fn lemma_line(
    c: Seq<char>,
    m: Seq<char>,
    k: Seq<char>,
    d: Seq<char>,
    q: Seq<char>,
    p: Seq<char>,
    z: Seq<char>,
    w: Seq<char>,
    e: Seq<char>,
)
    ensures
        c + m + (k + d) + q + (p + z + w) + e == c + (m + k) + d + (q + p) + z + (w + e),
        m.len() == 0 ==> c + m + (k + d) + q + (p + z + w) + e == c + k + d + (q + p) + z + (w + e),
{
    assert(c + m + (k + d) + q + (p + z + w) + e =~= c + (m + k) + d + (q + p) + z + (w + e));
    if m.len() == 0 {
        assert(m + k =~= k);
    }
}

proof fn lemma_pcp_text(v: MemberViewV, z: ZoneV, a: Rule, b: Rule)
    requires
        z.pcp != v.fabric.pcp_ctrl,
        a.ifs == b.ifs,
        a.marks == Marks::Ospf,
        b.marks == Marks::Bfd,
        a.mark == Mark::Priority(v.fabric.pcp_ctrl),
        b.mark == Mark::Priority(v.fabric.pcp_ctrl),
        a.comment == "pcp-"@ + z.name + "-ctrl"@,
        b.comment == "pcp-"@ + z.name + "-bfd"@,
    ensures
        rule_text(a) + rule_text(b) == pcp_rules(v, z, quoted(a.ifs)),
{
    reveal(rule_text);
    let c = on_zone(quoted(a.ifs));
    let d = dec(v.fabric.pcp_ctrl as nat);
    lemma_splits();
    lemma_line(c, "ip protocol ospf "@, "meta priority set 0:"@, d, " comment \""@, "pcp-"@, z.name, "-ctrl"@, "\"\n"@);
    lemma_line(c, "udp dport 3784-3785 "@, "meta priority set 0:"@, d, " comment \""@, "pcp-"@, z.name, "-bfd"@, "\"\n"@);
    lemma_two(
        rule_text(a),
        c,
        "udp dport 3784-3785 meta priority set 0:"@,
        d,
        " comment \"pcp-"@,
        z.name,
        "-bfd\"\n"@,
    );
}

proof fn lemma_two(
    a: Seq<char>,
    c: Seq<char>,
    k: Seq<char>,
    d: Seq<char>,
    q: Seq<char>,
    z: Seq<char>,
    w: Seq<char>,
)
    ensures
        a + (c + k + d + q + z + w) == a + c + k + d + q + z + w,
{
    assert(a + (c + k + d + q + z + w) =~= a + c + k + d + q + z + w);
}

proof fn lemma_bulk_text(v: MemberViewV, z: ZoneV, a: Rule)
    requires
        a.marks == Marks::All,
        a.mark == Mark::Dscp(z.dscp),
        a.comment == "dscp-"@ + z.name + "-bulk"@,
    ensures
        v.fabric.dscp_mark && z.dscp == v.dscp_ctrl ==> rule_text(a) == dscp_rules(
            v,
            z,
            quoted(a.ifs),
        ),
        rule_text(a) == on_zone(quoted(a.ifs)) + "ip dscp set "@ + dscp_text(z.dscp)
            + " comment \"dscp-"@ + z.name + "-bulk\"\n"@,
{
    reveal(rule_text);
    let c = on_zone(quoted(a.ifs));
    let d = dscp_text(z.dscp);
    lemma_splits();
    lemma_line(c, seq![], "ip dscp set "@, d, " comment \""@, "dscp-"@, z.name, "-bulk"@, "\"\n"@);
}

proof fn lemma_ctrl_text(v: MemberViewV, z: ZoneV, bulk: Rule, a: Rule, b: Rule)
    requires
        v.fabric.dscp_mark,
        z.dscp != v.dscp_ctrl,
        bulk.ifs == a.ifs,
        a.ifs == b.ifs,
        bulk.marks == Marks::All,
        a.marks == Marks::Ospf,
        b.marks == Marks::Bfd,
        bulk.mark == Mark::Dscp(z.dscp),
        a.mark == Mark::Dscp(v.dscp_ctrl),
        b.mark == Mark::Dscp(v.dscp_ctrl),
        bulk.comment == "dscp-"@ + z.name + "-bulk"@,
        a.comment == "dscp-"@ + z.name + "-ctrl"@,
        b.comment == "dscp-"@ + z.name + "-bfd"@,
    ensures
        rule_text(bulk) + (rule_text(a) + rule_text(b)) == dscp_rules(v, z, quoted(a.ifs)),
{
    reveal(rule_text);
    let c = on_zone(quoted(a.ifs));
    let d = dscp_text(v.dscp_ctrl);
    lemma_bulk_text(v, z, bulk);
    lemma_splits();
    lemma_line(c, "ip protocol ospf "@, "ip dscp set "@, d, " comment \""@, "dscp-"@, z.name, "-ctrl"@, "\"\n"@);
    lemma_line(c, "udp dport 3784-3785 "@, "ip dscp set "@, d, " comment \""@, "dscp-"@, z.name, "-bfd"@, "\"\n"@);
    lemma_two(
        rule_text(a),
        c,
        "udp dport 3784-3785 ip dscp set "@,
        d,
        " comment \"dscp-"@,
        z.name,
        "-bfd\"\n"@,
    );
}

proof fn lemma_put_together(base: Seq<char>, a: Seq<char>, b: Seq<char>, c: Seq<char>)
    ensures
        base + a + b + c == base + (a + (b + c)),
        seq![] + a + b == a + b,
        base + seq![] == base,
{
    assert(base + a + b + c =~= base + (a + (b + c)));
    assert(seq![] + a + b =~= a + b);
    assert(base + seq![] =~= base);
}

proof fn lemma_steps(r: Seq<Rule>, k: int)
    requires
        0 <= k,
    ensures
        rules_text(r, 0) == Seq::<char>::empty(),
        rules_text(r, k + 1) == rules_text(r, k) + rule_text(r[k]),
        rules_text(r, k + 2) == rules_text(r, k) + rule_text(r[k]) + rule_text(r[k + 1]),
        rules_text(r, k + 3) == rules_text(r, k) + rule_text(r[k]) + rule_text(r[k + 1])
            + rule_text(r[k + 2]),
{
    assert(rules_text(r, k + 1) == rules_text(r, k) + rule_text(r[k]));
    assert(rules_text(r, k + 2) == rules_text(r, k + 1) + rule_text(r[k + 1]));
    assert(rules_text(r, k + 3) == rules_text(r, k + 2) + rule_text(r[k + 2]));
}

#[verifier::spinoff_prover]
#[verifier::rlimit(60)]
proof fn lemma_zone_text(v: MemberViewV, z: ZoneV)
    ensures
        zone_rules(v, z) == rules_text(marks_of(v, z), marks_of(v, z).len() as int),
{
    let r = marks_of(v, z);
    let ifs = list_of(v.zone_ifs, z.name, 0);
    let q = quoted(ifs);
    if ifs.len() == 0 {
        assert(rules_text(r, 0) == zone_rules(v, z));
    } else {
        let k: int = if z.pcp == v.fabric.pcp_ctrl {
            0
        } else {
            2
        };
        lemma_steps(r, 0);
        lemma_steps(r, k);
        let base = rules_text(r, k);
        assert(base == pcp_rules(v, z, q)) by {
            if k == 2 {
                lemma_pcp_text(v, z, r[0], r[1]);
                lemma_put_together(base, rule_text(r[0]), rule_text(r[1]), seq![]);
            }
        }
        if v.fabric.dscp_mark {
            lemma_bulk_text(v, z, r[k]);
            if z.dscp != v.dscp_ctrl {
                lemma_ctrl_text(v, z, r[k], r[k + 1], r[k + 2]);
                lemma_put_together(
                    base,
                    rule_text(r[k]),
                    rule_text(r[k + 1]),
                    rule_text(r[k + 2]),
                );
            }
        } else {
            lemma_put_together(base, seq![], seq![], seq![]);
        }
    }
}

/// The rules of the first `n` zones, in their order.
pub open spec fn marks_upto(v: MemberViewV, n: int) -> Seq<Rule>
    decreases n,
{
    if n <= 0 {
        seq![]
    } else {
        marks_upto(v, n - 1) + marks_of(v, v.fabric.zones[n - 1])
    }
}

proof fn lemma_texts_joined(a: Seq<Rule>, b: Seq<Rule>, n: int)
    requires
        0 <= n <= b.len(),
    ensures
        rules_text(a + b, a.len() + n) == rules_text(a, a.len() as int) + rules_text(b, n),
    decreases n,
{
    if n == 0 {
        lemma_texts_taken(a, a + b, a.len() as int);
        assert(rules_text(a, a.len() as int) + rules_text(b, 0) =~= rules_text(a, a.len() as int));
    } else {
        lemma_texts_joined(a, b, n - 1);
        assert((a + b)[a.len() + n - 1] == b[n - 1]);
        assert(rules_text(a, a.len() as int) + rules_text(b, n - 1) + rule_text(b[n - 1])
            =~= rules_text(a, a.len() as int) + (rules_text(b, n - 1) + rule_text(b[n - 1])));
    }
}

proof fn lemma_texts_taken(a: Seq<Rule>, b: Seq<Rule>, n: int)
    requires
        n <= a.len() <= b.len(),
        forall|i: int| 0 <= i < a.len() ==> a[i] == b[i],
    ensures
        rules_text(a, n) == rules_text(b, n),
    decreases n,
{
    if n > 0 {
        lemma_texts_taken(a, b, n - 1);
    }
}

proof fn lemma_marks_text(v: MemberViewV, n: int)
    ensures
        all_zone_rules(v, n) == rules_text(marks_upto(v, n), marks_upto(v, n).len() as int),
    decreases n,
{
    if n > 0 {
        let z = v.fabric.zones[n - 1];
        lemma_marks_text(v, n - 1);
        lemma_zone_text(v, z);
        lemma_texts_joined(marks_upto(v, n - 1), marks_of(v, z), marks_of(v, z).len() as int);
    }
}

/// The marks are one chain on what the host sends, replaced as a whole: the rules of each zone in
/// the order of the zones, and no others.
pub proof fn lemma_the_marks_are_their_rules(v: MemberViewV)
    ensures
        ({
            let r = marks_upto(v, v.fabric.zones.len() as int);
            mark_text(v) == "table inet cfab\n"@ + "delete table inet cfab\n"@
                + "table inet cfab {\n"@ + "  chain out {\n"@
                + "    type filter hook output priority mangle;\n"@ + rules_text(
                r,
                r.len() as int,
            ) + "  }\n}\n"@
        }),
{
    lemma_marks_text(v, v.fabric.zones.len() as int);
}

} // verus!
