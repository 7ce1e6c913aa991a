//! The forward policy read as rules: what it lets pass.

use vstd::prelude::*;

use crate::derive::{list_of, MemberViewV};
use crate::emit::policy::{
    chain_head, if_set, owned_set, pair_rule, pair_rules, policy_tail, policy_text, workload_rule,
    workload_rules, workload_rules_of, zone_sets,
};
use crate::model::WorkloadV;
use crate::text::{fit, join};

verus! {

/// What a rule asks of one of a packet's interfaces.
pub enum Side {
    /// Nothing.
    Any,
    /// To be in a set.
    In(Seq<char>),
    /// Not to be in a set.
    NotIn(Seq<char>),
    /// To be this one.
    Is(Seq<char>),
}

/// What a rule asks of a packet's connection.
pub enum State {
    Any,
    Invalid,
    /// It belongs to one that was let through before.
    Known,
}

/// One rule: what it matches, whether it counts, and what becomes of what it matches.
pub struct Rule {
    pub iif: Side,
    pub oif: Side,
    pub state: State,
    pub counts: bool,
    /// `Some(true)` lets it pass, `Some(false)` drops it, and `None` goes on to the next rule.
    pub verdict: Option<bool>,
    pub comment: Seq<char>,
}

// ---- how a rule is written ----

pub open spec fn side_text(key: Seq<char>, s: Side) -> Seq<char> {
    match s {
        Side::Any => seq![],
        Side::In(set) => key + " @"@ + set + " "@,
        Side::NotIn(set) => key + " != @"@ + set + " "@,
        Side::Is(name) => key + " \""@ + name + "\" "@,
    }
}

pub open spec fn state_text(s: State) -> Seq<char> {
    match s {
        State::Any => seq![],
        State::Invalid => "ct state invalid "@,
        State::Known => "ct state established,related "@,
    }
}

/// The word for letting a packet pass, or for dropping it.
pub open spec fn verdict_word(passes: bool) -> Seq<char> {
    if passes {
        "accept"@
    } else {
        "drop"@
    }
}

/// A rule as a line of a chain.
#[verifier::opaque]
pub open spec fn rule_text(r: Rule) -> Seq<char> {
    "    "@ + side_text("iifname"@, r.iif) + side_text("oifname"@, r.oif) + state_text(r.state) + (
    if r.counts {
        "counter "@
    } else {
        seq![]
    }) + (match r.verdict {
        Some(passes) => verdict_word(passes) + " "@,
        None => seq![],
    }) + "comment \""@ + r.comment + "\"\n"@
}

pub open spec fn rules_text(r: Seq<Rule>, n: int) -> Seq<char>
    decreases n,
{
    if n <= 0 {
        seq![]
    } else {
        rules_text(r, n - 1) + rule_text(r[n - 1])
    }
}

/// A set of interfaces, by their names.
pub open spec fn set_text(name: Seq<char>, ifs: Seq<Seq<char>>) -> Seq<char> {
    "  set "@ + name + " { type ifname; elements = { "@ + join(
        Seq::new(ifs.len(), |i: int| "\""@ + ifs[i] + "\""@),
        ","@,
    ) + " } }\n"@
}

/// A chain that sees what is forwarded: what becomes of a packet that no rule decides on, and
/// the rules.
pub open spec fn chain_text(passes: bool, r: Seq<Rule>) -> Seq<char> {
    "  chain forward {\n    type filter hook forward priority filter; policy "@ + verdict_word(
        passes,
    ) + ";\n"@ + rules_text(r, r.len() as int) + "  }\n"@
}

// ---- the rules of a member ----

pub open spec fn drops(iif: Side, oif: Side, comment: Seq<char>) -> Rule {
    Rule { iif, oif, state: State::Any, counts: true, verdict: Some(false), comment }
}

pub open spec fn passes(iif: Side, oif: Side, comment: Seq<char>) -> Rule {
    Rule { iif, oif, state: State::Any, counts: true, verdict: Some(true), comment }
}

/// The rules that stand before every other: administration never passes, what is none of ours
/// does, and so does what belongs to a connection that was let through.
pub open spec fn first_rules() -> Seq<Rule> {
    seq![
        drops(Side::In("admin"@), Side::Any, "admin-in"@),
        drops(Side::Any, Side::In("admin"@), "admin-out"@),
        passes(Side::NotIn("cfab"@), Side::NotIn("cfab"@), "foreign-transit"@),
        Rule {
            iif: Side::Any,
            oif: Side::Any,
            state: State::Invalid,
            counts: true,
            verdict: None,
            comment: "ct-invalid-seen"@,
        },
        Rule {
            iif: Side::Any,
            oif: Side::Any,
            state: State::Known,
            counts: false,
            verdict: Some(true),
            comment: "return-of-allowed"@,
        },
    ]
}

/// A rule for each declared pair of zones.
pub open spec fn zone_rules(p: Seq<(Seq<char>, Seq<char>)>, n: int) -> Seq<Rule>
    decreases n,
{
    if n <= 0 {
        seq![]
    } else {
        zone_rules(p, n - 1).push(
            passes(
                Side::In(p[n - 1].0),
                Side::In(p[n - 1].1),
                "allow-"@ + p[n - 1].0 + "-"@ + p[n - 1].1,
            ),
        )
    }
}

/// Two rules for each zone that a workload may reach, one each way.
pub open spec fn leg_rules(w: WorkloadV, n: int) -> Seq<Rule>
    decreases n,
{
    if n <= 0 {
        seq![]
    } else {
        let leg = "cfab-work-"@ + fit(w.name, 5);
        let z = w.allow[n - 1];
        leg_rules(w, n - 1).push(
            passes(Side::Is(leg), Side::In(z), "allow-"@ + w.name + "-"@ + z),
        ).push(passes(Side::In(z), Side::Is(leg), "allow-"@ + z + "-"@ + w.name))
    }
}

pub open spec fn all_leg_rules(w: Seq<WorkloadV>, n: int) -> Seq<Rule>
    decreases n,
{
    if n <= 0 {
        seq![]
    } else {
        all_leg_rules(w, n - 1) + leg_rules(w[n - 1], w[n - 1].allow.len() as int)
    }
}

pub open spec fn rules_of(v: MemberViewV) -> Seq<Rule> {
    (first_rules() + zone_rules(v.fabric.forward_allow, v.fabric.forward_allow.len() as int)
        + all_leg_rules(v.workloads, v.workloads.len() as int)).push(
        Rule {
            iif: Side::Any,
            oif: Side::Any,
            state: State::Any,
            counts: true,
            verdict: None,
            comment: "default-deny"@,
        },
    )
}

// ---- what becomes of a packet ----

/// A packet that is to be forwarded.
pub struct Packet {
    pub iif: Seq<char>,
    pub oif: Seq<char>,
    /// It belongs to a connection that was let through before.
    pub known: bool,
    /// It belongs to no connection that there can be.
    pub invalid: bool,
}

/// The interfaces in a set of the table: those of the administration, ours, or a zone's.
pub open spec fn in_set(v: MemberViewV, set: Seq<char>) -> Seq<Seq<char>> {
    if set == "admin"@ {
        v.admin_ifs
    } else if set == "cfab"@ {
        v.owned_forwarding
    } else {
        list_of(v.zone_ifs, set, 0)
    }
}

pub open spec fn side_matches(v: MemberViewV, s: Side, name: Seq<char>) -> bool {
    match s {
        Side::Any => true,
        Side::In(set) => in_set(v, set).contains(name),
        Side::NotIn(set) => !in_set(v, set).contains(name),
        Side::Is(x) => x == name,
    }
}

pub open spec fn matches(v: MemberViewV, r: Rule, p: Packet) -> bool {
    &&& side_matches(v, r.iif, p.iif)
    &&& side_matches(v, r.oif, p.oif)
    &&& match r.state {
        State::Any => true,
        State::Invalid => p.invalid,
        State::Known => p.known,
    }
}

/// Does the packet pass, from rule `i` on? The first rule that matches and decides does.
pub open spec fn let_through(
    v: MemberViewV,
    policy: bool,
    r: Seq<Rule>,
    p: Packet,
    i: int,
) -> bool
    decreases r.len() - i,
{
    if i >= r.len() {
        policy
    } else if matches(v, r[i], p) && r[i].verdict is Some {
        r[i].verdict->0
    } else {
        let_through(v, policy, r, p, i + 1)
    }
}

// ---- the text is those rules ----

proof fn lemma_rules_concat(a: Seq<Rule>, b: Seq<Rule>, n: int)
    requires
        0 <= n <= b.len(),
    ensures
        rules_text(a + b, a.len() + n) == rules_text(a, a.len() as int) + rules_text(b, n),
    decreases n,
{
    if n > 0 {
        lemma_rules_concat(a, b, n - 1);
        assert((a + b)[a.len() + n - 1] == b[n - 1]);
        assert(rules_text(a + b, a.len() + n) =~= rules_text(a, a.len() as int) + rules_text(b, n));
    } else {
        lemma_rules_prefix(a + b, a, a.len() as int);
        assert(rules_text(a, a.len() as int) + rules_text(b, 0) =~= rules_text(a, a.len() as int));
    }
}

proof fn lemma_rules_prefix(a: Seq<Rule>, b: Seq<Rule>, n: int)
    requires
        0 <= n <= a.len(),
        n <= b.len(),
        forall|i: int| 0 <= i < n ==> a[i] == b[i],
    ensures
        rules_text(a, n) == rules_text(b, n),
    decreases n,
{
    if n > 0 {
        lemma_rules_prefix(a, b, n - 1);
    }
}

#[verifier::spinoff_prover]
#[verifier::rlimit(60)]
proof fn lemma_pair_text(from: Seq<char>, to: Seq<char>)
    ensures
        pair_rule(from, to) == rule_text(
            passes(Side::In(from), Side::In(to), "allow-"@ + from + "-"@ + to),
        ),
{
    reveal(rule_text);
    reveal_strlit("    iifname @");
    reveal_strlit(" oifname @");
    reveal_strlit(" counter accept comment \"allow-");
    reveal_strlit("-");
    reveal_strlit("\"\n");
    reveal_strlit("    ");
    reveal_strlit("iifname");
    reveal_strlit("oifname");
    reveal_strlit(" @");
    reveal_strlit(" ");
    reveal_strlit("counter ");
    reveal_strlit("accept");
    reveal_strlit("comment \"");
    reveal_strlit("allow-");
    let r = passes(Side::In(from), Side::In(to), "allow-"@ + from + "-"@ + to);
    assert(pair_rule(from, to) =~= rule_text(r));
}

#[verifier::spinoff_prover]
#[verifier::rlimit(60)]
proof fn lemma_leg_text(leg: Seq<char>, name: Seq<char>, zone: Seq<char>)
    ensures
        "    iifname \""@ + leg + "\" oifname @"@ + zone + " counter accept comment \"allow-"@ + name
            + "-"@ + zone + "\"\n"@ == rule_text(
            passes(Side::Is(leg), Side::In(zone), "allow-"@ + name + "-"@ + zone),
        ),
        "    iifname @"@ + zone + " oifname \""@ + leg + "\" counter accept comment \"allow-"@ + zone
            + "-"@ + name + "\"\n"@ == rule_text(
            passes(Side::In(zone), Side::Is(leg), "allow-"@ + zone + "-"@ + name),
        ),
{
    reveal(rule_text);
    reveal_strlit("    iifname @");
    reveal_strlit("    iifname \"");
    reveal_strlit("\" oifname @");
    reveal_strlit(" oifname \"");
    reveal_strlit(" counter accept comment \"allow-");
    reveal_strlit("\" counter accept comment \"allow-");
    reveal_strlit("-");
    reveal_strlit("\"\n");
    reveal_strlit("\" ");
    reveal_strlit(" \"");
    reveal_strlit("    ");
    reveal_strlit("iifname");
    reveal_strlit("oifname");
    reveal_strlit(" @");
    reveal_strlit(" ");
    reveal_strlit("counter ");
    reveal_strlit("accept");
    reveal_strlit("comment \"");
    reveal_strlit("allow-");
    let a = passes(Side::Is(leg), Side::In(zone), "allow-"@ + name + "-"@ + zone);
    let b = passes(Side::In(zone), Side::Is(leg), "allow-"@ + zone + "-"@ + name);
    assert("    iifname \""@ + leg + "\" oifname @"@ + zone + " counter accept comment \"allow-"@
        + name + "-"@ + zone + "\"\n"@ =~= rule_text(a));
    assert("    iifname @"@ + zone + " oifname \""@ + leg + "\" counter accept comment \"allow-"@
        + zone + "-"@ + name + "\"\n"@ =~= rule_text(b));
}

proof fn lemma_pairs_text(p: Seq<(Seq<char>, Seq<char>)>, n: int)
    requires
        0 <= n <= p.len(),
    ensures
        zone_rules(p, n).len() == n,
        pair_rules(p, n) == rules_text(zone_rules(p, n), n),
    decreases n,
{
    if n > 0 {
        lemma_pairs_text(p, n - 1);
        lemma_pair_text(p[n - 1].0, p[n - 1].1);
        lemma_rules_prefix(zone_rules(p, n), zone_rules(p, n - 1), n - 1);
    }
}

/// A line behind another, piece by piece.
proof fn lemma_line_behind(a: Seq<char>, p: Seq<Seq<char>>)
    ensures
        a + p[0] + p[1] + p[2] + p[3] + p[4] + p[5] + p[6] + p[7] + p[8] == a + (p[0] + p[1] + p[2]
            + p[3] + p[4] + p[5] + p[6] + p[7] + p[8]),
{
    assert(a + p[0] + p[1] + p[2] + p[3] + p[4] + p[5] + p[6] + p[7] + p[8] =~= a + (p[0] + p[1]
        + p[2] + p[3] + p[4] + p[5] + p[6] + p[7] + p[8]));
}

#[verifier::spinoff_prover]
#[verifier::rlimit(60)]
proof fn lemma_legs_text(w: WorkloadV, n: int)
    requires
        0 <= n <= w.allow.len(),
    ensures
        leg_rules(w, n).len() == 2 * n,
        workload_rules_of(w, n) == rules_text(leg_rules(w, n), 2 * n),
    decreases n,
{
    if n > 0 {
        lemma_legs_text(w, n - 1);
        let leg = "cfab-work-"@ + fit(w.name, 5);
        let z = w.allow[n - 1];
        let r = leg_rules(w, n);
        lemma_leg_text(leg, w.name, z);
        lemma_rules_prefix(r, leg_rules(w, n - 1), 2 * (n - 1));
        let a = rule_text(r[2 * n - 2]);
        let b = rule_text(r[2 * n - 1]);
        lemma_line_behind(
            a,
            seq![
                "    iifname @"@,
                z,
                " oifname \""@,
                leg,
                "\" counter accept comment \"allow-"@,
                z,
                "-"@,
                w.name,
                "\"\n"@,
            ],
        );
        assert(workload_rule(w, z) == a + b);
        let before = rules_text(leg_rules(w, n - 1), 2 * (n - 1));
        assert(rules_text(r, 2 * n - 1) == before + a);
        assert(before + (a + b) =~= before + a + b);
    }
}

proof fn lemma_all_legs_text(w: Seq<WorkloadV>, n: int)
    requires
        0 <= n <= w.len(),
    ensures
        workload_rules(w, n) == rules_text(all_leg_rules(w, n), all_leg_rules(w, n).len() as int),
    decreases n,
{
    if n > 0 {
        lemma_all_legs_text(w, n - 1);
        let a = all_leg_rules(w, n - 1);
        let m = w[n - 1].allow.len() as int;
        let b = leg_rules(w[n - 1], m);
        lemma_legs_text(w[n - 1], m);
        lemma_rules_concat(a, b, b.len() as int);
    }
}

// ---- the whole table ----

/// The head of the chain, a line after the other.
#[verifier::spinoff_prover]
#[verifier::rlimit(60)]
proof fn lemma_head_lines()
    ensures
        chain_head() == "  chain forward {\n    type filter hook forward priority filter; policy drop;\n"@ + "    iifname @admin counter drop comment \"admin-in\"\n"@ + "    oifname @admin counter drop comment \"admin-out\"\n"@ + "    iifname != @cfab oifname != @cfab counter accept comment \"foreign-transit\"\n"@ + "    ct state invalid counter comment \"ct-invalid-seen\"\n"@ + "    ct state established,related accept comment \"return-of-allowed\"\n"@,
{
    reveal_strlit("  chain forward {\n    type filter hook forward priority filter; policy drop;\n    iifname @admin counter drop comment \"admin-in\"\n    oifname @admin counter drop comment \"admin-out\"\n    iifname != @cfab oifname != @cfab counter accept comment \"foreign-transit\"\n    ct state invalid counter comment \"ct-invalid-seen\"\n    ct state established,related accept comment \"return-of-allowed\"\n");
    reveal_strlit("  chain forward {\n    type filter hook forward priority filter; policy drop;\n");
    reveal_strlit("    iifname @admin counter drop comment \"admin-in\"\n");
    reveal_strlit("    oifname @admin counter drop comment \"admin-out\"\n");
    reveal_strlit("    iifname != @cfab oifname != @cfab counter accept comment \"foreign-transit\"\n");
    reveal_strlit("    ct state invalid counter comment \"ct-invalid-seen\"\n");
    reveal_strlit("    ct state established,related accept comment \"return-of-allowed\"\n");
    let h = chain_head();
    assert(h.subrange(0, 77) =~= "  chain forward {\n    type filter hook forward priority filter; policy drop;\n"@);
    assert(h.subrange(77, 128) =~= "    iifname @admin counter drop comment \"admin-in\"\n"@);
    assert(h.subrange(128, 180) =~= "    oifname @admin counter drop comment \"admin-out\"\n"@);
    assert(h.subrange(180, 259) =~= "    iifname != @cfab oifname != @cfab counter accept comment \"foreign-transit\"\n"@);
    assert(h.subrange(259, 314) =~= "    ct state invalid counter comment \"ct-invalid-seen\"\n"@);
    assert(h.subrange(314, 382) =~= "    ct state established,related accept comment \"return-of-allowed\"\n"@);
    assert(h.len() == 382);
    assert(h =~= h.subrange(0, 77) + h.subrange(77, 128) + h.subrange(128, 180) + h.subrange(180, 259) + h.subrange(259, 314) + h.subrange(314, 382));
}

/// Each of its rules, as it is written.
#[verifier::spinoff_prover]
#[verifier::rlimit(60)]
proof fn lemma_first_rules_text()
    ensures
        rule_text(first_rules()[0]) == "    iifname @admin counter drop comment \"admin-in\"\n"@,
        rule_text(first_rules()[1]) == "    oifname @admin counter drop comment \"admin-out\"\n"@,
        rule_text(first_rules()[2]) == "    iifname != @cfab oifname != @cfab counter accept comment \"foreign-transit\"\n"@,
        rule_text(first_rules()[3]) == "    ct state invalid counter comment \"ct-invalid-seen\"\n"@,
        rule_text(first_rules()[4]) == "    ct state established,related accept comment \"return-of-allowed\"\n"@,
{
    reveal(rule_text);
    assert(rule_text(first_rules()[0]) =~= "    iifname @admin counter drop comment \"admin-in\"\n"@) by {
        reveal_strlit("    iifname @admin counter drop comment \"admin-in\"\n");
        reveal_strlit("    ");
        reveal_strlit("iifname");
        reveal_strlit(" @");
        reveal_strlit("admin");
        reveal_strlit(" ");
        reveal_strlit("counter ");
        reveal_strlit("drop");
        reveal_strlit("comment \"");
        reveal_strlit("admin-in");
        reveal_strlit("\"\n");
    }
    assert(rule_text(first_rules()[1]) =~= "    oifname @admin counter drop comment \"admin-out\"\n"@) by {
        reveal_strlit("    oifname @admin counter drop comment \"admin-out\"\n");
        reveal_strlit("    ");
        reveal_strlit("oifname");
        reveal_strlit(" @");
        reveal_strlit("admin");
        reveal_strlit(" ");
        reveal_strlit("counter ");
        reveal_strlit("drop");
        reveal_strlit("comment \"");
        reveal_strlit("admin-out");
        reveal_strlit("\"\n");
    }
    assert(rule_text(first_rules()[2]) =~= "    iifname != @cfab oifname != @cfab counter accept comment \"foreign-transit\"\n"@) by {
        reveal_strlit("    iifname != @cfab oifname != @cfab counter accept comment \"foreign-transit\"\n");
        reveal_strlit("    ");
        reveal_strlit("iifname");
        reveal_strlit("oifname");
        reveal_strlit(" != @");
        reveal_strlit("cfab");
        reveal_strlit(" ");
        reveal_strlit("counter ");
        reveal_strlit("accept");
        reveal_strlit("comment \"");
        reveal_strlit("foreign-transit");
        reveal_strlit("\"\n");
    }
    assert(rule_text(first_rules()[3]) =~= "    ct state invalid counter comment \"ct-invalid-seen\"\n"@) by {
        reveal_strlit("    ct state invalid counter comment \"ct-invalid-seen\"\n");
        reveal_strlit("    ");
        reveal_strlit("ct state invalid ");
        reveal_strlit("counter ");
        reveal_strlit("comment \"");
        reveal_strlit("ct-invalid-seen");
        reveal_strlit("\"\n");
    }
    assert(rule_text(first_rules()[4]) =~= "    ct state established,related accept comment \"return-of-allowed\"\n"@) by {
        reveal_strlit("    ct state established,related accept comment \"return-of-allowed\"\n");
        reveal_strlit("    ");
        reveal_strlit("ct state established,related ");
        reveal_strlit(" ");
        reveal_strlit("accept");
        reveal_strlit("comment \"");
        reveal_strlit("return-of-allowed");
        reveal_strlit("\"\n");
    }
}

proof fn lemma_head_text()
    ensures
        chain_head() == "  chain forward {\n    type filter hook forward priority filter; policy "@
            + "drop"@ + ";\n"@ + rules_text(first_rules(), 5),
{
    lemma_head_lines();
    lemma_first_rules_text();
    let a = "  chain forward {\n    type filter hook forward priority filter; policy "@;
    let r = first_rules();
    assert(a + "drop"@ + ";\n"@ =~= "  chain forward {\n    type filter hook forward priority filter; policy drop;\n"@) by {
        reveal_strlit("  chain forward {\n    type filter hook forward priority filter; policy ");
        reveal_strlit("drop");
        reveal_strlit(";\n");
        reveal_strlit("  chain forward {\n    type filter hook forward priority filter; policy drop;\n");
    }
    let h = a + "drop"@ + ";\n"@;
    lemma_five(r, h);
}

/// Five rules behind a text.
proof fn lemma_five(r: Seq<Rule>, h: Seq<char>)
    ensures
        h + rules_text(r, 5) == h + rule_text(r[0]) + rule_text(r[1]) + rule_text(r[2]) + rule_text(
            r[3],
        ) + rule_text(r[4]),
{
    reveal_with_fuel(rules_text, 6);
    lemma_behind_text(
        h,
        rule_text(r[0]),
        rule_text(r[1]),
        rule_text(r[2]),
        rule_text(r[3]),
        rule_text(r[4]),
    );
}

proof fn lemma_behind_text(
    h: Seq<char>,
    a: Seq<char>,
    b: Seq<char>,
    c: Seq<char>,
    d: Seq<char>,
    e: Seq<char>,
)
    ensures
        h + (seq![] + a + b + c + d + e) == h + a + b + c + d + e,
{
    assert(h + (seq![] + a + b + c + d + e) =~= h + a + b + c + d + e);
}

/// The sets of a member's zones, from the first to the `n`-th.
pub open spec fn zone_set_texts(v: MemberViewV, n: int) -> Seq<char>
    decreases n,
{
    if n <= 0 {
        seq![]
    } else {
        let name = v.fabric.zones[n - 1].name;
        let ifs = list_of(v.zone_ifs, name, 0);
        zone_set_texts(v, n - 1) + if ifs.len() == 0 {
            "  set "@ + name + " { type ifname; }\n"@
        } else {
            set_text(name, ifs)
        }
    }
}

proof fn lemma_zone_sets_text(v: MemberViewV, n: int)
    ensures
        zone_sets(v, n) == zone_set_texts(v, n),
    decreases n,
{
    if n > 0 {
        lemma_zone_sets_text(v, n - 1);
    }
}

proof fn lemma_admin_set(ifs: Seq<Seq<char>>)
    ensures
        if_set("admin"@, ifs) == (if ifs.len() == 0 {
            "  set admin { type ifname; }\n"@
        } else {
            set_text("admin"@, ifs)
        }),
{
    if ifs.len() == 0 {
        reveal_strlit("  set admin { type ifname; }\n");
        reveal_strlit("  set ");
        reveal_strlit("admin");
        reveal_strlit(" { type ifname; }\n");
        assert(if_set("admin"@, ifs) =~= "  set admin { type ifname; }\n"@);
    }
}

proof fn lemma_owned_set(v: MemberViewV)
    ensures
        owned_set(v) == set_text("cfab"@, v.owned_forwarding),
{
    assert("  set cfab { type ifname; elements = { "@ =~= "  set "@ + "cfab"@
        + " { type ifname; elements = { "@) by {
        reveal_strlit("  set cfab { type ifname; elements = { ");
        reveal_strlit("  set ");
        reveal_strlit("cfab");
        reveal_strlit(" { type ifname; elements = { ");
    }
}

#[verifier::spinoff_prover]
#[verifier::rlimit(60)]
proof fn lemma_tail_text()
    ensures
        policy_tail() == rule_text(
            Rule {
                iif: Side::Any,
                oif: Side::Any,
                state: State::Any,
                counts: true,
                verdict: None,
                comment: "default-deny"@,
            },
        ) + "  }\n"@ + "}\n"@,
{
    reveal(rule_text);
    reveal_strlit("    counter comment \"default-deny\"\n  }\n}\n");
    reveal_strlit("    ");
    reveal_strlit("counter ");
    reveal_strlit("comment \"");
    reveal_strlit("default-deny");
    reveal_strlit("\"\n");
    reveal_strlit("  }\n");
    reveal_strlit("}\n");
    let r = Rule {
        iif: Side::Any,
        oif: Side::Any,
        state: State::Any,
        counts: true,
        verdict: None,
        comment: "default-deny"@,
    };
    assert(policy_tail() =~= rule_text(r) + "  }\n"@ + "}\n"@);
}

proof fn lemma_regrouped(
    h: Seq<char>,
    k: Seq<char>,
    ra: Seq<char>,
    rb: Seq<char>,
    rc: Seq<char>,
    last: Seq<char>,
    x: Seq<char>,
    y: Seq<char>,
)
    ensures
        h + (k + ra) + rb + rc + (last + x + y) == h + (k + (ra + rb + rc + last) + x) + y,
{
    assert(h + (k + ra) + rb + rc + (last + x + y) =~= h + (k + (ra + rb + rc + last) + x) + y);
}

/// The policy is a table that replaces the one before, with a set of interfaces for the
/// administration, for every zone and for all of ours, and one chain: on what is forwarded, with
/// the rules of the member, and dropping what none of them decides on.
pub proof fn lemma_the_policy_is_its_rules(v: MemberViewV)
    ensures
        policy_text(v) == "table inet cfab-fwd\n"@ + "delete table inet cfab-fwd\n"@
            + "table inet cfab-fwd {\n"@ + (if v.admin_ifs.len() == 0 {
            "  set admin { type ifname; }\n"@
        } else {
            set_text("admin"@, v.admin_ifs)
        }) + zone_set_texts(v, v.fabric.zones.len() as int) + set_text("cfab"@, v.owned_forwarding)
            + chain_text(false, rules_of(v)) + "}\n"@,
{
    let head = "table inet cfab-fwd\n"@ + "delete table inet cfab-fwd\n"@
        + "table inet cfab-fwd {\n"@;
    let admin = if_set("admin"@, v.admin_ifs);
    let zones = zone_sets(v, v.fabric.zones.len() as int);
    lemma_admin_set(v.admin_ifs);
    lemma_zone_sets_text(v, v.fabric.zones.len() as int);
    lemma_owned_set(v);
    let p = v.fabric.forward_allow;
    let np = p.len() as int;
    let w = v.workloads;
    let nw = w.len() as int;
    let a = first_rules();
    let b = zone_rules(p, np);
    let c = all_leg_rules(w, nw);
    lemma_pairs_text(p, np);
    lemma_all_legs_text(w, nw);
    lemma_head_text();
    lemma_rules_concat(a, b, np);
    lemma_rules_concat(a + b, c, c.len() as int);
    let all = rules_of(v);
    let n = all.len() as int;
    lemma_rules_prefix(all, a + b + c, n - 1);
    lemma_tail_text();
    let last = rule_text(all[n - 1]);
    let ra = rules_text(a, 5);
    let rb = rules_text(b, np);
    let rc = rules_text(c, c.len() as int);
    assert(rules_text(all, n) == ra + rb + rc + last);
    let k = "  chain forward {\n    type filter hook forward priority filter; policy "@ + "drop"@
        + ";\n"@;
    let h = head + admin + zones + owned_set(v);
    assert(policy_text(v) =~= h + (k + ra) + rb + rc + (last + "  }\n"@ + "}\n"@));
    lemma_regrouped(h, k, ra, rb, rc, last, "  }\n"@, "}\n"@);
}

// ---- what passes ----

/// Does a packet come from one of these zones' interfaces and go to the other's, as declared?
pub open spec fn pair_allowed(v: MemberViewV, p: Packet) -> bool {
    exists|i: int|
        0 <= i < v.fabric.forward_allow.len() && in_set(
            v,
            (#[trigger] v.fabric.forward_allow[i]).0,
        ).contains(p.iif) && in_set(v, v.fabric.forward_allow[i].1).contains(p.oif)
}

/// Is it between a workload's leg and a zone that the workload may reach?
pub open spec fn workload_allowed(v: MemberViewV, p: Packet) -> bool {
    exists|i: int, k: int|
        0 <= i < v.workloads.len() && 0 <= k < v.workloads[i].allow.len() && between(
            v,
            p,
            "cfab-work-"@ + fit(v.workloads[i].name, 5),
            #[trigger] v.workloads[i].allow[k],
        )
}

pub open spec fn between(v: MemberViewV, p: Packet, leg: Seq<char>, zone: Seq<char>) -> bool {
    ||| p.iif == leg && in_set(v, zone).contains(p.oif)
    ||| p.oif == leg && in_set(v, zone).contains(p.iif)
}

proof fn lemma_skip(v: MemberViewV, policy: bool, r: Seq<Rule>, p: Packet, i: int, n: int)
    requires
        0 <= i <= n <= r.len(),
        forall|k: int| i <= k < n ==> !matches(v, #[trigger] r[k], p) || r[k].verdict is None,
    ensures
        let_through(v, policy, r, p, i) == let_through(v, policy, r, p, n),
    decreases n - i,
{
    if i < n {
        lemma_skip(v, policy, r, p, i + 1, n);
    }
}

proof fn lemma_found(v: MemberViewV, policy: bool, r: Seq<Rule>, p: Packet, i: int, k: int)
    requires
        0 <= i <= k < r.len(),
        matches(v, r[k], p),
        forall|j: int| i <= j < r.len() ==> (#[trigger] r[j]).verdict != Some(false),
        r[k].verdict == Some(true),
    ensures
        let_through(v, policy, r, p, i),
    decreases k - i,
{
    if i < k {
        lemma_found(v, policy, r, p, i + 1, k);
    }
}

proof fn lemma_zone_rule(p: Seq<(Seq<char>, Seq<char>)>, n: int, i: int)
    requires
        0 <= i < n <= p.len(),
    ensures
        zone_rules(p, n).len() == n,
        zone_rules(p, n)[i] == passes(
            Side::In(p[i].0),
            Side::In(p[i].1),
            "allow-"@ + p[i].0 + "-"@ + p[i].1,
        ),
    decreases n,
{
    lemma_pairs_text(p, n);
    lemma_pairs_text(p, n - 1);
    if i < n - 1 {
        lemma_zone_rule(p, n - 1, i);
    }
}

proof fn lemma_leg_rule(w: WorkloadV, n: int, k: int)
    requires
        0 <= k < n <= w.allow.len(),
    ensures
        leg_rules(w, n).len() == 2 * n,
        ({
            let leg = "cfab-work-"@ + fit(w.name, 5);
            let z = w.allow[k];
            &&& leg_rules(w, n)[2 * k] == passes(
                Side::Is(leg),
                Side::In(z),
                "allow-"@ + w.name + "-"@ + z,
            )
            &&& leg_rules(w, n)[2 * k + 1] == passes(
                Side::In(z),
                Side::Is(leg),
                "allow-"@ + z + "-"@ + w.name,
            )
        }),
    decreases n,
{
    lemma_legs_text(w, n);
    lemma_legs_text(w, n - 1);
    if k < n - 1 {
        lemma_leg_rule(w, n - 1, k);
    }
}

/// What a rule for workloads lets pass is between a leg and a zone that its workload may reach,
/// and all such packets are let pass by one.
proof fn lemma_all_legs(v: MemberViewV, p: Packet, n: int)
    requires
        0 <= n <= v.workloads.len(),
    ensures
        ({
            let r = all_leg_rules(v.workloads, n);
            &&& forall|j: int| 0 <= j < r.len() ==> (#[trigger] r[j]).verdict == Some(true)
            &&& (exists|j: int| 0 <= j < r.len() && matches(v, #[trigger] r[j], p)) <==> exists|
                i: int,
                k: int,
            |
                0 <= i < n && 0 <= k < v.workloads[i].allow.len() && between(
                    v,
                    p,
                    "cfab-work-"@ + fit(v.workloads[i].name, 5),
                    #[trigger] v.workloads[i].allow[k],
                )
        }),
    decreases n,
{
    if n > 0 {
        lemma_all_legs(v, p, n - 1);
        let a = all_leg_rules(v.workloads, n - 1);
        let w = v.workloads[n - 1];
        let m = w.allow.len() as int;
        let b = leg_rules(w, m);
        let r = all_leg_rules(v.workloads, n);
        let leg = "cfab-work-"@ + fit(w.name, 5);
        lemma_legs_text(w, m);
        assert forall|j: int| 0 <= j < b.len() implies (#[trigger] b[j]).verdict == Some(true)
            && (matches(v, b[j], p) ==> between(v, p, leg, w.allow[j / 2])) by {
            lemma_leg_rule(w, m, j / 2);
            assert(j == 2 * (j / 2) || j == 2 * (j / 2) + 1);
        }
        assert forall|j: int| 0 <= j < r.len() implies (#[trigger] r[j]).verdict == Some(true) by {
            if j < a.len() {
                assert(r[j] == a[j]);
            } else {
                assert(r[j] == b[j - a.len()]);
            }
        }
        if exists|j: int| 0 <= j < r.len() && matches(v, #[trigger] r[j], p) {
            let j = choose|j: int| 0 <= j < r.len() && matches(v, #[trigger] r[j], p);
            if j < a.len() {
                assert(r[j] == a[j]);
                assert(matches(v, a[j], p));
                let (i, k) = choose|i: int, k: int|
                    0 <= i < n - 1 && 0 <= k < v.workloads[i].allow.len() && between(
                        v,
                        p,
                        "cfab-work-"@ + fit(v.workloads[i].name, 5),
                        #[trigger] v.workloads[i].allow[k],
                    );
                assert(0 <= i < n);
            } else {
                let q = j - a.len();
                assert(r[j] == b[q]);
                assert(between(v, p, leg, v.workloads[n - 1].allow[q / 2]));
            }
        }
        if exists|i: int, k: int|
            0 <= i < n && 0 <= k < v.workloads[i].allow.len() && between(
                v,
                p,
                "cfab-work-"@ + fit(v.workloads[i].name, 5),
                #[trigger] v.workloads[i].allow[k],
            ) {
            let (i, k) = choose|i: int, k: int|
                0 <= i < n && 0 <= k < v.workloads[i].allow.len() && between(
                    v,
                    p,
                    "cfab-work-"@ + fit(v.workloads[i].name, 5),
                    #[trigger] v.workloads[i].allow[k],
                );
            if i == n - 1 {
                lemma_leg_rule(w, m, k);
                if p.iif == leg && in_set(v, w.allow[k]).contains(p.oif) {
                    assert(r[a.len() + 2 * k] == b[2 * k]);
                    assert(matches(v, r[a.len() + 2 * k], p));
                } else {
                    assert(r[a.len() + 2 * k + 1] == b[2 * k + 1]);
                    assert(matches(v, r[a.len() + 2 * k + 1], p));
                }
            } else {
                assert(v.workloads[i].allow[k] == v.workloads[i].allow[k]);
                let j = choose|j: int| 0 <= j < a.len() && matches(v, #[trigger] a[j], p);
                assert(r[j] == a[j]);
            }
        }
    }
}

/// What the policy lets pass: nothing from or to the administration; all that is on none of our
/// interfaces; and of the rest what belongs to a connection that was let through, goes between a
/// declared pair of zones, or goes between a workload and a zone that it may reach. All else is
/// dropped.
pub proof fn lemma_what_passes(v: MemberViewV, p: Packet)
    ensures
        let_through(v, false, rules_of(v), p, 0) <==> {
            &&& !v.admin_ifs.contains(p.iif)
            &&& !v.admin_ifs.contains(p.oif)
            &&& {
                ||| !v.owned_forwarding.contains(p.iif) && !v.owned_forwarding.contains(p.oif)
                ||| p.known
                ||| pair_allowed(v, p)
                ||| workload_allowed(v, p)
            }
        },
{
    let fa = v.fabric.forward_allow;
    let np = fa.len() as int;
    let a = first_rules();
    let b = zone_rules(fa, np);
    let c = all_leg_rules(v.workloads, v.workloads.len() as int);
    let r = rules_of(v);
    let n = r.len() as int;
    lemma_pairs_text(fa, np);
    lemma_all_legs(v, p, v.workloads.len() as int);
    assert("admin"@ != "cfab"@) by {
        reveal_strlit("admin");
        reveal_strlit("cfab");
        assert("admin"@.len() == 5);
        assert("cfab"@.len() == 4);
    }
    assert(forall|i: int| 0 <= i < 5 ==> #[trigger] r[i] == a[i]);
    assert forall|i: int| 0 <= i < np implies (#[trigger] b[i]).verdict == Some(true) && (matches(
        v,
        b[i],
        p,
    ) <==> in_set(v, fa[i].0).contains(p.iif) && in_set(v, fa[i].1).contains(p.oif)) by {
        lemma_zone_rule(fa, np, i);
    }
    assert forall|j: int| 5 <= j < n implies (#[trigger] r[j]).verdict != Some(false) by {
        if j < 5 + np {
            assert(r[j] == b[j - 5]);
        } else if j < n - 1 {
            assert(r[j] == c[j - 5 - np]);
        }
    }
    reveal_with_fuel(let_through, 6);
    if v.admin_ifs.contains(p.iif) || v.admin_ifs.contains(p.oif) {
    } else if !v.owned_forwarding.contains(p.iif) && !v.owned_forwarding.contains(p.oif) {
    } else if p.known {
    } else {
        assert(let_through(v, false, r, p, 0) == let_through(v, false, r, p, 5));
        if pair_allowed(v, p) {
            let i = choose|i: int|
                0 <= i < fa.len() && in_set(v, (#[trigger] fa[i]).0).contains(p.iif) && in_set(
                    v,
                    fa[i].1,
                ).contains(p.oif);
            assert(r[5 + i] == b[i]);
            lemma_found(v, false, r, p, 5, 5 + i);
        } else if workload_allowed(v, p) {
            let j = choose|j: int| 0 <= j < c.len() && matches(v, #[trigger] c[j], p);
            assert(r[5 + np + j] == c[j]);
            lemma_found(v, false, r, p, 5, 5 + np + j);
        } else {
            assert forall|k: int| 5 <= k < n implies !matches(v, #[trigger] r[k], p)
                || r[k].verdict is None by {
                if k < 5 + np {
                    assert(r[k] == b[k - 5]);
                    let x = fa[k - 5];
                } else if k < n - 1 {
                    assert(r[k] == c[k - 5 - np]);
                }
            }
            lemma_skip(v, false, r, p, 5, n);
        }
    }
}

} // verus!
