//! The forward policy: nothing that touches an interface of ours passes but what is allowed, the
//! administration never transits, and every drop is counted. What touches none of ours is accepted.

use vstd::prelude::*;

use crate::derive::{list_of, names_of, MemberView, MemberViewV};
use crate::emit::mark::{quote_all, quoted};
use crate::error::Error;
use crate::model::{leg_name, WorkloadV};
use crate::text::{cat3, cat5, texts};

pub mod ruling;

verus! {

/// A set of interfaces.
pub open spec fn if_set(name: Seq<char>, ifs: Seq<Seq<char>>) -> Seq<char> {
    if ifs.len() == 0 {
        "  set "@ + name + " { type ifname; }\n"@
    } else {
        "  set "@ + name + " { type ifname; elements = { "@ + quoted(ifs) + " } }\n"@
    }
}

pub open spec fn zone_sets(v: MemberViewV, n: int) -> Seq<char>
    decreases n,
{
    if n <= 0 {
        seq![]
    } else {
        let z = v.fabric.zones[n - 1];
        zone_sets(v, n - 1) + if_set(z.name, list_of(v.zone_ifs, z.name, 0))
    }
}

/// The set of every interface of ours.
pub open spec fn owned_set(v: MemberViewV) -> Seq<char> {
    "  set cfab { type ifname; elements = { "@ + quoted(v.owned_forwarding) + " } }\n"@
}

pub open spec fn chain_head() -> Seq<char> {
    "  chain forward {\n    type filter hook forward priority filter; policy drop;\n    iifname @admin counter drop comment \"admin-in\"\n    oifname @admin counter drop comment \"admin-out\"\n    iifname != @cfab oifname != @cfab counter accept comment \"foreign-transit\"\n    ct state invalid counter comment \"ct-invalid-seen\"\n    ct state established,related accept comment \"return-of-allowed\"\n"@
}

/// The rule that lets one zone reach another.
pub open spec fn pair_rule(from: Seq<char>, to: Seq<char>) -> Seq<char> {
    "    iifname @"@ + from + " oifname @"@ + to + " counter accept comment \"allow-"@ + from + "-"@
        + to + "\"\n"@
}

pub open spec fn pair_rules(p: Seq<(Seq<char>, Seq<char>)>, n: int) -> Seq<char>
    decreases n,
{
    if n <= 0 {
        seq![]
    } else {
        pair_rules(p, n - 1) + pair_rule(p[n - 1].0, p[n - 1].1)
    }
}

/// The two rules between a workload and a zone that it may reach, one for each direction. Neither
/// looks at the state of a connection.
pub open spec fn workload_rule(w: WorkloadV, zone: Seq<char>) -> Seq<char> {
    let leg = leg_name(w.name);
    "    iifname \""@ + leg + "\" oifname @"@ + zone + " counter accept comment \"allow-"@ + w.name
        + "-"@ + zone + "\"\n"@ + "    iifname @"@ + zone + " oifname \""@ + leg
        + "\" counter accept comment \"allow-"@ + zone + "-"@ + w.name + "\"\n"@
}

pub open spec fn workload_rules_of(w: WorkloadV, n: int) -> Seq<char>
    decreases n,
{
    if n <= 0 {
        seq![]
    } else {
        workload_rules_of(w, n - 1) + workload_rule(w, w.allow[n - 1])
    }
}

pub open spec fn workload_rules(w: Seq<WorkloadV>, n: int) -> Seq<char>
    decreases n,
{
    if n <= 0 {
        seq![]
    } else {
        workload_rules(w, n - 1) + workload_rules_of(w[n - 1], w[n - 1].allow.len() as int)
    }
}

/// What stands before the first rule that lets something of ours pass: the sets, the drops of the
/// administration, and the return of what was allowed.
pub open spec fn policy_head(v: MemberViewV) -> Seq<char> {
    "table inet cfab-fwd\n"@ + "delete table inet cfab-fwd\n"@ + "table inet cfab-fwd {\n"@ + if_set(
        "admin"@,
        v.admin_ifs,
    ) + zone_sets(v, v.fabric.zones.len() as int) + owned_set(v) + chain_head()
}

/// What stands behind the last of them: all else is counted, and dropped by the chain's policy.
pub open spec fn policy_tail() -> Seq<char> {
    "    counter comment \"default-deny\"\n  }\n}\n"@
}

pub open spec fn policy_text(v: MemberViewV) -> Seq<char> {
    policy_head(v) + pair_rules(v.fabric.forward_allow, v.fabric.forward_allow.len() as int)
        + workload_rules(v.workloads, v.workloads.len() as int) + policy_tail()
}

fn set_of(name: &str, ifs: &Vec<String>) -> (r: String)
    ensures
        r@ == if_set(name@, texts(ifs@)),
{
    assert(texts(ifs@).len() == ifs@.len());
    if ifs.len() == 0 {
        cat3("  set ", name, " { type ifname; }\n")
    } else {
        cat5(
            "  set ",
            name,
            " { type ifname; elements = { ",
            quote_all(ifs).as_str(),
            " } }\n",
        )
    }
}

fn pair_of(from: &str, to: &str) -> (r: String)
    ensures
        r@ == pair_rule(from@, to@),
{
    let mut s = String::from_str("    iifname @");
    s.append(from);
    s.append(" oifname @");
    s.append(to);
    s.append(" counter accept comment \"allow-");
    s.append(from);
    s.append("-");
    s.append(to);
    s.append("\"\n");
    s
}

fn workload_of(w: &crate::model::Workload) -> (r: String)
    ensures
        r@ == workload_rules_of(w@, w@.allow.len() as int),
{
    let leg = w.leg_ifname();
    let name = w.name.as_str();
    let mut out = String::new();
    let mut i: usize = 0;
    while i < w.allow.len()
        invariant
            i <= w.allow@.len(),
            leg@ == leg_name(w@.name),
            name@ == w@.name,
            out@ == workload_rules_of(w@, i as int),
        decreases w.allow@.len() - i,
    {
        assert(w@.allow[i as int] == w.allow@[i as int]@);
        let zone = w.allow[i].as_str();
        let mut s = String::from_str("    iifname \"");
        s.append(leg.as_str());
        s.append("\" oifname @");
        s.append(zone);
        s.append(" counter accept comment \"allow-");
        s.append(name);
        s.append("-");
        s.append(zone);
        s.append("\"\n");
        s.append("    iifname @");
        s.append(zone);
        s.append(" oifname \"");
        s.append(leg.as_str());
        s.append("\" counter accept comment \"allow-");
        s.append(zone);
        s.append("-");
        s.append(name);
        s.append("\"\n");
        out.append(s.as_str());
        i = i + 1;
    }
    out
}

/// The table.
pub fn generate(view: &MemberView) -> (r: Result<String, Error>)
    ensures
        r is Ok,
        r->Ok_0@ == policy_text(view@),
{
    let f = view.fabric;
    let mut out = String::from_str("table inet cfab-fwd\n");
    out.append("delete table inet cfab-fwd\n");
    out.append("table inet cfab-fwd {\n");
    out.append(set_of("admin", &view.admin_ifs).as_str());
    let mut sets = String::new();
    let mut i: usize = 0;
    while i < f.zones.len()
        invariant
            i <= f.zones@.len(),
            f == view.fabric,
            sets@ == zone_sets(view@, i as int),
        decreases f.zones@.len() - i,
    {
        assert(f.zones@[i as int]@ == view@.fabric.zones[i as int]);
        let ifs = names_of(&view.zone_ifs, f.zones[i].name.as_str());
        sets.append(set_of(f.zones[i].name.as_str(), &ifs).as_str());
        i = i + 1;
    }
    out.append(sets.as_str());
    out.append(
        cat3(
            "  set cfab { type ifname; elements = { ",
            quote_all(&view.owned_forwarding).as_str(),
            " } }\n",
        ).as_str(),
    );
    out.append(
        "  chain forward {\n    type filter hook forward priority filter; policy drop;\n    iifname @admin counter drop comment \"admin-in\"\n    oifname @admin counter drop comment \"admin-out\"\n    iifname != @cfab oifname != @cfab counter accept comment \"foreign-transit\"\n    ct state invalid counter comment \"ct-invalid-seen\"\n    ct state established,related accept comment \"return-of-allowed\"\n",
    );
    let mut pairs = String::new();
    i = 0;
    while i < f.forward_allow.len()
        invariant
            i <= f.forward_allow@.len(),
            f == view.fabric,
            pairs@ == pair_rules(view@.fabric.forward_allow, i as int),
        decreases f.forward_allow@.len() - i,
    {
        let p = &f.forward_allow[i];
        assert(view@.fabric.forward_allow[i as int] == (p.0@, p.1@));
        pairs.append(pair_of(p.0.as_str(), p.1.as_str()).as_str());
        i = i + 1;
    }
    out.append(pairs.as_str());
    let mut rules = String::new();
    i = 0;
    while i < view.workloads.len()
        invariant
            i <= view.workloads@.len(),
            rules@ == workload_rules(view@.workloads, i as int),
        decreases view.workloads@.len() - i,
    {
        assert(view.workloads@[i as int]@ == view@.workloads[i as int]);
        rules.append(workload_of(&view.workloads[i]).as_str());
        i = i + 1;
    }
    out.append(rules.as_str());
    out.append("    counter comment \"default-deny\"\n  }\n}\n");
    Ok(out)
}

// ---- what passes ----

proof fn lemma_pair_within(p: Seq<(Seq<char>, Seq<char>)>, n: int, i: int) -> (b: Seq<char>)
    requires
        0 <= i < n,
    ensures
        pair_rules(p, n) == pair_rules(p, i) + pair_rule(p[i].0, p[i].1) + b,
    decreases n,
{
    if i == n - 1 {
        assert(pair_rules(p, n) =~= pair_rules(p, i) + pair_rule(p[i].0, p[i].1) + seq![]);
        seq![]
    } else {
        let b = lemma_pair_within(p, n - 1, i);
        let last = pair_rule(p[n - 1].0, p[n - 1].1);
        assert(pair_rules(p, n) =~= pair_rules(p, i) + pair_rule(p[i].0, p[i].1) + (b + last));
        b + last
    }
}

proof fn lemma_zone_within(w: WorkloadV, n: int, k: int) -> (b: Seq<char>)
    requires
        0 <= k < n,
    ensures
        workload_rules_of(w, n) == workload_rules_of(w, k) + workload_rule(w, w.allow[k]) + b,
    decreases n,
{
    let rule = workload_rule(w, w.allow[k]);
    if k == n - 1 {
        assert(workload_rules_of(w, n) =~= workload_rules_of(w, k) + rule + seq![]);
        seq![]
    } else {
        let b = lemma_zone_within(w, n - 1, k);
        let last = workload_rule(w, w.allow[n - 1]);
        assert(workload_rules_of(w, n) =~= workload_rules_of(w, k) + rule + (b + last));
        b + last
    }
}

proof fn lemma_workload_within(w: Seq<WorkloadV>, n: int, i: int) -> (b: Seq<char>)
    requires
        0 <= i < n,
    ensures
        workload_rules(w, n) == workload_rules(w, i) + workload_rules_of(
            w[i],
            w[i].allow.len() as int,
        ) + b,
    decreases n,
{
    let own = workload_rules_of(w[i], w[i].allow.len() as int);
    if i == n - 1 {
        assert(workload_rules(w, n) =~= workload_rules(w, i) + own + seq![]);
        seq![]
    } else {
        let b = lemma_workload_within(w, n - 1, i);
        let last = workload_rules_of(w[n - 1], w[n - 1].allow.len() as int);
        assert(workload_rules(w, n) =~= workload_rules(w, i) + own + (b + last));
        b + last
    }
}

/// The rule stands in the policy, behind its head and before its tail.
pub open spec fn lets_pass(v: MemberViewV, rule: Seq<char>) -> bool {
    exists|a: Seq<char>, b: Seq<char>|
        #![trigger policy_head(v) + a + rule + b + policy_tail()]
        policy_text(v) == policy_head(v) + a + rule + b + policy_tail()
}

proof fn lemma_regroup(
    head: Seq<char>,
    pairs: Seq<char>,
    before: Seq<char>,
    own: Seq<char>,
    rule: Seq<char>,
    rest: Seq<char>,
    after: Seq<char>,
    tail: Seq<char>,
)
    ensures
        head + pairs + (before + (own + rule + rest) + after) + tail == head + (pairs + before
            + own) + rule + (rest + after) + tail,
{
    assert(head + pairs + (before + (own + rule + rest) + after) + tail =~= head + (pairs + before
        + own) + rule + (rest + after) + tail);
}

/// Every declared pair of zones passes, and no rule that lets it pass stands before the drops of
/// the administration.
pub proof fn lemma_a_declared_pair_passes(v: MemberViewV, i: int)
    requires
        0 <= i < v.fabric.forward_allow.len(),
    ensures
        lets_pass(v, pair_rule(v.fabric.forward_allow[i].0, v.fabric.forward_allow[i].1)),
{
    let p = v.fabric.forward_allow;
    let rule = pair_rule(p[i].0, p[i].1);
    let b = lemma_pair_within(p, p.len() as int, i);
    let rest = b + workload_rules(v.workloads, v.workloads.len() as int);
    assert(policy_text(v) =~= policy_head(v) + pair_rules(p, i) + rule + rest + policy_tail());
}

/// A workload and a zone that it may reach pass in both directions: the two rules stand side by
/// side, behind the drops of the administration.
pub proof fn lemma_a_workload_passes_both_ways(v: MemberViewV, i: int, k: int)
    requires
        0 <= i < v.workloads.len(),
        0 <= k < v.workloads[i].allow.len(),
    ensures
        lets_pass(v, workload_rule(v.workloads[i], v.workloads[i].allow[k])),
{
    let ws = v.workloads;
    let w = ws[i];
    let rule = workload_rule(w, w.allow[k]);
    let b = lemma_workload_within(ws, ws.len() as int, i);
    let c = lemma_zone_within(w, w.allow.len() as int, k);
    let pairs = pair_rules(v.fabric.forward_allow, v.fabric.forward_allow.len() as int);
    let before = workload_rules(ws, i);
    let own = workload_rules_of(w, k);
    lemma_regroup(policy_head(v), pairs, before, own, rule, c, b, policy_tail());
}

} // verus!
