//! Traffic-class marking: one table that sets the priority of the link layer and the code point
//! of the network layer, zone by zone.

use vstd::prelude::*;

use crate::derive::{list_of, names_of, MemberView, MemberViewV};
use crate::error::Error;
use crate::model::{dscp_text, ZoneV};
use crate::text::{cat3, dec, dec_u64, join, join_texts, texts};

pub mod marking;

verus! {

/// The names in quotes, with commas between them.
pub open spec fn quoted(names: Seq<Seq<char>>) -> Seq<char> {
    join(Seq::new(names.len(), |i: int| "\""@ + names[i] + "\""@), ","@)
}

pub fn quote_all(names: &Vec<String>) -> (r: String)
    ensures
        r@ == quoted(texts(names@)),
{
    let ghost want = Seq::new(texts(names@).len(), |i: int| "\""@ + texts(names@)[i] + "\""@);
    let mut out: Vec<String> = Vec::new();
    let mut i: usize = 0;
    while i < names.len()
        invariant
            i <= names@.len(),
            want == Seq::new(texts(names@).len(), |i: int| "\""@ + texts(names@)[i] + "\""@),
            out@.len() == i,
            forall|j: int| 0 <= j < i ==> (#[trigger] out@[j])@ == want[j],
        decreases names@.len() - i,
    {
        assert(texts(names@)[i as int] == names@[i as int]@);
        out.push(cat3("\"", names[i].as_str(), "\""));
        i = i + 1;
    }
    assert(texts(out@) =~= want);
    join_texts(&out, ",")
}

/// What every rule of a zone begins with.
pub open spec fn on_zone(ifs: Seq<char>) -> Seq<char> {
    "    oifname { "@ + ifs + " } "@
}

/// The priority rules: control traffic is lifted where the zone is mapped below it.
pub open spec fn pcp_rules(v: MemberViewV, z: ZoneV, ifs: Seq<char>) -> Seq<char> {
    if z.pcp != v.fabric.pcp_ctrl {
        on_zone(ifs) + "ip protocol ospf meta priority set 0:"@ + dec(v.fabric.pcp_ctrl as nat)
            + " comment \"pcp-"@ + z.name + "-ctrl\"\n"@ + on_zone(ifs)
            + "udp dport 3784-3785 meta priority set 0:"@ + dec(v.fabric.pcp_ctrl as nat)
            + " comment \"pcp-"@ + z.name + "-bfd\"\n"@
    } else {
        seq![]
    }
}

/// The code point rules: the whole zone is clamped first, and its control is lifted behind that.
/// The last write wins, so that bulk cannot stand in the control queue.
pub open spec fn dscp_rules(v: MemberViewV, z: ZoneV, ifs: Seq<char>) -> Seq<char> {
    let bulk = on_zone(ifs) + "ip dscp set "@ + dscp_text(z.dscp) + " comment \"dscp-"@ + z.name
        + "-bulk\"\n"@;
    if !v.fabric.dscp_mark {
        seq![]
    } else if z.dscp != v.dscp_ctrl {
        bulk + (on_zone(ifs) + "ip protocol ospf ip dscp set "@ + dscp_text(v.dscp_ctrl)
            + " comment \"dscp-"@ + z.name + "-ctrl\"\n"@ + on_zone(ifs)
            + "udp dport 3784-3785 ip dscp set "@ + dscp_text(v.dscp_ctrl) + " comment \"dscp-"@
            + z.name + "-bfd\"\n"@)
    } else {
        bulk
    }
}

/// The rules of a zone, which has none where no interface of the member carries it.
pub open spec fn zone_rules(v: MemberViewV, z: ZoneV) -> Seq<char> {
    let names = list_of(v.zone_ifs, z.name, 0);
    if names.len() == 0 {
        seq![]
    } else {
        pcp_rules(v, z, quoted(names)) + dscp_rules(v, z, quoted(names))
    }
}

pub open spec fn all_zone_rules(v: MemberViewV, n: int) -> Seq<char>
    decreases n,
{
    if n <= 0 {
        seq![]
    } else {
        all_zone_rules(v, n - 1) + zone_rules(v, v.fabric.zones[n - 1])
    }
}

pub open spec fn mark_text(v: MemberViewV) -> Seq<char> {
    "table inet cfab\n"@ + "delete table inet cfab\n"@ + "table inet cfab {\n"@ + "  chain out {\n"@
        + "    type filter hook output priority mangle;\n"@ + all_zone_rules(
        v,
        v.fabric.zones.len() as int,
    ) + "  }\n}\n"@
}

fn zone_of(view: &MemberView, z: &crate::model::Zone) -> (r: String)
    ensures
        r@ == zone_rules(view@, z@),
{
    let names = names_of(&view.zone_ifs, z.name.as_str());
    assert(texts(names@).len() == names@.len());
    if names.len() == 0 {
        return String::new();
    }
    let ifs = quote_all(&names);
    let f = view.fabric;
    let zone = z.name.as_str();
    let head = cat3("    oifname { ", ifs.as_str(), " } ");
    let mut a = String::new();
    if z.pcp != f.pcp_ctrl {
        let p = dec_u64(f.pcp_ctrl as u64);
        let mut s = head.clone();
        s.append("ip protocol ospf meta priority set 0:");
        s.append(p.as_str());
        s.append(" comment \"pcp-");
        s.append(zone);
        s.append("-ctrl\"\n");
        s.append(head.as_str());
        s.append("udp dport 3784-3785 meta priority set 0:");
        s.append(p.as_str());
        s.append(" comment \"pcp-");
        s.append(zone);
        s.append("-bfd\"\n");
        a = s;
    }
    let mut b = String::new();
    if f.dscp_mark {
        b = head.clone();
        b.append("ip dscp set ");
        b.append(z.dscp.as_str());
        b.append(" comment \"dscp-");
        b.append(zone);
        b.append("-bulk\"\n");
        if z.dscp != view.dscp_ctrl {
            let mut s = head.clone();
            s.append("ip protocol ospf ip dscp set ");
            s.append(view.dscp_ctrl.as_str());
            s.append(" comment \"dscp-");
            s.append(zone);
            s.append("-ctrl\"\n");
            s.append(head.as_str());
            s.append("udp dport 3784-3785 ip dscp set ");
            s.append(view.dscp_ctrl.as_str());
            s.append(" comment \"dscp-");
            s.append(zone);
            s.append("-bfd\"\n");
            b.append(s.as_str());
        }
    }
    proof {
        let names = list_of(view@.zone_ifs, z@.name, 0);
        let q = quoted(names);
        assert(head@ == on_zone(q));
        assert(a@ =~= pcp_rules(view@, z@, q));
        assert(b@ =~= dscp_rules(view@, z@, q));
    }
    a.append(b.as_str());
    a
}

/// The table.
pub fn generate(view: &MemberView) -> (r: Result<String, Error>)
    ensures
        r is Ok,
        r->Ok_0@ == mark_text(view@),
{
    let mut out = String::from_str("table inet cfab\n");
    out.append("delete table inet cfab\n");
    out.append("table inet cfab {\n");
    out.append("  chain out {\n");
    out.append("    type filter hook output priority mangle;\n");
    let mut rules = String::new();
    let mut i: usize = 0;
    while i < view.fabric.zones.len()
        invariant
            i <= view.fabric.zones@.len(),
            rules@ == all_zone_rules(view@, i as int),
        decreases view.fabric.zones@.len() - i,
    {
        assert(view.fabric.zones@[i as int]@ == view@.fabric.zones[i as int]);
        rules.append(zone_of(view, &view.fabric.zones[i]).as_str());
        i = i + 1;
    }
    out.append(rules.as_str());
    out.append("  }\n}\n");
    Ok(out)
}

} // verus!
