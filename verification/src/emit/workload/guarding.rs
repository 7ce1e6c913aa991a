//! What the routes that a workload is handed are, and what the guard of its gateway drops.

use vstd::prelude::*;

use crate::emit::workload::{
    all_rules, bridge_text, guard_rules, number_list, octets_of, option_121, port_rules,
    route_items, route_octets, route_words, significant,
};
use crate::ipv4::{dotted, octet, Ipv4Addr};
use crate::model::prefix::{span, Ipv4Prefix};
use crate::supervisor::workload::UplinkV;
use crate::text::reading::concat;
use crate::text::{dec, join};

verus! {

// ---- the routes ----

/// A route is handed out as its length, as many octets of its destination as the length reaches
/// into, and the four octets of its gateway; the octets that are left out are zero.
pub proof fn lemma_a_route_in_octets(p: Ipv4Prefix, gw: Ipv4Addr, k: int)
    requires
        p.len <= 32,
        0 <= k <= 4,
        8 * (k - 1) < p.len <= 8 * k,
        p.net.bits as int % span(p.len as int) == 0,
    ensures
        route_octets(p, gw).len() == 1 + k + 4,
        route_octets(p, gw)[0] == p.len,
        forall|i: int| 0 <= i < k ==> #[trigger] route_octets(p, gw)[1 + i] == octet(p.net.bits, i),
        forall|i: int| 0 <= i < 4 ==> #[trigger] route_octets(p, gw)[1 + k + i] == octet(gw.bits, i),
        forall|i: int| k <= i < 4 ==> #[trigger] octet(p.net.bits, i) == 0,
{
    assert(significant(p.len) == k);
    let b = p.net.bits as int;
    let s = span(p.len as int);
    let unit: int = if k == 4 {
        1
    } else if k == 3 {
        256
    } else if k == 2 {
        65536
    } else if k == 1 {
        16777216
    } else {
        4294967296
    };
    lemma_span_reaches(p.len as int, 8 * k);
    assert(span(8 * k) == unit) by {
        vstd::arithmetic::power2::lemma2_to64();
    }
    assert(b % unit == 0) by {
        let q = s / unit;
        assert(s == q * unit);
        assert(b == (b / s) * s) by (nonlinear_arith)
            requires
                b % s == 0,
                s > 0,
        ;
        let m = (b / s) * q;
        assert(b == m * unit) by (nonlinear_arith)
            requires
                b == (b / s) * s,
                s == q * unit,
                m == (b / s) * q,
        ;
        vstd::arithmetic::div_mod::lemma_mod_multiples_basic(m, unit);
    }
}

proof fn lemma_span_reaches(len: int, to: int)
    requires
        0 <= len <= to <= 32,
    ensures
        span(len) > 0,
        span(to) > 0,
        span(len) == (span(len) / span(to)) * span(to),
{
    crate::model::prefix::lemma_span_divides(len, to);
    crate::model::prefix::lemma_span(len);
    crate::model::prefix::lemma_span(to);
    let a = span(len);
    let b = span(to);
    assert(a == (a / b) * b) by (nonlinear_arith)
        requires
            a % b == 0,
            b > 0,
    ;
}

/// The numbers in decimal, with a comma and a space between them.
pub open spec fn listed(n: Seq<nat>) -> Seq<char> {
    join(Seq::new(n.len(), |i: int| dec(n[i])), ", "@)
}

/// The block of a workload: in words every destination through the gateway and all else through
/// the router; then the subnet with its mask, and in it the same routes in octets, the default
/// last.
pub proof fn lemma_what_a_workload_is_handed(
    prefix: Ipv4Prefix,
    agg: Seq<Ipv4Prefix>,
    gw: Ipv4Addr,
    router: Ipv4Addr,
)
    ensures
        ({
            let said = join(
                Seq::new(
                    agg.len(),
                    |i: int|
                        dotted(agg[i].net.bits) + "/"@ + dec(agg[i].len as nat) + " via "@ + dotted(
                            gw.bits,
                        ),
                ).push("0.0.0.0/0 via "@ + dotted(router.bits)),
                ", "@,
            );
            let routes = join(
                Seq::new(agg.len(), |i: int| listed(route_octets(agg[i], gw))),
                ", "@,
            );
            option_121(prefix, agg, gw, router)
                == "# dhcpd.conf (ISC): RFC 3442 classless static routes for this workload's subnet. A client that receives\n"@
                + "# option 121 IGNORES option 3, so the default route (0.0.0.0/0 via "@ + dotted(
                router.bits,
            ) + ") is INSIDE 121 (last entry).\n# "@ + said + "\nsubnet "@ + dotted(prefix.net.bits)
                + " netmask "@ + dotted((0x1_0000_0000 - span(prefix.len as int)) as u32)
                + " {\n\toption rfc3442-classless-static-routes "@ + routes + ", 0, "@ + listed(
                seq![
                    octet(router.bits, 0),
                    octet(router.bits, 1),
                    octet(router.bits, 2),
                    octet(router.bits, 3),
                ],
            ) + ";\n}\n"@
        }),
{
    let said = Seq::new(
        agg.len(),
        |i: int|
            dotted(agg[i].net.bits) + "/"@ + dec(agg[i].len as nat) + " via "@ + dotted(gw.bits),
    ).push("0.0.0.0/0 via "@ + dotted(router.bits));
    assert(route_words(agg, gw, router) == join(said, ", "@)) by {
        assert(Seq::new(
            agg.len(),
            |i: int| crate::model::prefix::prefix_text(agg[i]) + " via "@ + dotted(gw.bits),
        ).push("0.0.0.0/0 via "@ + dotted(router.bits)) =~= said);
    }
    let routes = Seq::new(agg.len(), |i: int| listed(route_octets(agg[i], gw)));
    assert(route_items(agg, gw) == join(routes, ", "@)) by {
        assert(Seq::new(agg.len(), |i: int| number_list(route_octets(agg[i], gw))) =~= routes);
    }
    assert(octets_of(router) =~= seq![
        octet(router.bits, 0),
        octet(router.bits, 1),
        octet(router.bits, 2),
        octet(router.bits, 3),
    ]);
}

// ---- the guard ----

/// What is dropped of what comes in over a port with a tag: a claim of the address, and a request
/// for it.
pub open spec fn guarded(port: Seq<char>, vid: u16, gw: Ipv4Addr) -> Seq<char> {
    let at = "        iifname \""@ + port + "\" vlan id "@ + dec(vid as nat)
        + " vlan type arp arp "@;
    at + "saddr ip "@ + dotted(gw.bits) + " counter drop comment \"gw-claim-from-uplink\"\n"@ + at
        + "daddr ip "@ + dotted(gw.bits) + " counter drop comment \"gw-request-from-uplink\"\n"@
}

/// The rules of one gateway: those of every port of its uplink, in their order.
pub open spec fn guards_of(gw: Ipv4Addr, up: UplinkV) -> Seq<char> {
    concat(
        Seq::new(up.ports.len(), |k: int| guarded(up.ports[k], up.vid, gw)),
        up.ports.len() as int,
    )
}

proof fn lemma_port_rules(gw: Ipv4Addr, up: UplinkV, n: int)
    requires
        0 <= n <= up.ports.len(),
    ensures
        port_rules(gw, up, n) == concat(
            Seq::new(up.ports.len(), |k: int| guarded(up.ports[k], up.vid, gw)),
            n,
        ),
    decreases n,
{
    if n > 0 {
        lemma_port_rules(gw, up, n - 1);
        assert(guard_rules(up.ports[n - 1], up.vid, gw) == guarded(up.ports[n - 1], up.vid, gw));
    }
}

proof fn lemma_all_rules(g: Seq<(Ipv4Addr, UplinkV)>, n: int)
    requires
        0 <= n <= g.len(),
    ensures
        all_rules(g, n) == concat(Seq::new(g.len(), |i: int| guards_of(g[i].0, g[i].1)), n),
    decreases n,
{
    if n > 0 {
        lemma_all_rules(g, n - 1);
        lemma_port_rules(g[n - 1].0, g[n - 1].1, g[n - 1].1.ports.len() as int);
    }
}

/// The guard is one chain before the bridge forwards, replaced as a whole: it drops what is
/// guarded on every port of every uplink, and lets all else pass.
pub proof fn lemma_what_the_guard_drops(g: Seq<(Ipv4Addr, UplinkV)>)
    ensures
        bridge_text(g)
            == "table bridge cfab\ndelete table bridge cfab\ntable bridge cfab {\n    chain pre {\n        type filter hook prerouting priority filter; policy accept;\n"@
            + concat(Seq::new(g.len(), |i: int| guards_of(g[i].0, g[i].1)), g.len() as int)
            + "    }\n}\n"@,
{
    lemma_all_rules(g, g.len() as int);
}

} // verus!
