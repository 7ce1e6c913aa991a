//! What a declaration comes to, value by value.

use vstd::prelude::*;

use crate::decl::{
    Declaration, GwDecl, MemberDecl, MemberWorkloadDecl, WireDecl, WorkloadDecl, ZoneDecl,
};
use crate::engine::laws::lemma_an_address_has_no_slash;
use crate::ipv4::{dotted, lemma_parse_dotted, parse_dotted, Ipv4Addr};
use crate::model::prefix::{lemma_span, parse_prefix, span, Ipv4Prefix};
use crate::model::resolve::{
    carried_decls_refusal, decl_refusal, domains_refusal, gw_decl_refusal, member_decl_refusal,
    members_refusal, pairs_refusal, parse_host, prefs_of, resolved, retired_refusal, router_of,
    segment_decls_refusal, segments_of, wire_decls_refusal, workload_value_refusal,
    workloads_refusal, zone_decl_refusal, zone_segments, zones_refusal,
};
use crate::model::sound::{begins_whole, sound};
use crate::model::laws::accepted;
use crate::model::{SegmentV, WirePrefV};
use crate::text::reading::lemma_cut_at_the_first;
use crate::text::{dec, is_digit, lemma_dec, lemma_find, lemma_parse_dec, split_once, texts};

verus! {

// ---- what is read ----

/// A network is an address, a slash and a length of at most 32, with no bit set behind the
/// length.
pub proof fn lemma_a_prefix_is_read(bits: u32, len: nat)
    ensures
        len <= 32 && bits as int % span(len as int) == 0 ==> parse_prefix(
            dotted(bits) + seq!['/'] + dec(len),
        ) == Some(Ipv4Prefix { net: Ipv4Addr { bits }, len: len as u8 }),
        len <= 32 && bits as int % span(len as int) != 0 ==> parse_prefix(
            dotted(bits) + seq!['/'] + dec(len),
        ) is None,
        len > 32 ==> parse_prefix(dotted(bits) + seq!['/'] + dec(len)) is None,
        parse_prefix(dotted(bits)) is None,
{
    lemma_an_address_has_no_slash(bits);
    lemma_parse_dotted(bits);
    lemma_cut_at_the_first(dotted(bits), '/', dec(len));
    lemma_dec(len);
    assert(is_digit(dec(len)[0]));
    if len <= 255 {
        lemma_parse_dec(len, 255);
    }
}

/// An address on a network keeps its host bits.
pub proof fn lemma_a_host_is_read(bits: u32, len: nat)
    ensures
        len <= 32 ==> parse_host(dotted(bits) + seq!['/'] + dec(len)) == Some((bits, len)),
        len > 32 ==> parse_host(dotted(bits) + seq!['/'] + dec(len)) is None,
        parse_host(dotted(bits)) is None,
{
    lemma_an_address_has_no_slash(bits);
    lemma_parse_dotted(bits);
    lemma_cut_at_the_first(dotted(bits), '/', dec(len));
    lemma_dec(len);
    assert(is_digit(dec(len)[0]));
    if len <= 255 {
        lemma_parse_dec(len, 255);
    }
}

/// A router is an address with the length 24, and is known by the address.
pub proof fn lemma_a_router_is_read(bits: u32, rest: Seq<char>)
    ensures
        router_of(dotted(bits) + seq!['/'] + "24"@) == Some(dotted(bits)),
        rest != "24"@ ==> router_of(dotted(bits) + seq!['/'] + rest) is None,
        router_of(dotted(bits)) is None,
{
    lemma_an_address_has_no_slash(bits);
    lemma_parse_dotted(bits);
    lemma_cut_at_the_first(dotted(bits), '/', "24"@);
    lemma_cut_at_the_first(dotted(bits), '/', rest);
}

// ---- what it comes to ----

/// What is declared once for the whole fabric: a table that is not there stands at its defaults.
pub proof fn lemma_what_is_declared_once(d: Declaration)
    ensures
        ({
            let f = resolved(d);
            let cost = if d.cost is Some { d.cost->0 } else { d.defaults.cost };
            let admin = if d.admin is Some { d.admin->0 } else { d.defaults.admin };
            let marking = if d.marking is Some { d.marking->0 } else { d.defaults.marking };
            let bfd = if d.bfd is Some { d.bfd->0 } else { d.defaults.bfd };
            let ospf = if d.ospf is Some { d.ospf->0 } else { d.defaults.ospf };
            let bgp = if d.bgp is Some { d.bgp->0 } else { d.defaults.bgp };
            let runtime = if d.runtime is Some { d.runtime->0 } else { d.defaults.runtime };
            &&& f.leaf_cost_offset == cost.leaf_offset
            &&& f.host_forward == d.forward.enabled
            &&& f.admin_floor_mbps == admin.floor_mbps
            &&& f.admin_band == admin.band
            &&& f.pcp_ctrl == marking.pcp_ctrl
            &&& f.dscp_mark == marking.set_dscp
            &&& f.bfd_rx_ms == bfd.rx_ms
            &&& f.bfd_tx_ms == bfd.tx_ms
            &&& f.bfd_mult == bfd.mult
            &&& f.bfd_port == bfd.port
            &&& f.ospf_hello == ospf.hello_s
            &&& f.ospf_dead == ospf.dead_s
            &&& f.bgp_as == bgp.asn
            &&& f.bgp_keepalive_s == bgp.keepalive_s
            &&& f.bgp_hold_s == bgp.hold_s
            &&& f.bgp_connect_s == bgp.connect_s
            &&& f.run_dir == runtime.run_dir@
            &&& f.dns_domain == d.dns_domain@
            &&& f.domains.len() == d.domains@.len()
            &&& forall|i: int|
                0 <= i < d.domains@.len() ==> #[trigger] f.domains[i] == d.domains@[i]@
        }),
{
}

/// A member is what is declared of it: its wires in their order, and the workloads that it
/// carries with their addresses.
pub proof fn lemma_what_is_declared_of_a_member(d: Declaration, i: int)
    requires
        0 <= i < d.members@.len(),
    ensures
        resolved(d).members.len() == d.members@.len(),
        ({
            let m = resolved(d).members[i];
            let t = d.members@[i];
            &&& m.name == t.name@
            &&& m.node == t.node
            &&& m.kind == t.kind
            &&& m.wires.len() == t.wires@.len()
            &&& forall|j: int|
                0 <= j < m.wires.len() ==> (#[trigger] m.wires[j]).name == t.wires@[j].nic@
                    && m.wires[j].domain == t.wires@[j].domain@ && m.wires[j].speed_mbps
                    == t.wires@[j].speed_mbps
            &&& m.workloads.len() == t.workloads@.len()
            &&& forall|j: int, bits: u32, len: nat|
                #![trigger m.workloads[j], dotted(bits), dec(len)]
                0 <= j < m.workloads.len() && len <= 32 && t.workloads@[j].address@ == dotted(bits)
                    + seq!['/'] + dec(len) ==> m.workloads[j].address.bits == bits
                    && m.workloads[j].len == len
            &&& forall|j: int|
                0 <= j < m.workloads.len() ==> (#[trigger] m.workloads[j]).name
                    == t.workloads@[j].name@
        }),
{
    let m = resolved(d).members[i];
    let t = d.members@[i];
    assert forall|j: int, bits: u32, len: nat|
        #![trigger m.workloads[j], dotted(bits), dec(len)]
        0 <= j < m.workloads.len() && len <= 32 && t.workloads@[j].address@ == dotted(bits)
            + seq!['/'] + dec(len) implies m.workloads[j].address.bits == bits && m.workloads[j].len
        == len by {
        lemma_a_host_is_read(bits, len);
    }
}

proof fn lemma_prefs(m: Seq<MemberDecl>, n: int, p: WirePrefV)
    requires
        0 <= n <= m.len(),
    ensures
        prefs_of(m, n).contains(p) <==> exists|i: int, k: int|
            0 <= i < n && 0 <= k < m[i].prefs@.len() && p == (WirePrefV {
                member: m[i].name@,
                zone: (#[trigger] m[i].prefs@[k]).0@,
                order: texts(m[i].prefs@[k].1@),
            }),
    decreases n,
{
    let s = prefs_of(m, n);
    if n > 0 {
        lemma_prefs(m, n - 1, p);
        let a = prefs_of(m, n - 1);
        if s.contains(p) {
            let x = choose|x: int| 0 <= x < s.len() && s[x] == p;
            if x < a.len() {
                assert(a[x] == p);
                assert(a.contains(p));
            } else {
                let k = x - a.len();
                assert(p == (WirePrefV {
                    member: m[n - 1].name@,
                    zone: m[n - 1].prefs@[k].0@,
                    order: texts(m[n - 1].prefs@[k].1@),
                }));
            }
        }
        if exists|i: int, k: int|
            0 <= i < n && 0 <= k < m[i].prefs@.len() && p == (WirePrefV {
                member: m[i].name@,
                zone: (#[trigger] m[i].prefs@[k]).0@,
                order: texts(m[i].prefs@[k].1@),
            }) {
            let (i, k) = choose|i: int, k: int|
                0 <= i < n && 0 <= k < m[i].prefs@.len() && p == (WirePrefV {
                    member: m[i].name@,
                    zone: (#[trigger] m[i].prefs@[k]).0@,
                    order: texts(m[i].prefs@[k].1@),
                });
            if i == n - 1 {
                assert(s[a.len() + k] == p);
            } else {
                let q = m[i].prefs@[k];
                assert(a.contains(p));
                let x = choose|x: int| 0 <= x < a.len() && a[x] == p;
                assert(s[x] == p);
            }
        }
    }
}

/// The orders of wires are those that the members state, each for the member that states it.
pub proof fn lemma_whose_orders_there_are(d: Declaration, p: WirePrefV)
    ensures
        resolved(d).wire_prefs.contains(p) <==> exists|i: int, k: int|
            0 <= i < d.members@.len() && 0 <= k < d.members@[i].prefs@.len() && p == (WirePrefV {
                member: d.members@[i].name@,
                zone: (#[trigger] d.members@[i].prefs@[k]).0@,
                order: texts(d.members@[i].prefs@[k].1@),
            }),
{
    lemma_prefs(d.members@, d.members@.len() as int, p);
}

/// Is this a segment of the zone: one on a domain, or the one on all of them?
pub open spec fn segment_in(z: ZoneDecl, s: SegmentV) -> bool {
    ||| exists|k: int|
        0 <= k < z.segments@.len() && s == (SegmentV {
            ifname: (#[trigger] z.segments@[k]).ifname@,
            scope: Some(z.segments@[k].domain@),
            zone: z.name@,
            seg: z.segments@[k].seg,
            vid: z.segments@[k].vid,
        })
    ||| z.universal is Some && s == (SegmentV {
        ifname: z.universal->0.ifname@,
        scope: None,
        zone: z.name@,
        seg: z.universal->0.seg,
        vid: z.universal->0.vid,
    })
}

proof fn lemma_zone_segments(z: ZoneDecl, s: SegmentV)
    ensures
        zone_segments(z).contains(s) <==> segment_in(z, s),
{
    let t = zone_segments(z);
    let n = z.segments@.len() as int;
    if t.contains(s) {
        let x = choose|x: int| 0 <= x < t.len() && t[x] == s;
        if x < n {
            let q = z.segments@[x];
            assert(segment_in(z, s));
        }
    }
    if exists|k: int|
        0 <= k < z.segments@.len() && s == (SegmentV {
            ifname: (#[trigger] z.segments@[k]).ifname@,
            scope: Some(z.segments@[k].domain@),
            zone: z.name@,
            seg: z.segments@[k].seg,
            vid: z.segments@[k].vid,
        }) {
        let k = choose|k: int|
            0 <= k < z.segments@.len() && s == (SegmentV {
                ifname: (#[trigger] z.segments@[k]).ifname@,
                scope: Some(z.segments@[k].domain@),
                zone: z.name@,
                seg: z.segments@[k].seg,
                vid: z.segments@[k].vid,
            });
        assert(t[k] == s);
    }
    if z.universal is Some && s == (SegmentV {
        ifname: z.universal->0.ifname@,
        scope: None,
        zone: z.name@,
        seg: z.universal->0.seg,
        vid: z.universal->0.vid,
    }) {
        assert(t[n] == s);
    }
}

proof fn lemma_segments(z: Seq<ZoneDecl>, n: int, s: SegmentV)
    requires
        0 <= n <= z.len(),
    ensures
        segments_of(z, n).contains(s) <==> exists|i: int|
            0 <= i < n && segment_in(#[trigger] z[i], s),
    decreases n,
{
    let t = segments_of(z, n);
    if n > 0 {
        lemma_segments(z, n - 1, s);
        lemma_zone_segments(z[n - 1], s);
        let a = segments_of(z, n - 1);
        let b = zone_segments(z[n - 1]);
        if t.contains(s) {
            let x = choose|x: int| 0 <= x < t.len() && t[x] == s;
            if x < a.len() {
                assert(a[x] == s);
                assert(a.contains(s));
            } else {
                assert(b[x - a.len()] == s);
                assert(b.contains(s));
            }
        }
        if a.contains(s) {
            let x = choose|x: int| 0 <= x < a.len() && a[x] == s;
            assert(t[x] == s);
        }
        if b.contains(s) {
            let x = choose|x: int| 0 <= x < b.len() && b[x] == s;
            assert(t[a.len() + x] == s);
        }
    }
}

/// The segments are those of the zones, each in the zone that declares it.
pub proof fn lemma_which_segments_there_are(d: Declaration, s: SegmentV)
    ensures
        resolved(d).segments.contains(s) <==> exists|i: int|
            0 <= i < d.zones@.len() && segment_in(#[trigger] d.zones@[i], s),
{
    lemma_segments(d.zones@, d.zones@.len() as int, s);
}

/// A zone is what is declared of it, and its ingress with the router's address.
pub proof fn lemma_what_is_declared_of_a_zone(d: Declaration, i: int, bits: u32)
    requires
        0 <= i < d.zones@.len(),
    ensures
        resolved(d).zones.len() == d.zones@.len(),
        ({
            let z = resolved(d).zones[i];
            let t = d.zones@[i];
            &&& z.name == t.name@
            &&& z.id == t.id
            &&& z.pcp == t.pcp
            &&& z.dscp == t.dscp
            &&& z.floor_mbps == t.floor_mbps
            &&& z.band == t.band
            &&& z.weight == t.weight
            &&& z.primary == t.primary@
            &&& z.gw is Some <==> t.gw is Some
            &&& t.gw is Some ==> z.gw->0.vid == t.gw->0.vid
            &&& t.gw is Some && t.gw->0.domain@ == "any"@ ==> z.gw->0.scope is None
            &&& t.gw is Some && t.gw->0.domain@ != "any"@ ==> z.gw->0.scope == Some(
                t.gw->0.domain@,
            )
            &&& t.gw is Some && t.gw->0.router@ == dotted(bits) + seq!['/'] + "24"@
                ==> z.gw->0.router == dotted(bits)
        }),
{
    lemma_a_router_is_read(bits, seq![]);
}

/// A workload is what is declared of it.
pub proof fn lemma_what_is_declared_of_a_workload(
    d: Declaration,
    i: int,
    net: u32,
    len: nat,
    gw: u32,
    server: u32,
)
    requires
        0 <= i < d.workload@.len(),
    ensures
        resolved(d).workloads.len() == d.workload@.len(),
        ({
            let w = resolved(d).workloads[i];
            let t = d.workload@[i];
            &&& w.name == t.name@
            &&& w.uplink == t.uplink@
            &&& w.vid == t.vid
            &&& len <= 32 && net as int % span(len as int) == 0 && t.prefix@ == dotted(net)
                + seq!['/'] + dec(len) ==> w.prefix.net.bits == net && w.prefix.len == len
            &&& t.gw@ == dotted(gw) ==> w.gw.bits == gw
            &&& w.dhcp_server is Some <==> t.dhcp_server is Some
            &&& t.dhcp_server is Some && t.dhcp_server->0@ == dotted(server)
                ==> w.dhcp_server->0.bits == server
            &&& w.allow.len() == t.allow@.len()
            &&& forall|k: int| 0 <= k < t.allow@.len() ==> #[trigger] w.allow[k] == t.allow@[k]@
        }),
{
    lemma_a_prefix_is_read(net, len);
    lemma_parse_dotted(gw);
    lemma_parse_dotted(server);
}

/// An allowed pair is what stands before and behind the first `>`.
pub proof fn lemma_which_pairs_there_are(d: Declaration, i: int, from: Seq<char>, to: Seq<char>)
    requires
        0 <= i < d.forward.allow@.len(),
        d.forward.allow@[i]@ == from + seq!['>'] + to,
        !from.contains('>'),
    ensures
        resolved(d).forward_allow.len() == d.forward.allow@.len(),
        resolved(d).forward_allow[i] == (from, to),
{
    lemma_cut_at_the_first(from, '>', to);
}

// ---- what can be read ----

pub open spec fn token(s: Seq<char>) -> bool {
    s.len() == 1 && ('a' <= s[0] <= 'z' || 'A' <= s[0] <= 'Z')
}

/// A wire that can be read: on a domain, and without the keys that are gone.
pub open spec fn wire_reads(w: WireDecl) -> bool {
    token(w.domain@) && w.driver_features is None && w.usb is None
}

pub open spec fn member_reads(m: MemberDecl) -> bool {
    &&& forall|j: int| 0 <= j < m.wires@.len() ==> wire_reads(#[trigger] m.wires@[j])
    &&& forall|j: int|
        0 <= j < m.workloads@.len() ==> parse_host((#[trigger] m.workloads@[j]).address@) is Some
}

pub open spec fn zone_reads(z: ZoneDecl) -> bool {
    &&& forall|j: int| 0 <= j < z.segments@.len() ==> token((#[trigger] z.segments@[j]).domain@)
    &&& token(z.primary@)
    &&& z.gw is Some ==> router_of(z.gw->0.router@) is Some
    &&& z.gw is Some ==> z.gw->0.domain@ == "any"@ || token(z.gw->0.domain@)
}

/// A workload that can be read: without the keys that are gone, and with a tag that is not
/// reserved.
pub open spec fn workload_reads(w: WorkloadDecl) -> bool {
    &&& w.span is None
    &&& w.router is None
    &&& parse_prefix(w.prefix@) is Some
    &&& parse_dotted(w.gw@) is Some
    &&& w.dhcp_server is Some ==> parse_dotted(w.dhcp_server->0@) is Some
    &&& 2 <= w.vid <= 4094
}

pub open spec fn all_reads(d: Declaration) -> bool {
    &&& forall|i: int| 0 <= i < d.domains@.len() ==> token((#[trigger] d.domains@[i])@)
    &&& forall|i: int| 0 <= i < d.members@.len() ==> member_reads(#[trigger] d.members@[i])
    &&& forall|i: int| 0 <= i < d.zones@.len() ==> zone_reads(#[trigger] d.zones@[i])
    &&& forall|i: int| 0 <= i < d.workload@.len() ==> workload_reads(#[trigger] d.workload@[i])
    &&& forall|i: int|
        0 <= i < d.forward.allow@.len() ==> (#[trigger] d.forward.allow@[i])@.contains('>')
    &&& (if d.marking is Some { d.marking->0 } else { d.defaults.marking }).pcp_ctrl <= 6
    &&& (if d.bfd is Some { d.bfd->0 } else { d.defaults.bfd }).port >= 1024
}

proof fn lemma_domains(d: Seq<Seq<char>>, i: int)
    requires
        0 <= i <= d.len(),
    ensures
        domains_refusal(d, i) is None <==> forall|j: int| i <= j < d.len() ==> token(#[trigger] d[j]),
    decreases d.len() - i,
{
    if i < d.len() {
        lemma_domains(d, i + 1);
        crate::model::naming::lemma_domains_and_scopes(d[i]);
    }
}

proof fn lemma_wires(member: Seq<char>, w: Seq<WireDecl>, i: int)
    requires
        0 <= i <= w.len(),
    ensures
        wire_decls_refusal(member, w, i) is None <==> forall|j: int|
            i <= j < w.len() ==> wire_reads(#[trigger] w[j]),
    decreases w.len() - i,
{
    if i < w.len() {
        lemma_wires(member, w, i + 1);
        crate::model::naming::lemma_domains_and_scopes(w[i].domain@);
    }
}

proof fn lemma_carried(member: Seq<char>, w: Seq<MemberWorkloadDecl>, i: int)
    requires
        0 <= i <= w.len(),
    ensures
        carried_decls_refusal(member, w, i) is None <==> forall|j: int|
            i <= j < w.len() ==> parse_host((#[trigger] w[j]).address@) is Some,
    decreases w.len() - i,
{
    if i < w.len() {
        lemma_carried(member, w, i + 1);
    }
}

proof fn lemma_members(m: Seq<MemberDecl>, i: int)
    requires
        0 <= i <= m.len(),
    ensures
        members_refusal(m, i) is None <==> forall|j: int|
            i <= j < m.len() ==> member_reads(#[trigger] m[j]),
    decreases m.len() - i,
{
    if i < m.len() {
        lemma_members(m, i + 1);
        lemma_wires(m[i].name@, m[i].wires@, 0);
        lemma_carried(m[i].name@, m[i].workloads@, 0);
        assert(member_decl_refusal(m[i]) is None <==> member_reads(m[i]));
    }
}

proof fn lemma_segment_decls(z: ZoneDecl, i: int)
    requires
        0 <= i <= z.segments@.len(),
    ensures
        segment_decls_refusal(z, i) is None <==> forall|j: int|
            i <= j < z.segments@.len() ==> token((#[trigger] z.segments@[j]).domain@),
    decreases z.segments@.len() - i,
{
    if i < z.segments@.len() {
        lemma_segment_decls(z, i + 1);
        crate::model::naming::lemma_domains_and_scopes(z.segments@[i].domain@);
    }
}

proof fn lemma_zones(z: Seq<ZoneDecl>, i: int)
    requires
        0 <= i <= z.len(),
    ensures
        zones_refusal(z, i) is None <==> forall|j: int|
            i <= j < z.len() ==> zone_reads(#[trigger] z[j]),
    decreases z.len() - i,
{
    if i < z.len() {
        lemma_zones(z, i + 1);
        lemma_segment_decls(z[i], 0);
        crate::model::naming::lemma_domains_and_scopes(z[i].primary@);
        if z[i].gw is Some {
            crate::model::naming::lemma_domains_and_scopes(z[i].gw->0.domain@);
        }
        assert(zone_decl_refusal(z[i]) is None <==> zone_reads(z[i]));
    }
}

proof fn lemma_workloads(w: Seq<WorkloadDecl>, i: int)
    requires
        0 <= i <= w.len(),
    ensures
        workloads_refusal(w, i) is None <==> forall|j: int|
            i <= j < w.len() ==> workload_reads(#[trigger] w[j]),
    decreases w.len() - i,
{
    if i < w.len() {
        lemma_workloads(w, i + 1);
    }
}

proof fn lemma_cut_where_there_is(s: Seq<char>)
    ensures
        split_once(s, '>') is Some <==> s.contains('>'),
{
    lemma_find(s, '>', 0);
    let k = crate::text::find(s, '>', 0);
    if k < s.len() {
        assert(s.contains(s[k]));
    }
    if s.contains('>') {
        let j = choose|j: int| 0 <= j < s.len() && s[j] == '>';
        assert(!(j < k));
    }
}

proof fn lemma_pairs(v: Seq<Seq<char>>, i: int)
    requires
        0 <= i <= v.len(),
    ensures
        pairs_refusal(v, i) is None <==> forall|j: int|
            i <= j < v.len() ==> (#[trigger] v[j]).contains('>'),
    decreases v.len() - i,
{
    if i < v.len() {
        lemma_pairs(v, i + 1);
        lemma_cut_where_there_is(v[i]);
    }
}

/// A declaration can be read where each of its values can, and only there.
pub proof fn lemma_which_declarations_can_be_read(d: Declaration)
    ensures
        decl_refusal(d) is None <==> all_reads(d),
{
    let t = texts(d.domains@);
    let a = texts(d.forward.allow@);
    lemma_domains(t, 0);
    lemma_members(d.members@, 0);
    lemma_zones(d.zones@, 0);
    lemma_workloads(d.workload@, 0);
    lemma_pairs(a, 0);
    assert((forall|i: int| 0 <= i < t.len() ==> token(#[trigger] t[i])) <==> (forall|i: int|
        0 <= i < d.domains@.len() ==> token((#[trigger] d.domains@[i])@))) by {
        if forall|i: int| 0 <= i < t.len() ==> token(#[trigger] t[i]) {
            assert forall|i: int| 0 <= i < d.domains@.len() implies token(
                (#[trigger] d.domains@[i])@,
            ) by {
                assert(token(t[i]));
            }
        }
    }
    assert((forall|i: int| 0 <= i < a.len() ==> (#[trigger] a[i]).contains('>')) <==> (forall|
        i: int,
    |
        0 <= i < d.forward.allow@.len() ==> (#[trigger] d.forward.allow@[i])@.contains('>'))) by {
        if forall|i: int| 0 <= i < a.len() ==> (#[trigger] a[i]).contains('>') {
            assert forall|i: int| 0 <= i < d.forward.allow@.len() implies (
            #[trigger] d.forward.allow@[i])@.contains('>') by {
                assert(a[i].contains('>'));
            }
        }
    }
}

/// What a declaration that can be read comes to is accepted where it is sound, and only there.
pub proof fn lemma_a_declaration_is_accepted_where_it_is_sound(d: Declaration)
    requires
        decl_refusal(d) is None,
    ensures
        accepted(resolved(d)) <==> sound(resolved(d)),
{
    let f = resolved(d);
    lemma_which_declarations_can_be_read(d);
    crate::model::resolve::lemma_resolved_wf(d);
    assert forall|k: int| 0 <= k < f.workloads.len() implies begins_whole(
        (#[trigger] f.workloads[k]).prefix,
    ) by {
        assert(workload_reads(d.workload@[k]));
        let p = f.workloads[k].prefix;
        lemma_span(p.len as int);
    }
    crate::model::sound::lemma_accepted_is_sound(f);
}

/// What a value that cannot be read is refused with.
pub proof fn lemma_how_a_bad_value_is_told(w: WorkloadDecl, zone: Seq<char>, g: GwDecl)
    ensures
        w.span is Some ==> retired_refusal(w) == Some(
            "workload "@ + w.name@
                + ": 'span' is gone: phase 2: the VM VLAN is host-local; remove 'span'"@,
        ),
        w.span is None && w.router is Some ==> retired_refusal(w) == Some(
            "workload "@ + w.name@
                + ": 'router' is gone: phase 2: VMs default to 'gw'; remove 'router'"@,
        ),
        parse_prefix(w.prefix@) is None ==> workload_value_refusal(w) == Some(
            "workload "@ + w.name@ + ": "@ + ("prefix '"@ + w.prefix@
                + "' is not an IPv4 prefix with a length (example: 192.168.20.0/24)"@),
        ),
        parse_prefix(w.prefix@) is Some && parse_dotted(w.gw@) is None ==> workload_value_refusal(w)
            == Some(
            "workload "@ + w.name@ + ": gw '"@ + w.gw@
                + "' must be a bare IPv4 address (the prefix's mask is applied)"@,
        ),
        router_of(g.router@) is None ==> gw_decl_refusal(zone, g) == Some(
            "zone "@ + zone + ": gw router '"@ + g.router@
                + "' (expected an IPv4 address with /24, e.g. 192.168.249.254/24)"@,
        ),
{
}

} // verus!
