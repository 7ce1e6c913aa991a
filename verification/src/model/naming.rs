//! What is found under a name, and how names and addresses are spelt.

use vstd::prelude::*;

use crate::derive::{declared_speed, identity_of, list_of, zone_named, MemberViewV, ZoneListV};
use crate::ipv4::{dotted, octet, quad, Ipv4Addr};
use crate::model::lookup::{
    candidates, carried, has_member, has_zone, last_member, member_names, place_of, unknown_member,
    wire_names, zone_names,
};
use crate::model::{
    cidr, dscp_text, gw_name, identity_ifname, identity_peer, is_domain_token, last_octet, leg_name,
    parse_domain_refusal, parse_scope, parse_scope_refusal, scope_text, subnet_of, tos_text, Dscp,
    FabricV, MemberV, WireV,
};
use crate::text::reading::lemma_cut_at_the_last;
use crate::text::{dec, join, lemma_dec, lemma_parse_dec};

verus! {

/// A zone is found by its name wherever it stands, and nothing is found under a name that no zone
/// has.
pub proof fn lemma_a_zone_is_found_by_name(v: MemberViewV, k: int)
    requires
        0 <= k < v.fabric.zones.len(),
        forall|i: int| 0 <= i < k ==> (#[trigger] v.fabric.zones[i]).name != v.fabric.zones[k].name,
    ensures
        zone_named(v, v.fabric.zones[k].name) == v.fabric.zones[k],
        has_zone(v.fabric, v.fabric.zones[k].name),
{
    let names = zone_names(v.fabric.zones);
    lemma_placed(names, v.fabric.zones[k].name, 0, k);
}

proof fn lemma_placed(names: Seq<Seq<char>>, name: Seq<char>, i: int, k: int)
    requires
        0 <= i <= k < names.len(),
        names[k] == name,
        forall|j: int| i <= j < k ==> #[trigger] names[j] != name,
    ensures
        place_of(names, name, i) == k,
    decreases k - i,
{
    if i < k {
        lemma_placed(names, name, i + 1, k);
    }
}

proof fn lemma_missing(names: Seq<Seq<char>>, name: Seq<char>, i: int)
    requires
        0 <= i <= names.len(),
    ensures
        i <= place_of(names, name, i) <= names.len(),
        place_of(names, name, i) < names.len() ==> names[place_of(names, name, i)] == name,
        place_of(names, name, i) == names.len() <==> forall|j: int|
            i <= j < names.len() ==> #[trigger] names[j] != name,
    decreases names.len() - i,
{
    if i < names.len() && names[i] != name {
        lemma_missing(names, name, i + 1);
    }
}

/// A fabric has the zones and members that it declares, and no others.
pub proof fn lemma_what_is_declared(f: FabricV, name: Seq<char>)
    ensures
        has_zone(f, name) <==> exists|i: int|
            0 <= i < f.zones.len() && (#[trigger] f.zones[i]).name == name,
        has_member(f, name) <==> exists|i: int|
            0 <= i < f.members.len() && (#[trigger] f.members[i]).name == name,
{
    let z = zone_names(f.zones);
    let m = member_names(f.members);
    lemma_missing(z, name, 0);
    lemma_missing(m, name, 0);
    if has_zone(f, name) {
        assert(f.zones[place_of(z, name, 0)].name == name);
    } else {
        assert forall|i: int| 0 <= i < f.zones.len() implies (#[trigger] f.zones[i]).name
            != name by {
            assert(z[i] != name);
        }
    }
    if has_member(f, name) {
        assert(f.members[place_of(m, name, 0)].name == name);
    } else {
        assert forall|i: int| 0 <= i < f.members.len() implies (#[trigger] f.members[i]).name
            != name by {
            assert(m[i] != name);
        }
    }
}

proof fn lemma_listed(lists: Seq<ZoneListV>, zone: Seq<char>, i: int, k: int)
    requires
        0 <= i <= k <= lists.len(),
        forall|j: int| i <= j < k ==> (#[trigger] lists[j]).zone != zone,
        k < lists.len() ==> lists[k].zone == zone,
    ensures
        list_of(lists, zone, i) == if k < lists.len() {
            lists[k].names
        } else {
            seq![]
        },
    decreases k - i,
{
    if i < k {
        lemma_listed(lists, zone, i + 1, k);
    }
}

/// A zone's names are those of the first list of the zone, and none where there is no list of it.
pub proof fn lemma_the_names_of_a_zone(lists: Seq<ZoneListV>, zone: Seq<char>, k: int)
    requires
        0 <= k <= lists.len(),
        forall|j: int| 0 <= j < k ==> (#[trigger] lists[j]).zone != zone,
        k < lists.len() ==> lists[k].zone == zone,
    ensures
        k < lists.len() ==> list_of(lists, zone, 0) == lists[k].names,
        k == lists.len() ==> list_of(lists, zone, 0).len() == 0,
{
    lemma_listed(lists, zone, 0, k);
}

/// A wire has the speed that is declared for it, and none has a speed that is not declared.
pub proof fn lemma_the_speed_of_a_wire(m: MemberV, dev: Seq<char>, k: int)
    requires
        0 <= k <= m.wires.len(),
        forall|j: int| 0 <= j < k ==> (#[trigger] m.wires[j]).name != dev,
        k < m.wires.len() ==> m.wires[k].name == dev,
    ensures
        k < m.wires.len() ==> declared_speed(m, dev) == Some(m.wires[k].speed_mbps),
        k == m.wires.len() ==> declared_speed(m, dev) is None,
{
    let w = wire_names(m.wires);
    if k < m.wires.len() {
        lemma_placed(w, dev, 0, k);
    } else {
        lemma_missing(w, dev, 0);
        assert forall|j: int| 0 <= j < w.len() implies #[trigger] w[j] != dev by {
            assert(m.wires[j].name != dev);
        }
    }
}

/// A member's identity in a zone is the address `10.<zone>.0.<node>`.
pub proof fn lemma_an_identity_is_an_address(zone: u8, node: u8)
    ensures
        identity_of(zone, node) == "10."@ + dec(zone as nat) + ".0."@ + dec(node as nat),
        identity_of(zone, node) == dotted(quad(10, zone as int, 0, node as int) as u32),
{
    let x = quad(10, zone as int, 0, node as int) as u32;
    assert(octet(x, 0) == 10 && octet(x, 1) == zone && octet(x, 2) == 0 && octet(x, 3) == node);
    let a = dec(zone as nat);
    let b = dec(node as nat);
    assert(dec(10) =~= seq!['1', '0']) by {
        assert(10nat / 10 == 1 && 10nat % 10 == 0);
        assert(dec(1) =~= seq!['1']);
    }
    assert(dec(0) =~= seq!['0']);
    assert("10."@ =~= dec(10) + "."@) by {
        reveal_strlit("10.");
        reveal_strlit(".");
    }
    assert(".0."@ =~= "."@ + dec(0) + "."@) by {
        reveal_strlit(".0.");
        reveal_strlit(".");
    }
    lemma_regroup(dec(10), "."@, a, dec(0), b);
}

proof fn lemma_regroup(t: Seq<char>, d: Seq<char>, a: Seq<char>, z: Seq<char>, b: Seq<char>)
    ensures
        t + d + a + (d + z + d) + b == t + d + a + d + z + d + b,
{
    assert(t + d + a + (d + z + d) + b =~= t + d + a + d + z + d + b);
}

/// The names of what is made for a zone and for a workload.
pub proof fn lemma_the_names_of_devices(id: u8, row: Seq<char>)
    ensures
        identity_ifname(id) == "cfab-id"@ + dec(id as nat),
        identity_peer(id) == "cfab-id"@ + dec(id as nat) + "-peer"@,
        gw_name(id) == "cfab-gw"@ + dec(id as nat),
        exists|k: int|
            0 <= k <= row.len() && leg_name(row) == "cfab-work-"@ + (#[trigger] row.take(k)) && (k
                < row.len() ==> crate::text::byte_len(row.take(k + 1)) > 5)
                && crate::text::byte_len(row.take(k)) <= 5,
{
    crate::text::lemma_fit(row, 5);
    let k = crate::text::fit_from(row, 0, 5);
    assert(leg_name(row) == "cfab-work-"@ + row.take(k));
}

/// A router is an address: its subnet is all but the last octet, and its octet is the last.
pub proof fn lemma_the_parts_of_a_router(subnet: Seq<char>, n: nat)
    ensures
        subnet_of(subnet + seq!['.'] + dec(n)) == subnet,
        n <= 255 ==> last_octet(subnet + seq!['.'] + dec(n)) == Some(n),
        n > 255 ==> last_octet(subnet + seq!['.'] + dec(n)) is None,
{
    lemma_dec(n);
    assert(!dec(n).contains('.')) by {
        if dec(n).contains('.') {
            let i = choose|i: int| 0 <= i < dec(n).len() && dec(n)[i] == '.';
            assert(crate::text::is_digit(dec(n)[i]));
        }
    }
    lemma_cut_at_the_last(subnet, '.', dec(n));
    if n <= 255 {
        lemma_parse_dec(n, 255);
    } else {
        assert(crate::text::unsigned_body(dec(n)) == dec(n)) by {
            assert(crate::text::is_digit(dec(n)[0]));
        }
    }
}

/// The candidates of a zone are the wires whose domain it has a segment on, in the member's order.
pub proof fn lemma_the_candidates_of_a_zone(f: FabricV, wires: Seq<WireV>, zone: Seq<char>, n: int)
    requires
        0 <= n <= wires.len(),
    ensures
        forall|w: WireV| #[trigger]
            candidates(f, wires, zone, n).contains(w) <==> exists|i: int|
                0 <= i < n && #[trigger] wires[i] == w && exists|s: int|
                    0 <= s < f.segments.len() && (#[trigger] f.segments[s]).zone == zone
                        && f.segments[s].scope == Some(w.domain),
        n > 0 ==> candidates(f, wires, zone, n - 1).is_prefix_of(candidates(f, wires, zone, n)),
        n > 0 ==> candidates(f, wires, zone, n).len() <= candidates(f, wires, zone, n - 1).len() + 1,
    decreases n,
{
    let c = candidates(f, wires, zone, n);
    if n > 0 {
        lemma_the_candidates_of_a_zone(f, wires, zone, n - 1);
        let b = candidates(f, wires, zone, n - 1);
        assert forall|w: WireV| #[trigger] c.contains(w) <==> exists|i: int|
            0 <= i < n && #[trigger] wires[i] == w && carried(f, zone, w.domain) by {
            if c.contains(w) {
                let k = choose|k: int| 0 <= k < c.len() && c[k] == w;
                if k < b.len() {
                    assert(b[k] == w);
                    assert(b.contains(w));
                } else {
                    assert(wires[n - 1] == w);
                }
            }
            if exists|i: int| 0 <= i < n && #[trigger] wires[i] == w && carried(f, zone, w.domain) {
                let i = choose|i: int|
                    0 <= i < n && #[trigger] wires[i] == w && carried(f, zone, w.domain);
                if i == n - 1 {
                    assert(c.last() == w);
                } else {
                    assert(b.contains(w));
                    let k = choose|k: int| 0 <= k < b.len() && b[k] == w;
                    assert(c[k] == w);
                }
            }
        }
    }
}

/// What a domain and a scope may be: one ASCII letter, and for a scope `any` too. A scope is
/// spelt as it is read.
pub proof fn lemma_domains_and_scopes(s: Seq<char>)
    ensures
        parse_domain_refusal(s) is None <==> s.len() == 1 && ('a' <= s[0] <= 'z' || 'A' <= s[0]
            <= 'Z'),
        parse_scope_refusal(s) is None <==> s == "any"@ || s.len() == 1 && ('a' <= s[0] <= 'z' || 'A'
            <= s[0] <= 'Z'),
        parse_scope(s) is None <==> s == "any"@,
        scope_text(parse_scope(s)) == s,
{
    if s.len() == 1 {
        assert(is_domain_token(s) <==> ('a' <= s[0] <= 'z' || 'A' <= s[0] <= 'Z'));
    }
}

/// The words of a class, and the byte that carries it: the class shifted left by five bits.
pub proof fn lemma_the_words_of_a_class(d: Dscp)
    ensures
        dscp_text(d) == match d {
            Dscp::Cs0 => "cs0"@,
            Dscp::Cs2 => "cs2"@,
            Dscp::Cs6 => "cs6"@,
        },
        tos_text(d) == match d {
            Dscp::Cs0 => "0x00"@,
            Dscp::Cs2 => "0x40"@,
            Dscp::Cs6 => "0xc0"@,
        },
{
}

/// An address with its length.
pub proof fn lemma_a_prefix_is_spelt(a: Ipv4Addr, len: u8)
    ensures
        cidr(a, len) == dotted(a.bits) + "/"@ + dec(len as nat),
{
}

/// Where members share a name, the last one of it is the one that is meant by it.
pub proof fn lemma_the_last_of_a_name_is_meant(m: Seq<MemberV>, name: Seq<char>, n: int, k: int)
    requires
        -1 <= k < n <= m.len(),
        k >= 0 ==> m[k].name == name,
        forall|j: int| k < j < n ==> (#[trigger] m[j]).name != name,
    ensures
        last_member(m, name, n) == k,
    decreases n,
{
    if n > 0 && k < n - 1 {
        assert(m[n - 1].name != name);
        if n - 1 > 0 {
            lemma_the_last_of_a_name_is_meant(m, name, n - 1, k);
        } else {
            assert(last_member(m, name, 0) == -1);
        }
    }
}

/// How a member that is not declared is complained of: with the members that are.
pub proof fn lemma_how_an_unknown_member_is_told(f: FabricV, name: Seq<char>)
    ensures
        unknown_member(f, name) == "'"@ + name + "' is not a declared member (members: "@ + join(
            Seq::new(f.members.len(), |i: int| f.members[i].name),
            " "@,
        ) + ")"@,
{
}

} // verus!
