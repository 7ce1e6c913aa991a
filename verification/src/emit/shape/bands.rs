//! What a wire's tree is derived to be.

use vstd::prelude::*;

use crate::derive::{zone_named, MemberViewV};
use crate::emit::shape::laws::lemma_bands_are_sorted;
use crate::emit::shape::{
    asked_bands, band_list, band_lt, band_order, cheaper, cheapest, default_of, derive_refusal,
    derived, effective_primary, lemma_effective_primary, scaled, sum_degradable, sum_eff, sum_floor,
    sum_protected, wire_zones, zones_on, BandClass, BandV, LinkSource,
};
use crate::model::lookup::{lemma_place_of, place_of, wire_names};
use crate::model::validate::{lemma_sorted_set, sorted_set};
use crate::model::Dscp;
use crate::textmap::text_lt;

verus! {

/// The link is the measured one where there is one, else the declared one, and three parts in a
/// hundred of it are left.
pub proof fn lemma_the_link(
    v: MemberViewV,
    dev: Seq<char>,
    cap: Option<u64>,
    up: Seq<Seq<char>>,
    k: int,
)
    requires
        derive_refusal(v, dev, cap, up) is None,
        0 <= k < v.member.wires.len(),
        v.member.wires[k].name == dev,
        forall|i: int, j: int|
            0 <= i < j < v.member.wires.len() ==> (#[trigger] v.member.wires[i]).name != (
            #[trigger] v.member.wires[j]).name,
    ensures
        ({
            let d = derived(v, dev, cap, up);
            &&& d.dev == dev
            &&& cap is Some && cap->0 > 0 ==> d.l_raw == cap->0 && d.source == LinkSource::Measured
            &&& cap is None || cap->0 == 0 ==> d.l_raw == v.member.wires[k].speed_mbps && d.source
                == LinkSource::Declared
            &&& 100 * d.l <= 97 * d.l_raw < 100 * d.l + 100
            &&& d.warnings.len() == (if d.source == LinkSource::Declared {
                1int
            } else {
                0
            }) + (if sum_floor(d.bands, d.bands.len() as int) > d.l {
                1int
            } else {
                0
            })
        }),
{
    let n = wire_names(v.member.wires);
    lemma_place_of(n, dev, 0);
    let p = place_of(n, dev, 0);
    assert(n[k] == dev);
    assert(n[p] == dev);
    if p < k {
        assert(v.member.wires[p].name != v.member.wires[k].name);
    }
    let b = asked_bands(v, dev, up);
    lemma_scaled_floor(b, derived(v, dev, cap, up).l, b.len() as int);
}

proof fn lemma_scaled_floor(b: Seq<BandV>, l: nat, n: int)
    requires
        0 <= n <= b.len(),
    ensures
        sum_floor(scaled(b, l), n) == sum_floor(b, n),
        sum_protected(scaled(b, l), n) == sum_protected(b, n),
        sum_degradable(scaled(b, l), n) == sum_degradable(b, n),
    decreases n,
{
    if n > 0 {
        lemma_scaled_floor(b, l, n - 1);
    }
}

/// Every band has the class, the number and the floor of its zone, and the administration's those
/// of the administration. They are numbered by tens. A bulk zone has its declared floor on the
/// wire that is its effective primary alone, and one megabit elsewhere; its band is the default.
pub proof fn lemma_a_band(
    v: MemberViewV,
    dev: Seq<char>,
    cap: Option<u64>,
    up: Seq<Seq<char>>,
    i: int,
)
    requires
        derive_refusal(v, dev, cap, up) is None,
        0 <= i < derived(v, dev, cap, up).bands.len(),
    ensures
        ({
            let b = derived(v, dev, cap, up).bands[i];
            let z = zone_named(v, b.label);
            &&& b.minor == 10 * (i + 1)
            &&& b.label == "admin"@ ==> b.class == BandClass::Untagged && !b.is_default && b.floor
                == v.fabric.admin_floor_mbps && b.effective_primary is None
            &&& b.label != "admin"@ ==> b.class == BandClass::Dscp(z.dscp)
            &&& b.is_default <==> b.class == BandClass::Dscp(Dscp::Cs0)
            &&& b.label != "admin"@ && !b.is_default ==> b.floor == z.floor_mbps
                && b.effective_primary is None
            &&& b.is_default && b.effective_primary == Some(dev) ==> b.floor == z.floor_mbps
            &&& b.is_default && b.effective_primary != Some(dev) ==> b.floor == 1
            &&& b.is_default ==> is_primary_of(v, b.label, up, b.effective_primary)
        }),
{
    let o = band_order(v, dev);
    let b = derived(v, dev, cap, up).bands[i];
    assert(b.label == o[i].1);
    if b.is_default {
        lemma_primary_of(v, b.label, up);
    }
}

/// Is this the cheapest wire that carries the zone and is up, the first by name of equally cheap
/// ones, and nothing where none does?
pub open spec fn is_primary_of(
    v: MemberViewV,
    zone: Seq<char>,
    up: Seq<Seq<char>>,
    wire: Option<Seq<char>>,
) -> bool {
    match wire {
        Some(w) => exists|i: int|
            0 <= i < v.class_rows.len() && (#[trigger] v.class_rows[i]).zone == zone
                && v.class_rows[i].wire == w && up.contains(w) && forall|j: int|
                0 <= j < v.class_rows.len() && (#[trigger] v.class_rows[j]).zone == zone
                    && up.contains(v.class_rows[j].wire) ==> v.class_rows[i].ospf_cost
                    < v.class_rows[j].ospf_cost || (v.class_rows[i].ospf_cost
                    == v.class_rows[j].ospf_cost && !text_lt(v.class_rows[j].wire, w)),
        None => forall|j: int|
            0 <= j < v.class_rows.len() && (#[trigger] v.class_rows[j]).zone == zone
                ==> !up.contains(v.class_rows[j].wire),
    }
}

proof fn lemma_primary_of(v: MemberViewV, zone: Seq<char>, up: Seq<Seq<char>>)
    ensures
        is_primary_of(v, zone, up, effective_primary(v, zone, up)),
{
    let n = v.class_rows.len() as int;
    lemma_effective_primary(v.class_rows, zone, up, n);
    let c = cheapest(v.class_rows, zone, up, n);
    if c is Some {
        let i = c->0;
        assert(v.class_rows[i].zone == zone);
        assert forall|j: int|
            0 <= j < n && (#[trigger] v.class_rows[j]).zone == zone && up.contains(
                v.class_rows[j].wire,
            ) implies v.class_rows[i].ospf_cost < v.class_rows[j].ospf_cost || (
        v.class_rows[i].ospf_cost == v.class_rows[j].ospf_cost && !text_lt(
            v.class_rows[j].wire,
            v.class_rows[i].wire,
        )) by {
            assert(!cheaper(v.class_rows[j], v.class_rows[i]));
        }
    }
}

proof fn lemma_zones_on(v: MemberViewV, dev: Seq<char>, n: int, zone: Seq<char>)
    requires
        0 <= n <= v.class_rows.len(),
    ensures
        zones_on(v.class_rows, dev, n).contains(zone) <==> exists|i: int|
            0 <= i < n && (#[trigger] v.class_rows[i]).wire == dev && v.class_rows[i].zone == zone,
    decreases n,
{
    let r = v.class_rows;
    if n > 0 {
        lemma_zones_on(v, dev, n - 1, zone);
        let b = zones_on(r, dev, n - 1);
        let a = zones_on(r, dev, n);
        if r[n - 1].wire == dev {
            if b.contains(zone) {
                let k = choose|k: int| 0 <= k < b.len() && b[k] == zone;
                assert(a[k] == zone);
            }
            if r[n - 1].zone == zone {
                assert(a[b.len() as int] == zone);
            }
            if a.contains(zone) && r[n - 1].zone != zone {
                let k = choose|k: int| 0 <= k < a.len() && a[k] == zone;
                assert(b[k] == zone);
            }
        }
    }
}

/// A wire has a band for every zone that it carries and, where it is one of the member's
/// administration, one for that; and no other. They stand by their number, and by name where
/// numbers are equal.
pub proof fn lemma_the_bands_of_a_wire(
    v: MemberViewV,
    dev: Seq<char>,
    cap: Option<u64>,
    up: Seq<Seq<char>>,
    label: Seq<char>,
    prio: u32,
)
    ensures
        ({
            let b = derived(v, dev, cap, up).bands;
            &&& (exists|i: int|
                0 <= i < b.len() && (#[trigger] b[i]).label == label && b[i].prio == prio) <==> {
                ||| prio == zone_named(v, label).band && exists|i: int|
                    0 <= i < v.class_rows.len() && (#[trigger] v.class_rows[i]).wire == dev
                        && v.class_rows[i].zone == label
                ||| label == "admin"@ && prio == v.fabric.admin_band && v.admin_ifs.contains(dev)
            }
            &&& forall|i: int, j: int|
                0 <= i < j < b.len() ==> (#[trigger] b[i]).prio < (#[trigger] b[j]).prio || (
                b[i].prio == b[j].prio && !text_lt(b[j].label, b[i].label))
        }),
{
    broadcast use vstd::seq_lib::group_to_multiset_ensures;

    let o = band_order(v, dev);
    let s = band_list(v, dev);
    let b = derived(v, dev, cap, up).bands;
    lemma_bands_are_sorted(v, dev);
    let all = zones_on(v.class_rows, dev, v.class_rows.len() as int);
    let z = wire_zones(v, dev);
    lemma_sorted_set(all, all.len() as int);
    assert(all.take(all.len() as int) =~= all);
    lemma_zones_on(v, dev, v.class_rows.len() as int, label);
    let x = (prio, label);
    assert(o.contains(x) <==> s.contains(x)) by {
        assert(o.to_multiset().count(x) == s.to_multiset().count(x));
    }
    assert(forall|i: int| 0 <= i < b.len() ==> (#[trigger] b[i]).label == o[i].1 && b[i].prio
        == o[i].0);
    assert(o.contains(x) <==> exists|i: int|
        0 <= i < b.len() && (#[trigger] b[i]).label == label && b[i].prio == prio) by {
        if o.contains(x) {
            let i = choose|i: int| 0 <= i < o.len() && o[i] == x;
            assert(b[i].label == label);
        }
        if exists|i: int|
            0 <= i < b.len() && (#[trigger] b[i]).label == label && b[i].prio == prio {
            let i = choose|i: int|
                0 <= i < b.len() && (#[trigger] b[i]).label == label && b[i].prio == prio;
            assert(o[i] == x);
        }
    }
    if s.contains(x) {
        let i = choose|i: int| 0 <= i < s.len() && s[i] == x;
        if i < z.len() {
            assert(z[i] == label);
            assert(sorted_set(all, all.len() as int).contains(label));
        }
    }
    if z.contains(label) && prio == zone_named(v, label).band {
        let i = choose|i: int| 0 <= i < z.len() && z[i] == label;
        assert(s[i] == x);
    }
    if label == "admin"@ && prio == v.fabric.admin_band && v.admin_ifs.contains(dev) {
        assert(s[z.len() as int] == x);
    }
    assert forall|i: int, j: int| 0 <= i < j < b.len() implies (#[trigger] b[i]).prio < (
    #[trigger] b[j]).prio || (b[i].prio == b[j].prio && !text_lt(b[j].label, b[i].label)) by {
        assert(!band_lt(o[j], o[i]));
    }
}

/// What a band is guaranteed where the floors do not all fit: control keeps its floors where they
/// fit, and what is left is shared among the others in proportion to their floors; where not even
/// control fits, the link is shared among all in proportion. Nothing is lost but the part of a
/// megabit.
pub proof fn lemma_floors_are_shared(b: Seq<BandV>, l: nat, i: int)
    requires
        0 <= i < b.len(),
        sum_floor(b, b.len() as int) > l,
    ensures
        ({
            let n = b.len() as int;
            let eff = scaled(b, l)[i].eff;
            let all = sum_floor(b, n);
            let prot = sum_protected(b, n);
            let rest = sum_degradable(b, n);
            &&& all == prot + rest
            &&& prot > l ==> eff * all <= b[i].floor * l < (eff + 1) * all
            &&& prot <= l && b[i].prio == 0 ==> eff == b[i].floor
            &&& prot <= l && b[i].prio != 0 ==> eff * rest <= b[i].floor * (l - prot) < (eff + 1)
                * rest
        }),
{
    let n = b.len() as int;
    let all = sum_floor(b, n);
    let prot = sum_protected(b, n);
    let rest = sum_degradable(b, n);
    lemma_split_sums(b, n);
    let f = b[i].floor;
    if prot > l {
        lemma_share_exact(f * l, all);
    } else if b[i].prio != 0 {
        lemma_share_exact(f * (l - prot) as nat, rest);
    }
}

proof fn lemma_split_sums(b: Seq<BandV>, n: int)
    requires
        0 <= n <= b.len(),
    ensures
        sum_floor(b, n) == sum_protected(b, n) + sum_degradable(b, n),
    decreases n,
{
    if n > 0 {
        lemma_split_sums(b, n - 1);
    }
}

proof fn lemma_share_exact(x: nat, d: nat)
    requires
        d > 0,
    ensures
        (x / d) * d <= x < (x / d + 1) * d,
{
    vstd::arithmetic::div_mod::lemma_fundamental_div_mod(x as int, d as int);
    let q = x / d;
    assert(q * d == d * q) by (nonlinear_arith);
    assert((q + 1) * d == q * d + d) by (nonlinear_arith);
}

/// The sums that the sharing goes by: of all floors, of those of band 0, of the others, and of
/// what is guaranteed.
pub proof fn lemma_the_sums(b: Seq<BandV>, n: int)
    requires
        0 <= n < b.len(),
    ensures
        sum_floor(b, 0) == 0 && sum_protected(b, 0) == 0 && sum_degradable(b, 0) == 0 && sum_eff(
            b,
            0,
        ) == 0,
        sum_floor(b, n + 1) == sum_floor(b, n) + b[n].floor,
        sum_eff(b, n + 1) == sum_eff(b, n) + b[n].eff,
        sum_protected(b, n + 1) - sum_protected(b, n) == (if b[n].prio == 0 {
            b[n].floor as int
        } else {
            0
        }),
        sum_degradable(b, n + 1) - sum_degradable(b, n) == (if b[n].prio == 0 {
            0
        } else {
            b[n].floor as int
        }),
{
}

proof fn lemma_default(b: Seq<BandV>, n: int)
    requires
        0 <= n <= b.len(),
    ensures
        match default_of(b, n) {
            Some(m) => exists|i: int| 0 <= i < n && (#[trigger] b[i]).is_default && b[i].minor == m,
            None => forall|i: int| 0 <= i < n ==> !(#[trigger] b[i]).is_default,
        },
    decreases n,
{
    if n > 0 {
        lemma_default(b, n - 1);
    }
}

/// What is not classified goes to a bulk band, and a wire without one has no tree. The headroom
/// is the link without what is guaranteed.
pub proof fn lemma_the_default_is_bulk(
    v: MemberViewV,
    dev: Seq<char>,
    cap: Option<u64>,
    up: Seq<Seq<char>>,
)
    ensures
        derive_refusal(v, dev, cap, up) is None ==> {
            let d = derived(v, dev, cap, up);
            &&& d.sum_eff == sum_eff(d.bands, d.bands.len() as int)
            &&& exists|i: int|
                0 <= i < d.bands.len() && (#[trigger] d.bands[i]).is_default && d.bands[i].minor
                    == d.default_minor
        },
        (forall|i: int|
            0 <= i < asked_bands(v, dev, up).len() ==> !(#[trigger] asked_bands(
                v,
                dev,
                up,
            )[i]).is_default) ==> derive_refusal(v, dev, cap, up) is Some,
{
    let b = asked_bands(v, dev, up);
    lemma_default(b, b.len() as int);
    if derive_refusal(v, dev, cap, up) is None {
        let d = derived(v, dev, cap, up);
        let i = choose|i: int|
            0 <= i < b.len() && (#[trigger] b[i]).is_default && b[i].minor == d.default_minor;
        assert(d.bands[i].is_default);
    }
}

} // verus!
