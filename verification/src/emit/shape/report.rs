//! Why a wire cannot be shaped, what is warned of, and what is told of its tree.

use vstd::prelude::*;

use crate::derive::MemberViewV;
use crate::emit::shape::render::{band_lines, derive_text};
use crate::emit::shape::{
    asked_bands, default_of, derive_refusal, sum_floor, sum_protected, warnings_of, wire_zones,
    zones_on, zones_refusal, BandClass, BandV, DerivationV, LinkSource,
};
use crate::model::lookup::{has_zone, zone_refusal};
use crate::model::naming::lemma_the_speed_of_a_wire;
use crate::model::validate::lemma_sorted_set;
use crate::model::{Dscp, FabricV};
use crate::text::reading::concat;
use crate::text::{dec, dec_int, join};

verus! {

/// What is warned of: a speed that was declared and not measured; and floors that are more than
/// the link holds, gravely where those of the first band alone are.
pub proof fn lemma_what_is_warned_of(dev: Seq<char>, raw: nat, declared: bool, b: Seq<BandV>)
    ensures
        ({
            let source = if declared {
                LinkSource::Declared
            } else {
                LinkSource::Measured
            };
            let l = raw * 97 / 100;
            let all = sum_floor(b, b.len() as int);
            let first = sum_protected(b, b.len() as int);
            let unmeasured = "gen-shape: WARNING dev '"@ + dev + "' using DECLARED link_speed "@
                + dec(raw) + " Mb/s (UNMEASURED — run `cfab measure-cap`; H may be wrong)"@;
            let grave = "gen-shape: HARD WARNING dev '"@ + dev
                + "' oversubscribed AND control floor UNMET: protected(band0) "@ + dec(first)
                + " > L "@ + dec(l) + " Mb/s (Sigma-floors "@ + dec(all)
                + "); ALL floors scaled by L/Sigma-floors — this is a real degraded state, not hidden"@;
            let mild = "gen-shape: WARNING dev '"@ + dev + "' oversubscribed: Sigma-floors "@ + dec(
                all,
            ) + " > L "@ + dec(l) + " Mb/s; control (band0) floor "@ + dec(first)
                + " protected in full, band>=1 floors scaled to the "@ + dec(l) + "-"@ + dec(first)
                + " leftover"@;
            warnings_of(dev, (raw, source), b) == (if declared {
                seq![unmeasured]
            } else {
                seq![]
            }) + (if all <= l {
                seq![]
            } else if first > l {
                seq![grave]
            } else {
                seq![mild]
            })
        }),
{
    let source = if declared {
        LinkSource::Declared
    } else {
        LinkSource::Measured
    };
    let w = warnings_of(dev, (raw, source), b);
    let head = if declared {
        seq![crate::emit::shape::declared_warning(dev, raw)]
    } else {
        seq![]
    };
    let e: Seq<Seq<char>> = seq![];
    assert(head + e =~= head);
    assert(head + seq![w.last()] =~= head.push(w.last()));
}

proof fn lemma_zones_on(v: MemberViewV, dev: Seq<char>, n: int, z: Seq<char>)
    requires
        0 <= n <= v.class_rows.len(),
    ensures
        zones_on(v.class_rows, dev, n).contains(z) <==> exists|i: int|
            0 <= i < n && (#[trigger] v.class_rows[i]).wire == dev && v.class_rows[i].zone == z,
    decreases n,
{
    if n > 0 {
        lemma_zones_on(v, dev, n - 1, z);
        let a = zones_on(v.class_rows, dev, n - 1);
        let b = zones_on(v.class_rows, dev, n);
        let r = v.class_rows[n - 1];
        if a.contains(z) {
            let k = choose|k: int| 0 <= k < a.len() && a[k] == z;
            assert(b[k] == z);
        }
        if b.contains(z) {
            let k = choose|k: int| 0 <= k < b.len() && b[k] == z;
            if k < a.len() {
                assert(a[k] == z);
            }
        }
        if r.wire == dev && r.zone == z {
            assert(b.last() == z);
        }
    }
}

proof fn lemma_wire_zones(v: MemberViewV, dev: Seq<char>, z: Seq<char>)
    ensures
        wire_zones(v, dev).contains(z) <==> exists|i: int|
            0 <= i < v.class_rows.len() && (#[trigger] v.class_rows[i]).wire == dev
                && v.class_rows[i].zone == z,
{
    let all = zones_on(v.class_rows, dev, v.class_rows.len() as int);
    lemma_zones_on(v, dev, v.class_rows.len() as int, z);
    lemma_sorted_set(all, all.len() as int);
    assert(all.take(all.len() as int) =~= all);
}

proof fn lemma_zones_refused(v: MemberViewV, z: Seq<Seq<char>>, i: int)
    requires
        0 <= i <= z.len(),
    ensures
        zones_refusal(v, z, i) is None <==> forall|j: int|
            i <= j < z.len() ==> has_zone(v.fabric, #[trigger] z[j]),
    decreases z.len() - i,
{
    if i < z.len() {
        lemma_zones_refused(v, z, i + 1);
    }
}

proof fn lemma_default(b: Seq<BandV>, n: int)
    requires
        0 <= n <= b.len(),
    ensures
        default_of(b, n) is Some <==> exists|i: int| 0 <= i < n && (#[trigger] b[i]).is_default,
    decreases n,
{
    if n > 0 {
        lemma_default(b, n - 1);
    }
}

/// A wire can be shaped where its speed is known, a segment is on it, the zones on it are
/// declared, and one of its bands is bulk; and what it is refused with is the first of these that
/// does not hold.
pub proof fn lemma_why_a_wire_cannot_be_shaped(
    v: MemberViewV,
    dev: Seq<char>,
    cap: Option<u64>,
    up: Seq<Seq<char>>,
    k: int,
)
    requires
        0 <= k <= v.member.wires.len(),
        forall|j: int| 0 <= j < k ==> (#[trigger] v.member.wires[j]).name != dev,
        k < v.member.wires.len() ==> v.member.wires[k].name == dev,
    ensures
        ({
            let known = cap is Some && cap->0 > 0 || k < v.member.wires.len();
            let used = exists|i: int|
                0 <= i < v.class_rows.len() && (#[trigger] v.class_rows[i]).wire == dev;
            let declared = forall|i: int|
                0 <= i < v.class_rows.len() && (#[trigger] v.class_rows[i]).wire == dev ==> has_zone(
                    v.fabric,
                    v.class_rows[i].zone,
                );
            let b = asked_bands(v, dev, up);
            let bulk = exists|i: int| 0 <= i < b.len() && (#[trigger] b[i]).is_default;
            let why = derive_refusal(v, dev, cap, up);
            &&& why is None <==> known && used && declared && bulk
            &&& !known ==> why == Some(
                "no declared link speed for "@ + v.member.name + ":"@ + dev,
            )
            &&& known && !used ==> why == Some(
                "gen-shape: no a zone's `segments` zone on wire '"@ + dev + "'"@,
            )
            &&& known && used && declared && !bulk ==> why == Some(
                "gen-shape: no default (cs0) band on dev '"@ + dev + "' — cannot pick htb default"@,
            )
        }),
{
    let z = wire_zones(v, dev);
    let b = asked_bands(v, dev, up);
    lemma_the_speed_of_a_wire(v.member, dev, k);
    lemma_zones_refused(v, z, 0);
    lemma_default(b, b.len() as int);
    if z.len() > 0 {
        assert(z.contains(z[0]));
        lemma_wire_zones(v, dev, z[0]);
    }
    if exists|i: int| 0 <= i < v.class_rows.len() && (#[trigger] v.class_rows[i]).wire == dev {
        let i = choose|i: int|
            0 <= i < v.class_rows.len() && (#[trigger] v.class_rows[i]).wire == dev;
        lemma_wire_zones(v, dev, v.class_rows[i].zone);
        assert(z.contains(v.class_rows[i].zone));
        assert(z.len() > 0);
    }
    let declared = forall|i: int|
        0 <= i < v.class_rows.len() && (#[trigger] v.class_rows[i]).wire == dev ==> has_zone(
            v.fabric,
            v.class_rows[i].zone,
        );
    if declared {
        assert forall|j: int| 0 <= j < z.len() implies has_zone(v.fabric, #[trigger] z[j]) by {
            lemma_wire_zones(v, dev, z[j]);
            assert(z.contains(z[j]));
            let i = choose|i: int|
                0 <= i < v.class_rows.len() && (#[trigger] v.class_rows[i]).wire == dev
                    && v.class_rows[i].zone == z[j];
            assert(v.class_rows[i].wire == dev);
        }
    }
    if zones_refusal(v, z, 0) is None {
        assert forall|i: int|
            0 <= i < v.class_rows.len() && (#[trigger] v.class_rows[i]).wire
                == dev implies has_zone(v.fabric, v.class_rows[i].zone) by {
            lemma_wire_zones(v, dev, v.class_rows[i].zone);
            let j = choose|j: int| 0 <= j < z.len() && z[j] == v.class_rows[i].zone;
            assert(has_zone(v.fabric, z[j]));
        }
    }
}

/// How a zone that is not declared is complained of: with the zones that are.
pub proof fn lemma_how_an_unknown_zone_is_told(f: FabricV, name: Seq<char>)
    ensures
        has_zone(f, name) ==> zone_refusal(f, name) is None,
        !has_zone(f, name) ==> zone_refusal(f, name) == Some(
            "'"@ + name + "' is not a declared zone (zones: "@ + join(
                Seq::new(f.zones.len(), |i: int| f.zones[i].name),
                " "@,
            ) + ")"@,
        ),
{
}

// ---- what is told of a tree ----

/// What is told of a band: its class, its place, its floor and what is left of it, how its traffic
/// is told apart, and why it has that floor.
pub open spec fn told(b: BandV, dev: Seq<char>) -> Seq<char> {
    let floor = if b.eff == b.floor {
        "    1:"@ + dec(b.minor) + "  "@ + b.label + "  prio "@ + dec(b.prio as nat) + "  floor "@
            + dec(b.floor) + " Mb/s  ["@
    } else {
        "    1:"@ + dec(b.minor) + "  "@ + b.label + "  prio "@ + dec(b.prio as nat) + "  floor "@
            + dec(b.floor) + " -> "@ + dec(b.eff) + " Mb/s (degraded, factor "@ + dec(b.eff) + "/"@
            + dec(b.floor) + ")  ["@
    };
    let (tag, why) = match b.class {
        BandClass::Untagged => (
            "filtered on NOT 802.1Q-tagged"@,
            "untagged admin traffic (SSH/GUI) on admin NIC "@ + dev + " -> full floor"@,
        ),
        BandClass::Dscp(d) => {
            let word = match d {
                Dscp::Cs0 => "cs0"@,
                Dscp::Cs2 => "cs2"@,
                Dscp::Cs6 => "cs6"@,
            };
            let byte = match d {
                Dscp::Cs0 => "0x00"@,
                Dscp::Cs2 => "0x40"@,
                Dscp::Cs6 => "0xc0"@,
            };
            if !b.is_default {
                (
                    "filtered on "@ + word + " / tos "@ + byte,
                    b.label + " marked traffic ("@ + word
                        + " on every sub-if, incl. control) -> full floor"@,
                )
            } else if b.effective_primary == Some(dev) {
                (
                    "default/bulk, no filter (htb default)"@,
                    b.label + " effective-primary on "@ + dev + " -> full floor"@,
                )
            } else {
                (
                    "default/bulk, no filter (htb default)"@,
                    b.label + " not effective-primary on "@ + dev
                        + " -> 1mbit token (real floor re-derives on failover)"@,
                )
            }
        },
    };
    floor + tag + "]  — "@ + why + "\n"@
}

proof fn lemma_told(d: DerivationV, n: int)
    requires
        0 <= n <= d.bands.len(),
    ensures
        band_lines(d, n) == concat(Seq::new(d.bands.len(), |i: int| told(d.bands[i], d.dev)), n),
    decreases n,
{
    if n > 0 {
        lemma_told(d, n - 1);
    }
}

/// What is told of a tree: the link and where its speed is from, every band, and what is left to
/// borrow.
pub proof fn lemma_what_is_told_of_a_tree(d: DerivationV, member: Seq<char>)
    ensures
        ({
            let link = "gen-shape derive: dev "@ + d.dev + ", link L = "@ + dec(d.l)
                + " Mb/s = 0.97 × "@ + dec(d.l_raw);
            let source = if d.source == LinkSource::Measured {
                link + " (measured)\n"@
            } else {
                link + " (declared for "@ + member + ":"@ + d.dev + ", UNMEASURED)\n"@
            };
            derive_text(d, member) == source
                + "  bands (one HTB class per DSCP band; rate=effective floor guarantee, ceil=L so idle bands lend):\n"@
                + concat(
                Seq::new(d.bands.len(), |i: int| told(d.bands[i], d.dev)),
                d.bands.len() as int,
            ) + ("H = L - Sum(effective) = "@ + dec(d.l) + " - "@ + dec(d.sum_eff) + " = "@ + dec_int(
                d.l - d.sum_eff,
            ) + " Mb/s  (borrowable headroom; H<0 impossible post-degrade)\n"@)
        }),
{
    lemma_told(d, d.bands.len() as int);
}

} // verus!
