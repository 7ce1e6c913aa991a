//! The shaping tree of one wire: a class for each band under a root that is capped at the link.
//!
//! Each band is guaranteed its floor and may borrow up to the link. The bulk band gets its full
//! floor only on its zone's effective primary, and a token elsewhere. Where the floors do not fit
//! the link, those of band 0 are protected first.

use vstd::prelude::*;

pub mod applied;
pub mod bands;
pub mod laws;
pub mod program;
pub mod report;
pub mod render;

use crate::derive::{
    declared_speed, link_speed_refusal, zone_named, ClassRow, ClassRowV, MemberView, MemberViewV,
};
pub use crate::emit::shape::applied::{AppliedWire, ShapeApplied};
pub use crate::emit::shape::render::rate_token;
use crate::error::{refuses, Error};
use crate::model::lookup::zone_refusal;
use crate::model::validate::{first, sorted_names, sorted_set};
use crate::model::{views, Dscp};
use crate::text::{
    cat3, cat5, dec, dec_u64, has_text, lemma_texts_push, opt_string, str_eq, texts,
};
use crate::textmap::{sorts_before, text_lt};

verus! {

/// Shaping at line rate leaves a standing queue, so that the link is taken at this part of it.
pub const L_EFF_PCT: u64 = 97;

/// Where the link's capacity came from.
#[derive(Debug, Clone, Copy, PartialEq, Eq, Structural)]
pub enum LinkSource {
    Measured,
    Declared,
}

/// How a band's traffic is told from the rest.
#[derive(Debug, Clone, Copy, PartialEq, Eq, Structural)]
pub enum BandClass {
    /// A code point; the first of them is the default and needs no filter.
    Dscp(Dscp),
    /// The untagged traffic of a wire that carries administration.
    Untagged,
}

#[derive(Debug)]
pub struct Band {
    pub minor: u32,
    pub prio: u32,
    pub floor: u64,
    pub eff: u64,
    pub class: BandClass,
    pub is_default: bool,
    /// The zone's name, or "admin".
    pub label: String,
    /// For the bulk band: the zone's effective primary, if it has one.
    pub effective_primary: Option<String>,
}

pub struct BandV {
    pub minor: nat,
    pub prio: u32,
    pub floor: nat,
    pub eff: nat,
    pub class: BandClass,
    pub is_default: bool,
    pub label: Seq<char>,
    pub effective_primary: Option<Seq<char>>,
}

impl View for Band {
    type V = BandV;

    open spec fn view(&self) -> BandV {
        BandV {
            minor: self.minor as nat,
            prio: self.prio,
            floor: self.floor as nat,
            eff: self.eff as nat,
            class: self.class,
            is_default: self.is_default,
            label: self.label@,
            effective_primary: opt_string(self.effective_primary),
        }
    }
}

#[derive(Debug)]
pub struct Derivation {
    pub dev: String,
    pub l_raw: u64,
    pub l: u64,
    pub source: LinkSource,
    pub bands: Vec<Band>,
    pub default_minor: u32,
    pub sum_eff: u64,
    pub warnings: Vec<String>,
}

pub struct DerivationV {
    pub dev: Seq<char>,
    pub l_raw: nat,
    pub l: nat,
    pub source: LinkSource,
    pub bands: Seq<BandV>,
    pub default_minor: nat,
    pub sum_eff: nat,
    pub warnings: Seq<Seq<char>>,
}

impl View for Derivation {
    type V = DerivationV;

    open spec fn view(&self) -> DerivationV {
        DerivationV {
            dev: self.dev@,
            l_raw: self.l_raw as nat,
            l: self.l as nat,
            source: self.source,
            bands: views(self.bands@),
            default_minor: self.default_minor as nat,
            sum_eff: self.sum_eff as nat,
            warnings: texts(self.warnings@),
        }
    }
}

// ---- the effective primary ----

/// Does a row come before another? By cost, and by the wire's name where the costs tie.
pub open spec fn cheaper(a: ClassRowV, b: ClassRowV) -> bool {
    a.ospf_cost < b.ospf_cost || (a.ospf_cost == b.ospf_cost && text_lt(a.wire, b.wire))
}

/// The cheapest of the first `n` rows that carries the zone and is up.
pub open spec fn cheapest(
    rows: Seq<ClassRowV>,
    zone: Seq<char>,
    up: Seq<Seq<char>>,
    n: int,
) -> Option<int>
    decreases n,
{
    if n <= 0 {
        None
    } else {
        let b = cheapest(rows, zone, up, n - 1);
        let r = rows[n - 1];
        if r.zone == zone && up.contains(r.wire) && (b is None || cheaper(r, rows[b->0])) {
            Some(n - 1)
        } else {
            b
        }
    }
}

/// A zone's effective primary: the wire of least cost that carries it and is up.
pub open spec fn effective_primary(
    v: MemberViewV,
    zone: Seq<char>,
    up: Seq<Seq<char>>,
) -> Option<Seq<char>> {
    match cheapest(v.class_rows, zone, up, v.class_rows.len() as int) {
        Some(i) => Some(v.class_rows[i].wire),
        None => None,
    }
}

// ---- the bands ----

/// The zones of the first `n` rows that sit on the wire, with repeats.
pub open spec fn zones_on(rows: Seq<ClassRowV>, dev: Seq<char>, n: int) -> Seq<Seq<char>>
    decreases n,
{
    if n <= 0 {
        seq![]
    } else if rows[n - 1].wire == dev {
        zones_on(rows, dev, n - 1).push(rows[n - 1].zone)
    } else {
        zones_on(rows, dev, n - 1)
    }
}

/// The zones that sit on the wire, each once and in order.
pub open spec fn wire_zones(v: MemberViewV, dev: Seq<char>) -> Seq<Seq<char>> {
    let all = zones_on(v.class_rows, dev, v.class_rows.len() as int);
    sorted_set(all, all.len() as int)
}

/// The first zone from `i` on that the fabric does not declare, as a refusal.
pub open spec fn zones_refusal(v: MemberViewV, zones: Seq<Seq<char>>, i: int) -> Option<Seq<char>>
    decreases zones.len() - i,
{
    if i >= zones.len() {
        None
    } else {
        first(zone_refusal(v.fabric, zones[i]), zones_refusal(v, zones, i + 1))
    }
}

/// The bands of a wire as they come: one for each zone, and one for untagged administration.
pub open spec fn band_list(v: MemberViewV, dev: Seq<char>) -> Seq<(u32, Seq<char>)> {
    let z = wire_zones(v, dev);
    let s = Seq::new(z.len(), |i: int| (zone_named(v, z[i]).band, z[i]));
    if v.admin_ifs.contains(dev) {
        s.push((v.fabric.admin_band, "admin"@))
    } else {
        s
    }
}

/// Does a band come before another? By its number, and by its label where they tie.
pub open spec fn band_lt(a: (u32, Seq<char>), b: (u32, Seq<char>)) -> bool {
    a.0 < b.0 || (a.0 == b.0 && text_lt(a.1, b.1))
}

pub open spec fn insert_band(s: Seq<(u32, Seq<char>)>, x: (u32, Seq<char>), i: int) -> Seq<
    (u32, Seq<char>),
>
    decreases s.len() - i,
{
    if i >= s.len() {
        s.push(x)
    } else if band_lt(x, s[i]) {
        s.insert(i, x)
    } else {
        insert_band(s, x, i + 1)
    }
}

/// The first `n` bands, in order.
pub open spec fn sort_bands(s: Seq<(u32, Seq<char>)>, n: int) -> Seq<(u32, Seq<char>)>
    decreases n,
{
    if n <= 0 {
        seq![]
    } else {
        insert_band(sort_bands(s, n - 1), s[n - 1], 0)
    }
}

pub open spec fn band_order(v: MemberViewV, dev: Seq<char>) -> Seq<(u32, Seq<char>)> {
    let s = band_list(v, dev);
    sort_bands(s, s.len() as int)
}

pub open spec fn class_of(v: MemberViewV, label: Seq<char>) -> BandClass {
    if label == "admin"@ {
        BandClass::Untagged
    } else {
        BandClass::Dscp(zone_named(v, label).dscp)
    }
}

pub open spec fn declared_floor(v: MemberViewV, label: Seq<char>) -> nat {
    if label == "admin"@ {
        v.fabric.admin_floor_mbps as nat
    } else {
        zone_named(v, label).floor_mbps as nat
    }
}

/// The band of one rank, before any floor is scaled. The bulk band has its full floor on the
/// zone's effective primary alone.
pub open spec fn band_at(
    v: MemberViewV,
    dev: Seq<char>,
    up: Seq<Seq<char>>,
    entry: (u32, Seq<char>),
    rank: int,
) -> BandV {
    let class = class_of(v, entry.1);
    let bulk = class == BandClass::Dscp(Dscp::Cs0);
    let ep = effective_primary(v, entry.1, up);
    let floor = if bulk && ep != Some(dev) {
        1
    } else {
        declared_floor(v, entry.1)
    };
    BandV {
        minor: ((rank + 1) * 10) as nat,
        prio: entry.0,
        floor,
        eff: floor,
        class,
        is_default: bulk,
        label: entry.1,
        effective_primary: if bulk {
            ep
        } else {
            None
        },
    }
}

/// The bands of the wire, in order, with the floors that they ask for.
pub open spec fn asked_bands(v: MemberViewV, dev: Seq<char>, up: Seq<Seq<char>>) -> Seq<BandV> {
    let o = band_order(v, dev);
    Seq::new(o.len(), |i: int| band_at(v, dev, up, o[i], i))
}

/// The last of the first `n` bands that is the default.
pub open spec fn default_of(b: Seq<BandV>, n: int) -> Option<nat>
    decreases n,
{
    if n <= 0 {
        None
    } else if b[n - 1].is_default {
        Some(b[n - 1].minor)
    } else {
        default_of(b, n - 1)
    }
}

// ---- the floors ----

pub open spec fn sum_floor(b: Seq<BandV>, n: int) -> nat
    decreases n,
{
    if n <= 0 {
        0
    } else {
        sum_floor(b, n - 1) + b[n - 1].floor
    }
}

/// The floors of band 0.
pub open spec fn sum_protected(b: Seq<BandV>, n: int) -> nat
    decreases n,
{
    if n <= 0 {
        0
    } else if b[n - 1].prio == 0 {
        sum_protected(b, n - 1) + b[n - 1].floor
    } else {
        sum_protected(b, n - 1)
    }
}

/// The floors of every other band.
pub open spec fn sum_degradable(b: Seq<BandV>, n: int) -> nat
    decreases n,
{
    if n <= 0 {
        0
    } else if b[n - 1].prio != 0 {
        sum_degradable(b, n - 1) + b[n - 1].floor
    } else {
        sum_degradable(b, n - 1)
    }
}

pub open spec fn sum_eff(b: Seq<BandV>, n: int) -> nat
    decreases n,
{
    if n <= 0 {
        0
    } else {
        sum_eff(b, n - 1) + b[n - 1].eff
    }
}

/// What a band is guaranteed on a link of `l`: its floor where the floors fit; else band 0 in full
/// and the rest in proportion to what is left; and where not even band 0 fits, all in proportion.
pub open spec fn effective(b: Seq<BandV>, l: nat, i: int) -> nat {
    let n = b.len() as int;
    let all = sum_floor(b, n);
    let prot = sum_protected(b, n);
    let rest = sum_degradable(b, n);
    if all <= l {
        b[i].floor
    } else if prot > l {
        b[i].floor * l / all
    } else if b[i].prio == 0 {
        b[i].floor
    } else if rest == 0 {
        0
    } else {
        b[i].floor * (l - prot) as nat / rest
    }
}

pub open spec fn scaled(b: Seq<BandV>, l: nat) -> Seq<BandV> {
    Seq::new(b.len(), |i: int| BandV { eff: effective(b, l, i), ..b[i] })
}

// ---- the link ----

/// The link's capacity, and where it came from. A measured one is preferred.
pub open spec fn link_of(v: MemberViewV, dev: Seq<char>, cap: Option<u64>) -> Option<
    (nat, LinkSource),
> {
    if cap is Some && cap->0 > 0 {
        Some((cap->0 as nat, LinkSource::Measured))
    } else {
        match declared_speed(v.member, dev) {
            Some(n) => Some((n as nat, LinkSource::Declared)),
            None => None,
        }
    }
}

pub open spec fn usable_part(raw: nat) -> nat {
    raw * L_EFF_PCT as nat / 100
}

pub open spec fn declared_warning(dev: Seq<char>, speed: nat) -> Seq<char> {
    "gen-shape: WARNING dev '"@ + dev + "' using DECLARED link_speed "@ + dec(speed)
        + " Mb/s (UNMEASURED — run `cfab measure-cap`; H may be wrong)"@
}

pub open spec fn hard_warning(dev: Seq<char>, prot: nat, l: nat, all: nat) -> Seq<char> {
    "gen-shape: HARD WARNING dev '"@ + dev
        + "' oversubscribed AND control floor UNMET: protected(band0) "@ + dec(prot) + " > L "@
        + dec(l) + " Mb/s (Sigma-floors "@ + dec(all)
        + "); ALL floors scaled by L/Sigma-floors — this is a real degraded state, not hidden"@
}

pub open spec fn soft_warning(dev: Seq<char>, prot: nat, l: nat, all: nat) -> Seq<char> {
    "gen-shape: WARNING dev '"@ + dev + "' oversubscribed: Sigma-floors "@ + dec(all) + " > L "@
        + dec(l) + " Mb/s; control (band0) floor "@ + dec(prot)
        + " protected in full, band>=1 floors scaled to the "@ + dec(l) + "-"@ + dec(prot)
        + " leftover"@
}

pub open spec fn warnings_of(
    dev: Seq<char>,
    link: (nat, LinkSource),
    b: Seq<BandV>,
) -> Seq<Seq<char>> {
    let n = b.len() as int;
    let l = usable_part(link.0);
    let head = if link.1 == LinkSource::Declared {
        seq![declared_warning(dev, link.0)]
    } else {
        seq![]
    };
    if sum_floor(b, n) <= l {
        head
    } else if sum_protected(b, n) > l {
        head.push(hard_warning(dev, sum_protected(b, n), l, sum_floor(b, n)))
    } else {
        head.push(soft_warning(dev, sum_protected(b, n), l, sum_floor(b, n)))
    }
}

// ---- the derivation ----

pub open spec fn no_zone_refusal(dev: Seq<char>) -> Seq<char> {
    "gen-shape: no a zone's `segments` zone on wire '"@ + dev + "'"@
}

pub open spec fn no_default_refusal(dev: Seq<char>) -> Seq<char> {
    "gen-shape: no default (cs0) band on dev '"@ + dev + "' — cannot pick htb default"@
}

/// Why no tree can be derived for the wire, where none can.
pub open spec fn derive_refusal(
    v: MemberViewV,
    dev: Seq<char>,
    cap: Option<u64>,
    up: Seq<Seq<char>>,
) -> Option<Seq<char>> {
    let z = wire_zones(v, dev);
    let b = asked_bands(v, dev, up);
    if link_of(v, dev, cap) is None {
        Some(link_speed_refusal(v.member.name, dev))
    } else if z.len() == 0 {
        Some(no_zone_refusal(dev))
    } else if zones_refusal(v, z, 0) is Some {
        zones_refusal(v, z, 0)
    } else if default_of(b, b.len() as int) is None {
        Some(no_default_refusal(dev))
    } else {
        None
    }
}

/// The tree of the wire.
pub open spec fn derived(
    v: MemberViewV,
    dev: Seq<char>,
    cap: Option<u64>,
    up: Seq<Seq<char>>,
) -> DerivationV {
    let link = link_of(v, dev, cap)->0;
    let l = usable_part(link.0);
    let b = asked_bands(v, dev, up);
    DerivationV {
        dev,
        l_raw: link.0,
        l,
        source: link.1,
        bands: scaled(b, l),
        default_minor: default_of(b, b.len() as int)->0,
        sum_eff: sum_eff(scaled(b, l), b.len() as int),
        warnings: warnings_of(dev, link, b),
    }
}

// ---- laws ----

/// The floors are those of band 0 and the others together.
proof fn lemma_sums(b: Seq<BandV>, n: int)
    requires
        0 <= n <= b.len(),
    ensures
        sum_floor(b, n) == sum_protected(b, n) + sum_degradable(b, n),
    decreases n,
{
    if n > 0 {
        lemma_sums(b, n - 1);
    }
}

/// The share of a part is no larger than the part.
proof fn lemma_share(part: nat, have: nat, all: nat)
    requires
        all > 0,
    ensures
        (part * have / all) * all <= part * have,
        have <= all ==> part * have / all <= part,
{
    vstd::arithmetic::div_mod::lemma_fundamental_div_mod((part * have) as int, all as int);
    let q = part * have / all;
    assert(q * all <= part * have) by (nonlinear_arith)
        requires
            (part * have) as int == all as int * (q as int) + ((part * have) as int % (all as int)),
            (part * have) as int % (all as int) >= 0,
    ;
    if have <= all {
        assert(part * have <= part * all) by (nonlinear_arith)
            requires
                have <= all,
        ;
        assert(q <= part) by (nonlinear_arith)
            requires
                q * all <= part * have,
                part * have <= part * all,
                all > 0,
        ;
    }
}

/// A band is never guaranteed more than its floor.
pub proof fn lemma_effective_within_floor(b: Seq<BandV>, l: nat, i: int)
    requires
        0 <= i < b.len(),
    ensures
        effective(b, l, i) <= b[i].floor,
{
    let n = b.len() as int;
    lemma_sums(b, n);
    let all = sum_floor(b, n);
    let prot = sum_protected(b, n);
    let rest = sum_degradable(b, n);
    if all > l {
        if prot > l {
            lemma_share(b[i].floor, l, all);
        } else if b[i].prio != 0 && rest > 0 {
            lemma_share(b[i].floor, (l - prot) as nat, rest);
        }
    }
}

proof fn lemma_sum_all_scaled(b: Seq<BandV>, l: nat, n: int)
    requires
        0 <= n <= b.len(),
        sum_floor(b, b.len() as int) > l,
        sum_protected(b, b.len() as int) > l,
    ensures
        sum_eff(scaled(b, l), n) * sum_floor(b, b.len() as int) <= sum_floor(b, n) * l,
    decreases n,
{
    if n > 0 {
        lemma_sum_all_scaled(b, l, n - 1);
        let all = sum_floor(b, b.len() as int);
        let f = b[n - 1].floor;
        let e = effective(b, l, n - 1);
        lemma_share(f, l, all);
        let s0 = sum_eff(scaled(b, l), n - 1);
        let f0 = sum_floor(b, n - 1);
        assert(scaled(b, l)[n - 1].eff == e);
        assert((s0 + e) * all <= (f0 + f) * l) by (nonlinear_arith)
            requires
                s0 * all <= f0 * l,
                e * all <= f * l,
        ;
    } else {
        assert(0 * sum_floor(b, b.len() as int) <= 0 * l) by (nonlinear_arith);
    }
}

proof fn lemma_sum_rest_scaled(b: Seq<BandV>, l: nat, n: int)
    requires
        0 <= n <= b.len(),
        sum_floor(b, b.len() as int) > l,
        sum_protected(b, b.len() as int) <= l,
    ensures
        sum_eff(scaled(b, l), n) >= sum_protected(b, n),
        (sum_eff(scaled(b, l), n) - sum_protected(b, n)) * sum_degradable(b, b.len() as int)
            <= sum_degradable(b, n) * (l - sum_protected(b, b.len() as int)),
    decreases n,
{
    let len = b.len() as int;
    lemma_sums(b, len);
    let rest = sum_degradable(b, len);
    let have = (l - sum_protected(b, len)) as nat;
    if n > 0 {
        lemma_sum_rest_scaled(b, l, n - 1);
        let f = b[n - 1].floor;
        let e = effective(b, l, n - 1);
        assert(scaled(b, l)[n - 1].eff == e);
        if b[n - 1].prio != 0 {
            lemma_share(f, have, rest);
            let x0 = (sum_eff(scaled(b, l), n - 1) - sum_protected(b, n - 1)) as nat;
            let d0 = sum_degradable(b, n - 1);
            assert((x0 + e) * rest <= (d0 + f) * have) by (nonlinear_arith)
                requires
                    x0 * rest <= d0 * have,
                    e * rest <= f * have,
            ;
        }
    } else {
        assert(0 * rest <= 0 * have) by (nonlinear_arith);
    }
}

/// What is guaranteed never exceeds the link: the headroom that is left to borrow is never
/// negative, however far the declaration oversubscribes the wire.
pub proof fn lemma_guarantees_fit(b: Seq<BandV>, l: nat)
    ensures
        sum_eff(scaled(b, l), b.len() as int) <= l,
{
    let n = b.len() as int;
    let all = sum_floor(b, n);
    lemma_sums(b, n);
    if all <= l {
        lemma_sum_unscaled(b, l, n);
    } else if sum_protected(b, n) > l {
        lemma_sum_all_scaled(b, l, n);
        let s = sum_eff(scaled(b, l), n);
        assert(s <= l) by (nonlinear_arith)
            requires
                s * all <= all * l,
                all > 0,
        ;
    } else {
        lemma_sum_rest_scaled(b, l, n);
        let rest = sum_degradable(b, n);
        let have = (l - sum_protected(b, n)) as nat;
        let x = (sum_eff(scaled(b, l), n) - sum_protected(b, n)) as nat;
        assert(x <= have) by (nonlinear_arith)
            requires
                x * rest <= rest * have,
                rest > 0,
        ;
    }
}

proof fn lemma_sum_unscaled(b: Seq<BandV>, l: nat, n: int)
    requires
        0 <= n <= b.len(),
        sum_floor(b, b.len() as int) <= l,
    ensures
        sum_eff(scaled(b, l), n) == sum_floor(b, n),
    decreases n,
{
    if n > 0 {
        lemma_sum_unscaled(b, l, n - 1);
        assert(scaled(b, l)[n - 1].eff == b[n - 1].floor);
    }
}

/// The floors of band 0 are kept in full, unless they alone exceed the link.
pub proof fn lemma_control_is_protected(b: Seq<BandV>, l: nat, i: int)
    requires
        0 <= i < b.len(),
        b[i].prio == 0,
        sum_protected(b, b.len() as int) <= l,
    ensures
        scaled(b, l)[i].eff == b[i].floor,
{
}

/// With room for every floor nothing is scaled.
pub proof fn lemma_floors_stand_where_they_fit(b: Seq<BandV>, l: nat)
    requires
        sum_floor(b, b.len() as int) <= l,
        forall|i: int| 0 <= i < b.len() ==> (#[trigger] b[i]).eff == b[i].floor,
    ensures
        scaled(b, l) == b,
{
    assert(scaled(b, l) =~= b);
}

/// The effective primary carries the zone and is up, and nothing that does is cheaper.
pub proof fn lemma_effective_primary(
    rows: Seq<ClassRowV>,
    zone: Seq<char>,
    up: Seq<Seq<char>>,
    n: int,
)
    requires
        0 <= n <= rows.len(),
    ensures
        match cheapest(rows, zone, up, n) {
            Some(i) => {
                &&& 0 <= i < n
                &&& rows[i].zone == zone
                &&& up.contains(rows[i].wire)
                &&& forall|j: int|
                    0 <= j < n && (#[trigger] rows[j]).zone == zone && up.contains(rows[j].wire)
                        ==> !cheaper(rows[j], rows[i])
            },
            None => forall|j: int|
                0 <= j < n && (#[trigger] rows[j]).zone == zone ==> !up.contains(rows[j].wire),
        },
    decreases n,
{
    if n > 0 {
        lemma_effective_primary(rows, zone, up, n - 1);
        let b = cheapest(rows, zone, up, n - 1);
        let r = rows[n - 1];
        if r.zone == zone && up.contains(r.wire) {
            crate::textmap::lemma_text_lt_total(r.wire, r.wire);
            if b is Some && cheaper(r, rows[b->0]) {
                assert forall|j: int|
                    0 <= j < n && (#[trigger] rows[j]).zone == zone && up.contains(
                        rows[j].wire,
                    ) implies !cheaper(rows[j], r) by {
                    if cheaper(rows[j], r) {
                        lemma_cheaper_trans(rows[j], r, rows[b->0]);
                    }
                }
            }
        }
    }
}

proof fn lemma_cheaper_trans(a: ClassRowV, b: ClassRowV, c: ClassRowV)
    requires
        cheaper(a, b),
        cheaper(b, c),
    ensures
        cheaper(a, c),
{
    if a.ospf_cost == b.ospf_cost && b.ospf_cost == c.ospf_cost {
        crate::textmap::lemma_text_lt_trans(a.wire, b.wire, c.wire);
    }
}

// ---- the derivation, computed ----

fn row_cheaper(a: &ClassRow, b: &ClassRow) -> (r: bool)
    ensures
        r == cheaper(a@, b@),
{
    a.ospf_cost < b.ospf_cost || (a.ospf_cost == b.ospf_cost && sorts_before(
        a.wire.as_str(),
        b.wire.as_str(),
    ))
}

fn listed(items: &Vec<String>, s: &str) -> (r: bool)
    ensures
        r == texts(items@).contains(s@),
{
    let r = has_text(items, items.len(), s);
    proof {
        let t = texts(items@);
        if t.contains(s@) {
            let j = choose|j: int| 0 <= j < t.len() && t[j] == s@;
            assert(t[j] == s@);
        }
    }
    r
}

fn eff_primary_dev(view: &MemberView, zone: &str, up: &Vec<String>) -> (r: Option<String>)
    ensures
        opt_string(r) == effective_primary(view@, zone@, texts(up@)),
{
    let rows = &view.class_rows;
    let ghost rv = views(rows@);
    let mut b: Option<usize> = None;
    let mut i: usize = 0;
    while i < rows.len()
        invariant
            i <= rows@.len(),
            rv == views(rows@),
            match b {
                Some(j) => j < i && cheapest(rv, zone@, texts(up@), i as int) == Some(j as int),
                None => cheapest(rv, zone@, texts(up@), i as int) is None,
            },
        decreases rows@.len() - i,
    {
        assert(rows@[i as int]@ == rv[i as int]);
        if str_eq(rows[i].zone.as_str(), zone) && listed(up, rows[i].wire.as_str()) {
            let better = match b {
                Some(j) => {
                    assert(rows@[j as int]@ == rv[j as int]);
                    row_cheaper(&rows[i], &rows[j])
                },
                None => true,
            };
            if better {
                b = Some(i);
            }
        }
        i = i + 1;
    }
    match b {
        Some(j) => {
            assert(rows@[j as int]@ == rv[j as int]);
            Some(rows[j].wire.clone())
        },
        None => None,
    }
}

fn zones_of_wire(view: &MemberView, dev: &str) -> (r: Vec<String>)
    ensures
        texts(r@) == wire_zones(view@, dev@),
{
    broadcast use lemma_texts_push;

    let mut out: Vec<String> = Vec::new();
    let mut i: usize = 0;
    assert(texts(out@) =~= seq![]);
    while i < view.class_rows.len()
        invariant
            i <= view.class_rows@.len(),
            texts(out@) == zones_on(view@.class_rows, dev@, i as int),
        decreases view.class_rows@.len() - i,
    {
        assert(view.class_rows@[i as int]@ == view@.class_rows[i as int]);
        if str_eq(view.class_rows[i].wire.as_str(), dev) {
            out.push(view.class_rows[i].zone.clone());
        }
        i = i + 1;
    }
    assert(texts(out@).len() == out@.len());
    sorted_names(&out)
}

pub open spec fn band_pairs(s: Seq<(u32, String)>) -> Seq<(u32, Seq<char>)> {
    Seq::new(s.len(), |i: int| (s[i].0, s[i].1@))
}

fn put_band(s: &mut Vec<(u32, String)>, band: u32, label: String)
    ensures
        band_pairs(final(s)@) == insert_band(band_pairs(old(s)@), (band, label@), 0),
{
    let ghost before = band_pairs(s@);
    let ghost x = (band, label@);
    let mut i: usize = 0;
    while i < s.len()
        invariant
            i <= s@.len(),
            before == band_pairs(old(s)@),
            s@ == old(s)@,
            x == (band, label@),
            insert_band(before, x, 0) == insert_band(before, x, i as int),
        decreases s@.len() - i,
    {
        assert(before[i as int] == (s@[i as int].0, s@[i as int].1@));
        if band < s[i].0 || (band == s[i].0 && sorts_before(label.as_str(), s[i].1.as_str())) {
            s.insert(i, (band, label));
            assert(band_pairs(s@) =~= before.insert(i as int, x));
            return;
        }
        i = i + 1;
    }
    s.push((band, label));
    assert(band_pairs(s@) =~= before.push(x));
}

/// The bands of the wire, in order, or why one of its zones is none.
fn order_of(view: &MemberView, dev: &str, zones: &Vec<String>) -> (r: Result<
    Vec<(u32, String)>,
    Error,
>)
    requires
        texts(zones@) == wire_zones(view@, dev@),
    ensures
        refuses(r, zones_refusal(view@, texts(zones@), 0)),
        r is Ok ==> band_pairs(r->Ok_0@) == band_order(view@, dev@),
{
    let ghost list = band_list(view@, dev@);
    let ghost z = wire_zones(view@, dev@);
    let mut out: Vec<(u32, String)> = Vec::new();
    assert(band_pairs(out@) =~= seq![]);
    let mut i: usize = 0;
    while i < zones.len()
        invariant
            i <= zones@.len(),
            texts(zones@) == z,
            z == wire_zones(view@, dev@),
            list == band_list(view@, dev@),
            zones_refusal(view@, z, 0) == zones_refusal(view@, z, i as int),
            band_pairs(out@) == sort_bands(list, i as int),
        decreases zones@.len() - i,
    {
        assert(z[i as int] == zones@[i as int]@);
        match view.fabric.zone(zones[i].as_str()) {
            Ok(zn) => {
                assert(zn@ == zone_named(view@, z[i as int]));
                assert(list[i as int] == (zn@.band, z[i as int]));
                put_band(&mut out, zn.band, zones[i].clone());
            },
            Err(e) => {
                return Err(e);
            },
        }
        i = i + 1;
    }
    if view.is_admin_if(dev) {
        put_band(&mut out, view.fabric.admin_band, String::from_str("admin"));
    }
    Ok(out)
}

/// Room for the numbers of every band, which are ten apart.
pub open spec fn few_bands(v: MemberViewV, dev: Seq<char>) -> bool {
    band_order(v, dev).len() * 10 <= u32::MAX
}

proof fn lemma_zones_on_len(rows: Seq<ClassRowV>, dev: Seq<char>, n: int)
    requires
        0 <= n <= rows.len(),
    ensures
        zones_on(rows, dev, n).len() <= n,
    decreases n,
{
    if n > 0 {
        lemma_zones_on_len(rows, dev, n - 1);
    }
}

proof fn lemma_insert_from_len(s: Seq<Seq<char>>, x: Seq<char>, i: int)
    requires
        0 <= i,
    ensures
        crate::model::validate::insert_from(s, x, i).len() <= s.len() + 1,
    decreases s.len() - i,
{
    if i < s.len() {
        lemma_insert_from_len(s, x, i + 1);
    }
}

proof fn lemma_sorted_set_len(names: Seq<Seq<char>>, n: int)
    requires
        0 <= n <= names.len(),
    ensures
        sorted_set(names, n).len() <= n,
    decreases n,
{
    if n > 0 {
        lemma_sorted_set_len(names, n - 1);
        lemma_insert_from_len(sorted_set(names, n - 1), names[n - 1], 0);
    }
}

proof fn lemma_insert_band_len(s: Seq<(u32, Seq<char>)>, x: (u32, Seq<char>), i: int)
    requires
        0 <= i,
    ensures
        insert_band(s, x, i).len() == s.len() + 1,
    decreases s.len() - i,
{
    if i < s.len() && !band_lt(x, s[i]) {
        lemma_insert_band_len(s, x, i + 1);
    }
}

proof fn lemma_sort_bands_len(s: Seq<(u32, Seq<char>)>, n: int)
    requires
        0 <= n <= s.len(),
    ensures
        sort_bands(s, n).len() == n,
    decreases n,
{
    if n > 0 {
        lemma_sort_bands_len(s, n - 1);
        lemma_insert_band_len(sort_bands(s, n - 1), s[n - 1], 0);
    }
}

/// There are no more bands than rows, and one for administration.
pub proof fn lemma_bands_within_rows(v: MemberViewV, dev: Seq<char>)
    ensures
        band_order(v, dev).len() <= v.class_rows.len() + 1,
{
    let n = v.class_rows.len() as int;
    lemma_zones_on_len(v.class_rows, dev, n);
    let all = zones_on(v.class_rows, dev, n);
    lemma_sorted_set_len(all, all.len() as int);
    let s = band_list(v, dev);
    lemma_sort_bands_len(s, s.len() as int);
}

proof fn lemma_insert_band_has(
    s: Seq<(u32, Seq<char>)>,
    x: (u32, Seq<char>),
    i: int,
    k: int,
)
    requires
        0 <= i,
        0 <= k < insert_band(s, x, i).len(),
    ensures
        insert_band(s, x, i)[k] == x || s.contains(insert_band(s, x, i)[k]),
    decreases s.len() - i,
{
    if i < s.len() {
        if band_lt(x, s[i]) {
            let r = s.insert(i, x);
            if k < i {
                assert(r[k] == s[k]);
            } else if k > i {
                assert(r[k] == s[k - 1]);
            }
        } else {
            lemma_insert_band_has(s, x, i + 1, k);
        }
    } else {
        if k < s.len() {
            assert(s.push(x)[k] == s[k]);
        }
    }
}

/// A sorted band was in the list.
proof fn lemma_sort_bands_has(s: Seq<(u32, Seq<char>)>, n: int, k: int)
    requires
        0 <= n <= s.len(),
        0 <= k < sort_bands(s, n).len(),
    ensures
        s.contains(sort_bands(s, n)[k]),
    decreases n,
{
    if n > 0 {
        let t = sort_bands(s, n - 1);
        lemma_insert_band_has(t, s[n - 1], 0, k);
        let x = sort_bands(s, n)[k];
        if x != s[n - 1] {
            let j = choose|j: int| 0 <= j < t.len() && t[j] == x;
            lemma_sort_bands_has(s, n - 1, j);
        } else {
            assert(s[n - 1] == x);
        }
    }
}

/// Every label is that of administration or a declared zone.
proof fn lemma_label_known(v: MemberViewV, dev: Seq<char>, k: int)
    requires
        zones_refusal(v, wire_zones(v, dev), 0) is None,
        0 <= k < band_order(v, dev).len(),
    ensures
        band_order(v, dev)[k].1 == "admin"@ || zone_refusal(v.fabric, band_order(v, dev)[k].1) is None,
{
    let s = band_list(v, dev);
    lemma_sort_bands_has(s, s.len() as int, k);
    let x = band_order(v, dev)[k];
    let j = choose|j: int| 0 <= j < s.len() && s[j] == x;
    let z = wire_zones(v, dev);
    if j < z.len() {
        lemma_zones_known(v, z, 0, j);
    }
}

proof fn lemma_zones_known(v: MemberViewV, z: Seq<Seq<char>>, i: int, j: int)
    requires
        0 <= i <= j < z.len(),
        zones_refusal(v, z, i) is None,
    ensures
        zone_refusal(v.fabric, z[j]) is None,
    decreases z.len() - i,
{
    if i < j {
        lemma_zones_known(v, z, i + 1, j);
    }
}

/// One band, before any floor is scaled.
fn band_for(view: &MemberView, dev: &str, up: &Vec<String>, entry: &(u32, String), rank: usize) -> (r:
    Band)
    requires
        rank < 0x1999_9999,
        entry.1@ == "admin"@ || zone_refusal(view@.fabric, entry.1@) is None,
    ensures
        r@ == band_at(view@, dev@, texts(up@), (entry.0, entry.1@), rank as int),
        r.floor <= u32::MAX,
{
    let label = entry.1.as_str();
    let mut class = BandClass::Untagged;
    let mut floor: u64 = view.fabric.admin_floor_mbps as u64;
    if !str_eq(label, "admin") {
        match view.fabric.zone(label) {
            Ok(z) => {
                assert(z@ == zone_named(view@, label@));
                class = BandClass::Dscp(z.dscp);
                floor = z.floor_mbps as u64;
            },
            Err(_) => {},
        }
    }
    let bulk = class == BandClass::Dscp(Dscp::Cs0);
    let mut ep: Option<String> = None;
    if bulk {
        ep = eff_primary_dev(view, label, up);
        let here = match &ep {
            Some(w) => str_eq(w.as_str(), dev),
            None => false,
        };
        if !here {
            floor = 1;
        }
    }
    Band {
        minor: (rank as u32 + 1) * 10,
        prio: entry.0,
        floor,
        eff: floor,
        class,
        is_default: bulk,
        label: entry.1.clone(),
        effective_primary: ep,
    }
}

fn bands_for(view: &MemberView, dev: &str, up: &Vec<String>, order: &Vec<(u32, String)>) -> (r: Vec<
    Band,
>)
    requires
        band_pairs(order@) == band_order(view@, dev@),
        zones_refusal(view@, wire_zones(view@, dev@), 0) is None,
        few_bands(view@, dev@),
    ensures
        views(r@) == asked_bands(view@, dev@, texts(up@)),
        r@.len() <= 0x1999_9999,
        forall|i: int| 0 <= i < r@.len() ==> (#[trigger] r@[i]).floor <= u32::MAX,
{
    let ghost o = band_order(view@, dev@);
    let ghost want = asked_bands(view@, dev@, texts(up@));
    let mut out: Vec<Band> = Vec::new();
    let mut i: usize = 0;
    while i < order.len()
        invariant
            i <= order@.len(),
            o == band_order(view@, dev@),
            want == asked_bands(view@, dev@, texts(up@)),
            band_pairs(order@) == o,
            o.len() <= 0x1999_9999,
            zones_refusal(view@, wire_zones(view@, dev@), 0) is None,
            out@.len() == i,
            forall|j: int|
                0 <= j < i ==> (#[trigger] out@[j])@ == want[j] && out@[j].floor <= u32::MAX,
        decreases order@.len() - i,
    {
        assert(o[i as int] == (order@[i as int].0, order@[i as int].1@));
        proof {
            lemma_label_known(view@, dev@, i as int);
        }
        out.push(band_for(view, dev, up, &order[i], i));
        i = i + 1;
    }
    assert(views(out@) =~= want);
    out
}

/// The sums that the scaling needs, and the default class.
fn totals(b: &Vec<Band>) -> (r: (u64, u64, u64, Option<u32>))
    requires
        b@.len() <= 0x1999_9999,
        forall|i: int| 0 <= i < b@.len() ==> (#[trigger] b@[i]).floor <= u32::MAX,
    ensures
        r.0 as nat == sum_floor(views(b@), b@.len() as int),
        r.1 as nat == sum_protected(views(b@), b@.len() as int),
        r.2 as nat == sum_degradable(views(b@), b@.len() as int),
        match r.3 {
            Some(m) => default_of(views(b@), b@.len() as int) == Some(m as nat),
            None => default_of(views(b@), b@.len() as int) is None,
        },
        r.0 <= b@.len() * u32::MAX,
{
    let ghost bv = views(b@);
    let mut all: u64 = 0;
    let mut prot: u64 = 0;
    let mut rest: u64 = 0;
    let mut minor: Option<u32> = None;
    let mut i: usize = 0;
    while i < b.len()
        invariant
            i <= b@.len(),
            b@.len() <= 0x1999_9999,
            bv == views(b@),
            forall|j: int| 0 <= j < b@.len() ==> (#[trigger] b@[j]).floor <= u32::MAX,
            all as nat == sum_floor(bv, i as int),
            prot as nat == sum_protected(bv, i as int),
            rest as nat == sum_degradable(bv, i as int),
            all <= i * u32::MAX,
            prot <= i * u32::MAX,
            rest <= i * u32::MAX,
            match minor {
                Some(m) => default_of(bv, i as int) == Some(m as nat),
                None => default_of(bv, i as int) is None,
            },
        decreases b@.len() - i,
    {
        assert(bv[i as int] == b@[i as int]@);
        assert(b@[i as int].floor <= u32::MAX);
        all = all + b[i].floor;
        if b[i].prio == 0 {
            prot = prot + b[i].floor;
        } else {
            rest = rest + b[i].floor;
        }
        if b[i].is_default {
            minor = Some(b[i].minor);
        }
        i = i + 1;
    }
    (all, prot, rest, minor)
}

/// The share of a floor: `floor * have / all`.
fn share(floor: u64, have: u64, all: u64) -> (r: u64)
    requires
        all > 0,
        have <= all,
    ensures
        r as nat == floor as nat * have as nat / all as nat,
        r <= floor,
{
    proof {
        lemma_share(floor as nat, have as nat, all as nat);
        assert(floor as nat * have as nat <= 0xffff_ffff_ffff_ffff * 0xffff_ffff_ffff_ffff)
            by (nonlinear_arith)
            requires
                floor <= 0xffff_ffff_ffff_ffffu64,
                have <= 0xffff_ffff_ffff_ffffu64,
        ;
    }
    let p: u128 = floor as u128 * have as u128;
    (p / all as u128) as u64
}

fn scale(b: &mut Vec<Band>, l: u64, all: u64, prot: u64, rest: u64) -> (r: u64)
    requires
        old(b)@.len() <= 0x1999_9999,
        forall|i: int| 0 <= i < old(b)@.len() ==> (#[trigger] old(b)@[i]).floor <= u32::MAX,
        forall|i: int| 0 <= i < old(b)@.len() ==> (#[trigger] old(b)@[i]).eff == old(b)@[i].floor,
        all as nat == sum_floor(views(old(b)@), old(b)@.len() as int),
        prot as nat == sum_protected(views(old(b)@), old(b)@.len() as int),
        rest as nat == sum_degradable(views(old(b)@), old(b)@.len() as int),
    ensures
        views(final(b)@) == scaled(views(old(b)@), l as nat),
        r as nat == sum_eff(scaled(views(old(b)@), l as nat), old(b)@.len() as int),
{
    let ghost b0 = views(b@);
    let ghost want = scaled(b0, l as nat);
    proof {
        lemma_sums(b0, b0.len() as int);
    }
    let mut sum: u64 = 0;
    let mut i: usize = 0;
    while i < b.len()
        invariant
            i <= b@.len(),
            b@.len() == b0.len(),
            b0.len() <= 0x1999_9999,
            b0 == views(old(b)@),
            want == scaled(b0, l as nat),
            all as nat == sum_floor(b0, b0.len() as int),
            prot as nat == sum_protected(b0, b0.len() as int),
            rest as nat == sum_degradable(b0, b0.len() as int),
            all == prot + rest,
            forall|j: int| 0 <= j < i ==> (#[trigger] b@[j])@ == want[j],
            forall|j: int|
                i <= j < b0.len() ==> (#[trigger] b@[j])@ == b0[j] && b0[j].eff == b0[j].floor,
            forall|j: int| 0 <= j < b0.len() ==> (#[trigger] b@[j]).floor <= u32::MAX,
            sum as nat == sum_eff(want, i as int),
            sum <= i * u32::MAX,
        decreases b@.len() - i,
    {
        assert(b@[i as int]@ == b0[i as int]);
        proof {
            lemma_effective_within_floor(b0, l as nat, i as int);
        }
        let floor: u64 = b[i].floor;
        let eff: u64 = if all <= l {
            floor
        } else if prot > l {
            share(floor, l, all)
        } else if b[i].prio == 0 {
            floor
        } else if rest == 0 {
            0
        } else {
            share(floor, l - prot, rest)
        };
        assert(eff as nat == effective(b0, l as nat, i as int));
        b[i].eff = eff;
        sum = sum + eff;
        i = i + 1;
    }
    assert(views(b@) =~= want);
    sum
}

fn percent(raw: u64) -> (r: u64)
    ensures
        r as nat == usable_part(raw as nat),
{
    let p: u128 = raw as u128 * 97;
    (p / 100) as u64
}

/// Derive the tree. `measured_cap` is the wire's measured capacity, where there is one; `up` holds
/// the wires that carry traffic now.
pub fn derive(
    view: &MemberView,
    dev: &str,
    measured_cap: Option<u64>,
    up: &Vec<String>,
) -> (r: Result<Derivation, Error>)
    requires
        few_bands(view@, dev@),
    ensures
        refuses(r, derive_refusal(view@, dev@, measured_cap, texts(up@))),
        r is Ok ==> r->Ok_0@ == derived(view@, dev@, measured_cap, texts(up@)),
{
    broadcast use lemma_texts_push;

    let ghost link = link_of(view@, dev@, measured_cap);
    let mut warnings: Vec<String> = Vec::new();
    assert(texts(warnings@) =~= seq![]);
    let measured: u64 = match measured_cap {
        Some(c) => c,
        None => 0,
    };
    let mut l_raw: u64 = measured;
    let mut source = LinkSource::Measured;
    if measured == 0 {
        match view.link_speed(dev) {
            Ok(n) => {
                l_raw = n as u64;
                source = LinkSource::Declared;
                let line = cat5(
                    "gen-shape: WARNING dev '",
                    dev,
                    "' using DECLARED link_speed ",
                    dec_u64(l_raw).as_str(),
                    " Mb/s (UNMEASURED — run `cfab measure-cap`; H may be wrong)",
                );
                warnings.push(line);
            },
            Err(e) => {
                return Err(e);
            },
        }
    }
    assert(link == Some((l_raw as nat, source)));
    let l = percent(l_raw);
    let zones = zones_of_wire(view, dev);
    assert(texts(zones@).len() == zones@.len());
    if zones.len() == 0 {
        return Err(
            Error::config(
                cat3("gen-shape: no a zone's `segments` zone on wire '", dev, "'").as_str(),
            ),
        );
    }
    let order = match order_of(view, dev, &zones) {
        Ok(o) => o,
        Err(e) => {
            return Err(e);
        },
    };
    let mut bands = bands_for(view, dev, up, &order);
    let ghost b0 = views(bands@);
    let (all, prot, rest, minor) = totals(&bands);
    let default_minor: u32 = match minor {
        Some(m) => m,
        None => {
            return Err(
                Error::config(
                    cat3(
                        "gen-shape: no default (cs0) band on dev '",
                        dev,
                        "' — cannot pick htb default",
                    ).as_str(),
                ),
            );
        },
    };
    if all > l {
        let line = if prot > l {
            hard_text(dev, dec_u64(prot).as_str(), dec_u64(l).as_str(), dec_u64(all).as_str())
        } else {
            soft_text(dev, dec_u64(prot).as_str(), dec_u64(l).as_str(), dec_u64(all).as_str())
        };
        warnings.push(line);
    }
    assert(texts(warnings@) =~= warnings_of(dev@, link->0, b0));
    assert forall|i: int| 0 <= i < bands@.len() implies (#[trigger] bands@[i]).eff
        == bands@[i].floor by {
        assert(b0[i] == bands@[i]@);
    }
    let sum = scale(&mut bands, l, all, prot, rest);
    Ok(
        Derivation {
            dev: String::from_str(dev),
            l_raw,
            l,
            source,
            bands,
            default_minor,
            sum_eff: sum,
            warnings,
        },
    )
}

fn hard_text(dev: &str, prot: &str, l: &str, all: &str) -> (r: String)
    ensures
        r@ == "gen-shape: HARD WARNING dev '"@ + dev@
            + "' oversubscribed AND control floor UNMET: protected(band0) "@ + prot@ + " > L "@ + l@
            + " Mb/s (Sigma-floors "@ + all@
            + "); ALL floors scaled by L/Sigma-floors — this is a real degraded state, not hidden"@,
{
    let mut s = String::from_str("gen-shape: HARD WARNING dev '");
    s.append(dev);
    s.append("' oversubscribed AND control floor UNMET: protected(band0) ");
    s.append(prot);
    s.append(" > L ");
    s.append(l);
    s.append(" Mb/s (Sigma-floors ");
    s.append(all);
    s.append("); ALL floors scaled by L/Sigma-floors — this is a real degraded state, not hidden");
    s
}

fn soft_text(dev: &str, prot: &str, l: &str, all: &str) -> (r: String)
    ensures
        r@ == "gen-shape: WARNING dev '"@ + dev@ + "' oversubscribed: Sigma-floors "@ + all@
            + " > L "@ + l@ + " Mb/s; control (band0) floor "@ + prot@
            + " protected in full, band>=1 floors scaled to the "@ + l@ + "-"@ + prot@
            + " leftover"@,
{
    let mut s = String::from_str("gen-shape: WARNING dev '");
    s.append(dev);
    s.append("' oversubscribed: Sigma-floors ");
    s.append(all);
    s.append(" > L ");
    s.append(l);
    s.append(" Mb/s; control (band0) floor ");
    s.append(prot);
    s.append(" protected in full, band>=1 floors scaled to the ");
    s.append(l);
    s.append("-");
    s.append(prot);
    s.append(" leftover");
    s
}

} // verus!
