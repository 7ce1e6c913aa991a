//! The prober: which wire of a bond still reaches the other side, and where the bond belongs.

use vstd::prelude::*;

use crate::derive::{
    list_of, names_of, zone_named, FallbackRow, FallbackRowV, GwRow, GwRowV, LegPort, LegPortV,
    MemberView, MemberViewV,
};
use crate::engine::SOCK_NAME;
use crate::ipv4::{parse_dotted, quad, Ipv4Addr};
use crate::model::lookup::{has_zone, place_of, wire_names};
use crate::model::{views, FabricV, Member, MemberV};
use crate::prober::frame::{synthetic, synthetic_mac};
use crate::prober::leg::{fresh_leg, is_quiet, Fallback, FallbackV, Kind, KindV, Leg, LegV};
use crate::prober::passive::Windows;
use crate::prober::port::{fresh_port, PortV, ProbePort};
use crate::text::{cat3, cat5, dec, dec_u64, has_text, lemma_texts_push, opt_string, str_eq, texts};
use crate::textmap::TextMap;
use crate::time::{secs, since, Duration, Instant};

pub mod account;
pub mod asking;
pub mod bpf;
pub mod conduct;
pub mod decide;
pub mod frame;
pub mod laws;
pub mod leg;
pub mod moving;
pub mod passive;
pub mod port;
pub mod tick;

verus! {

/// How often every port is asked, in nanoseconds: three observations call a wire dead or alive
/// well inside the router's hold time.
pub const PROBE_INTERVAL: u64 = 500_000_000;

// ---- the legs ----

/// The switch domain that a wire lands in: nothing for a wire that the member does not have.
pub open spec fn island_of(m: MemberV, wire: Seq<char>) -> Seq<char> {
    let k = place_of(wire_names(m.wires), wire, 0);
    if k < m.wires.len() {
        m.wires[k].domain
    } else {
        seq![]
    }
}

/// A port of a leg that nothing is known of yet.
pub open spec fn port_on_wire(m: MemberV, zone_id: u8, p: LegPortV, i: int) -> PortV {
    fresh_port(
        p.ifname,
        p.wire,
        island_of(m, p.wire),
        synthetic(m.node, zone_id, (i % 256) as u8),
    )
}

pub open spec fn ports_on_wires(m: MemberV, zone_id: u8, p: Seq<LegPortV>) -> Seq<PortV> {
    Seq::new(p.len(), |i: int| port_on_wire(m, zone_id, p[i], i))
}

/// The leg of an ingress row. A leg that cannot migrate is a port of its own. There is none
/// where the zone has no router.
pub open spec fn ingress_leg(v: MemberViewV, r: GwRowV) -> Option<LegV> {
    let z = zone_named(v, r.zone);
    if !has_zone(v.fabric, r.zone) || z.gw is None || parse_dotted(z.gw->0.router) is None {
        None
    } else {
        let ports = if r.ports.len() > 0 {
            r.ports
        } else {
            seq![LegPortV { ifname: r.ifname, wire: r.home }]
        };
        Some(
            fresh_leg(
                r.zone,
                r.ifname,
                r.ports.len() > 0,
                list_of(v.prefs, r.zone, 0),
                r.home,
                ports_on_wires(v.member, z.id, ports),
                KindV::Ingress { router: Ipv4Addr { bits: parse_dotted(z.gw->0.router)->0 } },
            ),
        )
    }
}

/// Is this member a peer on the universal segment of a zone? Every other member that carries one
/// is.
pub open spec fn is_peer(v: MemberViewV, zone: Seq<char>, m: MemberV) -> bool {
    m.name != v.member.name && list_of(v.fallback_members, zone, 0).contains(m.name)
}

/// A member's Router ID in a zone.
pub open spec fn rid_of(zone_id: u8, node: u8) -> u32 {
    quad(10, zone_id as int, 0, node as int) as u32
}

/// The addresses on a segment of the peers among the first `n` members.
pub open spec fn peer_targets(v: MemberViewV, r: FallbackRowV, zone_id: u8, n: int) -> Seq<Ipv4Addr>
    decreases n,
{
    if n <= 0 {
        seq![]
    } else {
        let t = peer_targets(v, r, zone_id, n - 1);
        let m = v.fabric.members[n - 1];
        if is_peer(v, r.zone, m) {
            t.push(
                Ipv4Addr {
                    bits: quad(10, zone_id as int, r.seg as int, m.node as int) as u32,
                },
            )
        } else {
            t
        }
    }
}

/// The first position from `i` on that holds no smaller number.
pub open spec fn rid_place(s: Seq<u32>, x: u32, i: int) -> int
    decreases s.len() - i,
{
    if i >= s.len() {
        s.len() as int
    } else if s[i] < x {
        rid_place(s, x, i + 1)
    } else {
        i
    }
}

/// A set of numbers in order, with one more.
pub open spec fn with_rid(s: Seq<u32>, x: u32) -> Seq<u32> {
    let k = rid_place(s, x, 0);
    if k < s.len() && s[k] == x {
        s
    } else {
        s.insert(k, x)
    }
}

/// The Router IDs of the peers among the first `n` members, in order.
pub open spec fn peer_rids(v: MemberViewV, r: FallbackRowV, zone_id: u8, n: int) -> Seq<u32>
    decreases n,
{
    if n <= 0 {
        seq![]
    } else {
        let t = peer_rids(v, r, zone_id, n - 1);
        let m = v.fabric.members[n - 1];
        if is_peer(v, r.zone, m) {
            with_rid(t, rid_of(zone_id, m.node))
        } else {
            t
        }
    }
}

/// The windows that the declared timers make.
pub open spec fn windows_of(hello_s: u32, dead_s: u32) -> Windows {
    let hello = secs(hello_s as nat);
    let dead = Duration { ns: secs(dead_s as nat) as u64 };
    Windows {
        active: Duration { ns: (hello + hello / 2) as u64 },
        backup: dead,
        grace: dead,
        dead,
        hello: Duration { ns: hello as u64 },
    }
}

/// The leg of a zone's universal segment.
pub open spec fn fallback_leg(v: MemberViewV, r: FallbackRowV) -> Option<LegV> {
    let z = zone_named(v, r.zone);
    let n = v.fabric.members.len() as int;
    if !has_zone(v.fabric, r.zone) {
        None
    } else {
        Some(
            fresh_leg(
                r.zone,
                r.ifname,
                true,
                list_of(v.prefs, r.zone, 0),
                r.home,
                ports_on_wires(v.member, z.id, r.ports),
                KindV::Fallback(
                    FallbackV {
                        targets: peer_targets(v, r, z.id, n),
                        peers: peer_rids(v, r, z.id, n),
                        self_rid: rid_of(z.id, v.member.node),
                        windows: windows_of(v.fabric.ospf_hello, v.fabric.ospf_dead),
                        quiet_now: false,
                        noted_quiet: false,
                        noted_deaf: false,
                        engine_sock: v.fabric.run_dir + "/"@ + SOCK_NAME@,
                        noted_engine_unreadable: false,
                    },
                ),
            ),
        )
    }
}

/// Some legs, and one more where there is one.
pub open spec fn and_leg(l: Seq<LegV>, one: Option<LegV>) -> Seq<LegV> {
    match one {
        Some(x) => l.push(x),
        None => l,
    }
}

/// The legs of the first `n` ingress rows.
pub open spec fn ingress_legs(v: MemberViewV, n: int) -> Seq<LegV>
    decreases n,
{
    if n <= 0 {
        seq![]
    } else {
        and_leg(ingress_legs(v, n - 1), ingress_leg(v, v.gw_rows[n - 1]))
    }
}

/// The legs of all ingress rows and of the first `n` universal segments.
pub open spec fn legs_of(v: MemberViewV, n: int) -> Seq<LegV>
    decreases n,
{
    if n <= 0 {
        ingress_legs(v, v.gw_rows.len() as int)
    } else {
        and_leg(legs_of(v, n - 1), fallback_leg(v, v.fallback_rows[n - 1]))
    }
}

/// Can a move be decided before the adjacency expires?
pub open spec fn in_time(f: FabricV) -> bool {
    windows_of(f.ospf_hello, f.ospf_dead).active.ns + PROBE_INTERVAL <= secs(f.ospf_dead as nat)
}

pub open spec fn late_line(f: FabricV) -> Seq<char> {
    "cfab: warn: [ospf] hello "@ + dec(f.ospf_hello as nat) + " s with dead "@ + dec(
        f.ospf_dead as nat,
    ) + " s leaves no room to move a fallback bond before the adjacency expires"@
}

/// Is there a leg that listens?
pub open spec fn any_fallback(l: Seq<LegV>) -> bool {
    exists|i: int| 0 <= i < l.len() && (#[trigger] l[i]).kind is Fallback
}

/// What is said at the start: that with these timers a move can only ever be late.
pub open spec fn first_lines(v: MemberViewV) -> Seq<Seq<char>> {
    if any_fallback(legs_of(v, v.fallback_rows.len() as int)) && !in_time(v.fabric) {
        seq![late_line(v.fabric)]
    } else {
        seq![]
    }
}

// ---- what is held and what is reported ----

/// The port that each bond must name as its primary.
#[derive(Debug)]
pub struct HeldPrimaries {
    pub ports: TextMap<String>,
}

impl HeldPrimaries {
    pub open spec fn wf(self) -> bool {
        self.ports.wf()
    }

    /// The port that is held for a bond, if one is.
    pub open spec fn held(self, bond: Seq<char>) -> Option<Seq<char>> {
        if self.ports.has(bond) {
            Some(self.ports.value_of(bond)@)
        } else {
            None
        }
    }

    pub fn new() -> (r: HeldPrimaries)
        ensures
            r.wf(),
            forall|b: Seq<char>| #[trigger] r.held(b) is None,
    {
        HeldPrimaries { ports: TextMap::new() }
    }

    /// The port that this bond's primary must name, if one is held for it.
    pub fn port_for(&self, bond: &str) -> (r: Option<&str>)
        requires
            self.wf(),
        ensures
            match r {
                Some(p) => self.held(bond@) == Some(p@),
                None => self.held(bond@) is None,
            },
    {
        match self.ports.get(bond) {
            Some(p) => Some(p.as_str()),
            None => None,
        }
    }

    /// Record a choice.
    pub fn hold(&mut self, bond: &str, port: &str)
        requires
            old(self).wf(),
        ensures
            final(self).wf(),
            final(self).held(bond@) == Some(port@),
            forall|b: Seq<char>| b != bond@ ==> #[trigger] final(self).held(b) == old(self).held(b),
    {
        let ghost was = self.ports;
        self.ports.insert(String::from_str(bond), String::from_str(port));
        assert forall|b: Seq<char>| b != bond@ implies #[trigger] self.held(b) == (HeldPrimaries {
            ports: was,
        }).held(b) by {
            assert(self.ports.has(b) == was.has(b));
            if was.has(b) {
                assert(self.ports.value_of(b) == was.value_of(b));
            }
        }
    }

    pub fn is_empty(&self) -> (r: bool)
        requires
            self.wf(),
        ensures
            r == (self.ports.keys().len() == 0),
    {
        self.ports.is_empty()
    }
}

/// What is reported of one leg.
#[derive(Debug, PartialEq, Eq)]
pub struct ProbedLeg {
    pub zone: String,
    pub bond: String,
    /// The port that the kernel has active.
    pub active: Option<String>,
    /// Nothing was heard on any wire.
    pub quiet: bool,
    pub ports: Vec<ProbedPort>,
}

#[derive(Debug, PartialEq, Eq)]
pub struct ProbedPort {
    pub wire: String,
    pub island: String,
    pub reachable: bool,
    /// Silent and being asked.
    pub suspect: bool,
    /// Milliseconds since the last answer, where there was one.
    pub last_reply_ms: Option<u64>,
}

pub struct ProbedLegV {
    pub zone: Seq<char>,
    pub bond: Seq<char>,
    pub active: Option<Seq<char>>,
    pub quiet: bool,
    pub ports: Seq<ProbedPortV>,
}

pub struct ProbedPortV {
    pub wire: Seq<char>,
    pub island: Seq<char>,
    pub reachable: bool,
    pub suspect: bool,
    pub last_reply_ms: Option<u64>,
}

impl View for ProbedPort {
    type V = ProbedPortV;

    open spec fn view(&self) -> ProbedPortV {
        ProbedPortV {
            wire: self.wire@,
            island: self.island@,
            reachable: self.reachable,
            suspect: self.suspect,
            last_reply_ms: self.last_reply_ms,
        }
    }
}

impl View for ProbedLeg {
    type V = ProbedLegV;

    open spec fn view(&self) -> ProbedLegV {
        ProbedLegV {
            zone: self.zone@,
            bond: self.bond@,
            active: opt_string(self.active),
            quiet: self.quiet,
            ports: views(self.ports@),
        }
    }
}

/// The two families of leg.
#[derive(Debug, PartialEq, Eq)]
pub struct ProbeRows {
    pub ingress: Vec<ProbedLeg>,
    pub fallback: Vec<ProbedLeg>,
}

/// What is reported of a port: one without carrier reaches nothing, whatever was answered before.
pub open spec fn port_row(p: PortV, now: Instant) -> ProbedPortV {
    ProbedPortV {
        wire: p.wire,
        island: p.island,
        reachable: p.state.reachable && p.carrier && !p.hello_dead,
        suspect: p.escalating,
        last_reply_ms: match p.last_reply {
            Some(t) => Some((since(now, t) as int / 1_000_000) as u64),
            None => None,
        },
    }
}

pub open spec fn leg_row(l: LegV, now: Instant) -> ProbedLegV {
    ProbedLegV {
        zone: l.zone,
        bond: l.bond,
        active: l.active_now,
        quiet: is_quiet(l),
        ports: Seq::new(l.ports.len(), |i: int| port_row(l.ports[i], now)),
    }
}

/// The rows of the first `n` legs of one family.
pub open spec fn rows_of(l: Seq<LegV>, fallback: bool, now: Instant, n: int) -> Seq<ProbedLegV>
    decreases n,
{
    if n <= 0 {
        seq![]
    } else {
        let b = rows_of(l, fallback, now, n - 1);
        if (l[n - 1].kind is Fallback) == fallback {
            b.push(leg_row(l[n - 1], now))
        } else {
            b
        }
    }
}

/// The port that is held for a bond by the last of the first `n` legs that moves it.
pub open spec fn held_by(l: Seq<LegV>, bond: Seq<char>, n: int) -> Option<Seq<char>>
    decreases n,
{
    if n <= 0 {
        None
    } else if l[n - 1].actuates && l[n - 1].bond == bond {
        Some(l[n - 1].held)
    } else {
        held_by(l, bond, n - 1)
    }
}

/// Every leg that this member probes, and what there is to say.
#[derive(Debug)]
pub struct Prober {
    pub legs: Vec<Leg>,
    pub log: Vec<String>,
}

// ---- building the legs ----

fn domain_of(m: &Member, wire: &str) -> (r: String)
    ensures
        r@ == island_of(m@, wire@),
{
    match m.wire_named(wire) {
        Some(w) => String::from_str(w.domain.as_str()),
        None => {
            let r = String::new();
            assert(r@ =~= seq![]);
            r
        },
    }
}

fn port_at(m: &Member, zone_id: u8, ifname: &str, wire: &str, i: usize) -> (r: ProbePort)
    ensures
        r@ == port_on_wire(m@, zone_id, (LegPortV { ifname: ifname@, wire: wire@ }), i as int),
{
    ProbePort::new(
        String::from_str(ifname),
        String::from_str(wire),
        domain_of(m, wire),
        synthetic_mac(m.node, zone_id, (i % 256) as u8),
    )
}

fn ports_of(m: &Member, zone_id: u8, p: &Vec<LegPort>) -> (r: Vec<ProbePort>)
    ensures
        views(r@) == ports_on_wires(m@, zone_id, views(p@)),
{
    let mut out: Vec<ProbePort> = Vec::new();
    let mut i: usize = 0;
    while i < p.len()
        invariant
            i <= p@.len(),
            out@.len() == i,
            forall|j: int|
                0 <= j < i ==> (#[trigger] out@[j])@ == port_on_wire(m@, zone_id, p@[j]@, j),
        decreases p@.len() - i,
    {
        let x = port_at(m, zone_id, p[i].ifname.as_str(), p[i].wire.as_str(), i);
        out.push(x);
        i = i + 1;
    }
    assert(views(out@) =~= ports_on_wires(m@, zone_id, views(p@)));
    out
}

fn add_rid(s: &mut Vec<u32>, x: u32)
    ensures
        final(s)@ == with_rid(old(s)@, x),
{
    let ghost was = s@;
    let mut i: usize = 0;
    while i < s.len() && s[i] < x
        invariant
            i <= s@.len(),
            s@ == was,
            rid_place(was, x, 0) == rid_place(was, x, i as int),
        decreases s@.len() - i,
    {
        i = i + 1;
    }
    if i < s.len() && s[i] == x {
        return;
    }
    s.insert(i, x);
}

fn ingress(view: &MemberView, r: &GwRow) -> (l: Option<Leg>)
    ensures
        match l {
            Some(x) => ingress_leg(view@, r@) == Some(x@),
            None => ingress_leg(view@, r@) is None,
        },
{
    let z = match view.fabric.zone(r.zone.as_str()) {
        Ok(z) => z,
        Err(_) => {
            return None;
        },
    };
    assert(z@ == zone_named(view@, r@.zone));
    let gw = match &z.gw {
        Some(gw) => gw,
        None => {
            return None;
        },
    };
    let router = match Ipv4Addr::parse(gw.router.as_str()) {
        Some(a) => a,
        None => {
            return None;
        },
    };
    let ports = if r.migrates() {
        ports_of(view.member, z.id, &r.ports)
    } else {
        let one = port_at(view.member, z.id, r.ifname.as_str(), r.home.as_str(), 0);
        let mut v: Vec<ProbePort> = Vec::new();
        v.push(one);
        assert(views(v@) =~= ports_on_wires(
            view@.member,
            z.id,
            seq![LegPortV { ifname: r@.ifname, wire: r@.home }],
        ));
        v
    };
    Some(
        Leg::new(
            r.zone.clone(),
            r.ifname.clone(),
            r.migrates(),
            names_of(&view.prefs, r.zone.as_str()),
            r.home.as_str(),
            ports,
            Kind::Ingress { router },
        ),
    )
}

fn peers_of(view: &MemberView, r: &FallbackRow, zone_id: u8) -> (p: (Vec<Ipv4Addr>, Vec<u32>))
    ensures
        p.0@ == peer_targets(view@, r@, zone_id, view@.fabric.members.len() as int),
        p.1@ == peer_rids(view@, r@, zone_id, view@.fabric.members.len() as int),
{
    let carry = names_of(&view.fallback_members, r.zone.as_str());
    let members = &view.fabric.members;
    let mut targets: Vec<Ipv4Addr> = Vec::new();
    let mut rids: Vec<u32> = Vec::new();
    let mut i: usize = 0;
    while i < members.len()
        invariant
            i <= members@.len(),
            *members == view.fabric.members,
            texts(carry@) == list_of(view@.fallback_members, r@.zone, 0),
            targets@ == peer_targets(view@, r@, zone_id, i as int),
            rids@ == peer_rids(view@, r@, zone_id, i as int),
        decreases members@.len() - i,
    {
        let m = &members[i];
        assert(view@.fabric.members[i as int] == m@);
        let known = has_text(&carry, carry.len(), m.name.as_str());
        assert(known == texts(carry@).contains(m@.name)) by {
            if known {
                let k = choose|k: int| 0 <= k < carry@.len() && carry@[k]@ == m.name@;
                assert(texts(carry@)[k] == m@.name);
            }
            if texts(carry@).contains(m@.name) {
                let k = choose|k: int| 0 <= k < texts(carry@).len() && texts(carry@)[k] == m@.name;
                assert(carry@[k]@ == m.name@);
            }
        }
        if known && !str_eq(m.name.as_str(), view.member.name.as_str()) {
            targets.push(Ipv4Addr::new(10, zone_id, r.seg, m.node));
            add_rid(&mut rids, Ipv4Addr::new(10, zone_id, 0, m.node).bits);
        }
        i = i + 1;
    }
    (targets, rids)
}

fn fallback(view: &MemberView, r: &FallbackRow) -> (l: Option<Leg>)
    ensures
        match l {
            Some(x) => fallback_leg(view@, r@) == Some(x@),
            None => fallback_leg(view@, r@) is None,
        },
{
    let z = match view.fabric.zone(r.zone.as_str()) {
        Ok(z) => z,
        Err(_) => {
            return None;
        },
    };
    assert(z@ == zone_named(view@, r@.zone));
    let (targets, peers) = peers_of(view, r, z.id);
    let windows = Windows::from_ospf(view.fabric.ospf_hello, view.fabric.ospf_dead);
    assert(windows == windows_of(view@.fabric.ospf_hello, view@.fabric.ospf_dead));
    let f = Fallback {
        targets,
        peers,
        self_rid: Ipv4Addr::new(10, z.id, 0, view.member.node).bits,
        windows,
        quiet_now: false,
        noted_quiet: false,
        noted_deaf: false,
        engine_sock: cat3(view.fabric.run_dir.as_str(), "/", SOCK_NAME),
        noted_engine_unreadable: false,
    };
    Some(
        Leg::new(
            r.zone.clone(),
            r.ifname.clone(),
            true,
            names_of(&view.prefs, r.zone.as_str()),
            r.home.as_str(),
            ports_of(view.member, z.id, &r.ports),
            Kind::Fallback(f),
        ),
    )
}

impl Prober {
    /// The legs to probe: this member's ingress legs, and every zone's universal segment.
    pub fn from_view(view: &MemberView) -> (r: Prober)
        ensures
            views(r.legs@) == legs_of(view@, view@.fallback_rows.len() as int),
            texts(r.log@) == first_lines(view@),
    {
        broadcast use lemma_texts_push;

        let mut legs: Vec<Leg> = Vec::new();
        assert(views(legs@) =~= seq![]);
        let mut i: usize = 0;
        while i < view.gw_rows.len()
            invariant
                i <= view.gw_rows@.len(),
                views(legs@) == ingress_legs(view@, i as int),
            decreases view.gw_rows@.len() - i,
        {
            let ghost was = legs@;
            assert(view@.gw_rows[i as int] == view.gw_rows@[i as int]@);
            if let Some(l) = ingress(view, &view.gw_rows[i]) {
                legs.push(l);
                assert(views(legs@) =~= views(was).push(l@));
            }
            i = i + 1;
        }
        let mut listens = false;
        let mut i: usize = 0;
        proof {
            lemma_ingress_kinds(view@, view@.gw_rows.len() as int);
        }
        while i < view.fallback_rows.len()
            invariant
                i <= view.fallback_rows@.len(),
                views(legs@) == legs_of(view@, i as int),
                listens == any_fallback(views(legs@)),
            decreases view.fallback_rows@.len() - i,
        {
            let ghost was = views(legs@);
            assert(view@.fallback_rows[i as int] == view.fallback_rows@[i as int]@);
            if let Some(l) = fallback(view, &view.fallback_rows[i]) {
                legs.push(l);
                listens = true;
                assert(views(legs@) =~= was.push(l@));
                assert(views(legs@)[was.len() as int].kind is Fallback);
            }
            i = i + 1;
        }
        let mut log: Vec<String> = Vec::new();
        assert(texts(log@) =~= seq![]);
        let w = Windows::from_ospf(view.fabric.ospf_hello, view.fabric.ospf_dead);
        if listens && !w.move_fits_inside_dead(
            Duration { ns: PROBE_INTERVAL },
            view.fabric.ospf_dead,
        ) {
            log.push(
                cat5(
                    "cfab: warn: [ospf] hello ",
                    dec_u64(view.fabric.ospf_hello as u64).as_str(),
                    " s with dead ",
                    dec_u64(view.fabric.ospf_dead as u64).as_str(),
                    " s leaves no room to move a fallback bond before the adjacency expires",
                ),
            );
            assert(texts(log@) =~= seq![late_line(view@.fabric)]);
        }
        Prober { legs, log }
    }

    pub fn is_empty(&self) -> (r: bool)
        ensures
            r == (self.legs@.len() == 0),
    {
        self.legs.len() == 0
    }

    /// Take everything that there is to say since the last call.
    pub fn drain_log(&mut self) -> (r: Vec<String>)
        ensures
            r@ == old(self).log@,
            final(self).log@.len() == 0,
            final(self).legs == old(self).legs,
    {
        let mut out: Vec<String> = Vec::new();
        std::mem::swap(&mut out, &mut self.log);
        out
    }

    /// The port that each bond that the prober moves must name as its primary.
    pub fn held_primaries(&self) -> (r: HeldPrimaries)
        ensures
            r.wf(),
            forall|b: Seq<char>| #[trigger]
                r.held(b) == held_by(views(self.legs@), b, self.legs@.len() as int),
    {
        let mut out = HeldPrimaries::new();
        let mut i: usize = 0;
        while i < self.legs.len()
            invariant
                i <= self.legs@.len(),
                out.wf(),
                forall|b: Seq<char>| #[trigger] out.held(b) == held_by(views(self.legs@), b, i as int),
            decreases self.legs@.len() - i,
        {
            let l = &self.legs[i];
            assert(views(self.legs@)[i as int] == l@);
            let ghost was = out;
            if l.actuates {
                out.hold(l.bond.as_str(), l.held.as_str());
            }
            proof {
                assert forall|b: Seq<char>| #[trigger]
                    out.held(b) == held_by(views(self.legs@), b, i + 1) by {
                    assert(was.held(b) == held_by(views(self.legs@), b, i as int));
                }
            }
            i = i + 1;
        }
        out
    }

    /// What is known of every leg.
    pub fn report(&self, now: Instant) -> (r: ProbeRows)
        ensures
            views(r.ingress@) == rows_of(views(self.legs@), false, now, self.legs@.len() as int),
            views(r.fallback@) == rows_of(views(self.legs@), true, now, self.legs@.len() as int),
    {
        let mut ingress: Vec<ProbedLeg> = Vec::new();
        let mut fallback: Vec<ProbedLeg> = Vec::new();
        assert(views(ingress@) =~= seq![]);
        assert(views(fallback@) =~= seq![]);
        let mut i: usize = 0;
        while i < self.legs.len()
            invariant
                i <= self.legs@.len(),
                views(ingress@) == rows_of(views(self.legs@), false, now, i as int),
                views(fallback@) == rows_of(views(self.legs@), true, now, i as int),
            decreases self.legs@.len() - i,
        {
            let l = &self.legs[i];
            assert(views(self.legs@)[i as int] == l@);
            let row = row_of(l, now);
            let ghost a = ingress@;
            let ghost b = fallback@;
            match l.kind {
                Kind::Ingress { .. } => {
                    ingress.push(row);
                    assert(views(ingress@) =~= views(a).push(row@));
                },
                Kind::Fallback(_) => {
                    fallback.push(row);
                    assert(views(fallback@) =~= views(b).push(row@));
                },
            }
            i = i + 1;
        }
        ProbeRows { ingress, fallback }
    }
}

/// No leg of an ingress row listens.
proof fn lemma_ingress_kinds(v: MemberViewV, n: int)
    requires
        0 <= n <= v.gw_rows.len(),
    ensures
        !any_fallback(ingress_legs(v, n)),
    decreases n,
{
    if n > 0 {
        lemma_ingress_kinds(v, n - 1);
        let b = ingress_legs(v, n - 1);
        let l = ingress_legs(v, n);
        if any_fallback(l) {
            let i = choose|i: int| 0 <= i < l.len() && (#[trigger] l[i]).kind is Fallback;
            if i < b.len() {
                assert(b[i].kind is Fallback);
            }
        }
    }
}

fn row_of(l: &Leg, now: Instant) -> (r: ProbedLeg)
    ensures
        r@ == leg_row(l@, now),
{
    let mut ports: Vec<ProbedPort> = Vec::new();
    let mut i: usize = 0;
    while i < l.ports.len()
        invariant
            i <= l.ports@.len(),
            ports@.len() == i,
            forall|j: int| 0 <= j < i ==> (#[trigger] ports@[j])@ == port_row(l.ports@[j]@, now),
        decreases l.ports@.len() - i,
    {
        let p = &l.ports[i];
        let last_reply_ms = match p.last_reply {
            Some(t) => Some(now.since(t).as_millis()),
            None => None,
        };
        ports.push(
            ProbedPort {
                wire: p.wire.clone(),
                island: p.island.clone(),
                reachable: p.state.reachable() && p.carrier && !p.hello_dead,
                suspect: p.escalating,
                last_reply_ms,
            },
        );
        i = i + 1;
    }
    let active = match &l.active_now {
        Some(a) => Some(a.clone()),
        None => None,
    };
    assert(views(ports@) =~= leg_row(l@, now).ports);
    ProbedLeg { zone: l.zone.clone(), bond: l.bond.clone(), active, quiet: l.quiet(), ports }
}

} // verus!
