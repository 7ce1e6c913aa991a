//! What a leg sends at the end of a tick, and what it makes of how the sending went.

use vstd::prelude::*;

use crate::ipv4::{octet, Ipv4Addr};
use crate::prober::decide::observed;
use crate::prober::frame::{probe, probe_bytes, PROBE_LEN};
use crate::prober::leg::{FallbackV, Kind, KindV, Leg, LegV};
use crate::prober::port::{frames_of, PortV, ESCALATION_TARGETS};

verus! {

/// The first target from `i` on whose last octet is that of the Router ID, or the number of
/// targets. Both are built from the member's node number, so the octet is the map.
pub open spec fn target_place(targets: Seq<Ipv4Addr>, rid: u32, i: int) -> int
    decreases targets.len() - i,
{
    if i >= targets.len() {
        targets.len() as int
    } else if octet(targets[i].bits, 3) == octet(rid, 3) {
        i
    } else {
        target_place(targets, rid, i + 1)
    }
}

/// The addresses of the peers that were last heard on a wire, most recent first.
pub open spec fn recent_targets(
    targets: Seq<Ipv4Addr>,
    recent: Seq<u32>,
    n: int,
) -> Seq<Ipv4Addr>
    decreases n,
{
    if n <= 0 {
        seq![]
    } else {
        let b = recent_targets(targets, recent, n - 1);
        let k = target_place(targets, recent[n - 1], 0);
        if k < targets.len() {
            b.push(targets[k])
        } else {
            b
        }
    }
}

/// `chosen`, filled up with those of `targets` from `i` on that it lacks, as far as the escalation
/// asks.
pub open spec fn filled(
    chosen: Seq<Ipv4Addr>,
    targets: Seq<Ipv4Addr>,
    i: int,
) -> Seq<Ipv4Addr>
    decreases targets.len() - i,
{
    if i >= targets.len() || chosen.len() >= ESCALATION_TARGETS {
        chosen
    } else if chosen.contains(targets[i]) {
        filled(chosen, targets, i + 1)
    } else {
        filled(chosen.push(targets[i]), targets, i + 1)
    }
}

/// Whom an escalating port asks: the members that were heard over this wire until a moment ago,
/// in preference to the whole segment.
pub open spec fn asked_targets(f: FallbackV, p: PortV) -> Seq<Ipv4Addr> {
    filled(recent_targets(f.targets, p.recent, p.recent.len() as int), f.targets, 0)
}

/// The probes for these targets.
pub open spec fn probes(mac: Seq<u8>, targets: Seq<Ipv4Addr>) -> Seq<Seq<u8>> {
    Seq::new(targets.len(), |i: int| probe_bytes(mac, targets[i].bits))
}

/// The frames that a port sends: an ingress port asks the router on every tick, and a port of a
/// leg that listens sends nothing until it is escalated.
pub open spec fn port_asks(k: KindV, p: PortV) -> Seq<Seq<u8>> {
    match k {
        KindV::Ingress { router } => seq![probe_bytes(p.mac, router.bits)],
        KindV::Fallback(f) => if p.escalating {
            probes(p.mac, asked_targets(f, p))
        } else {
            seq![]
        },
    }
}

/// A port after it sent, or failed to send anything. A probe that cannot be put on the wire is
/// evidence about the wire.
pub open spec fn port_asked(k: KindV, p: PortV, sent: bool) -> PortV {
    match k {
        KindV::Ingress { .. } => if sent {
            PortV { probed: true, ..p }
        } else {
            PortV { probed: false, state: observed(p.state, false), ..p }
        },
        KindV::Fallback(_) => if !p.escalating {
            p
        } else if sent {
            PortV { probed: true, ..p }
        } else {
            PortV {
                probed: false,
                state: observed(p.state, false),
                escalating: observed(p.state, false).reachable,
                ..p
            }
        },
    }
}

pub open spec fn leg_asked(l: LegV, sent: Seq<bool>) -> LegV {
    LegV {
        ports: Seq::new(l.ports.len(), |i: int| port_asked(l.kind, l.ports[i], sent[i])),
        ..l
    }
}

/// The address of the peer with this Router ID.
pub fn target_of(targets: &Vec<Ipv4Addr>, rid: u32) -> (r: Option<Ipv4Addr>)
    ensures
        match r {
            Some(t) => target_place(targets@, rid, 0) < targets@.len() && t
                == targets@[target_place(targets@, rid, 0)],
            None => target_place(targets@, rid, 0) >= targets@.len(),
        },
{
    let node: u8 = Ipv4Addr { bits: rid }.octets()[3];
    let mut i: usize = 0;
    while i < targets.len()
        invariant
            i <= targets@.len(),
            node == octet(rid, 3),
            target_place(targets@, rid, 0) == target_place(targets@, rid, i as int),
        decreases targets@.len() - i,
    {
        if targets[i].octets()[3] == node {
            return Some(targets[i]);
        }
        i = i + 1;
    }
    None
}

fn has_addr(v: &Vec<Ipv4Addr>, a: Ipv4Addr) -> (r: bool)
    ensures
        r == v@.contains(a),
{
    let mut i: usize = 0;
    while i < v.len()
        invariant
            i <= v@.len(),
            forall|k: int| 0 <= k < i ==> #[trigger] v@[k] != a,
        decreases v@.len() - i,
    {
        if v[i] == a {
            return true;
        }
        i = i + 1;
    }
    false
}

fn choose_targets(targets: &Vec<Ipv4Addr>, recent: &Vec<u32>) -> (r: Vec<Ipv4Addr>)
    ensures
        r@ == filled(recent_targets(targets@, recent@, recent@.len() as int), targets@, 0),
{
    let mut out: Vec<Ipv4Addr> = Vec::new();
    let mut i: usize = 0;
    while i < recent.len()
        invariant
            i <= recent@.len(),
            out@ == recent_targets(targets@, recent@, i as int),
        decreases recent@.len() - i,
    {
        match target_of(targets, recent[i]) {
            Some(t) => {
                out.push(t);
            },
            None => {},
        }
        i = i + 1;
    }
    let ghost want = filled(out@, targets@, 0);
    let mut j: usize = 0;
    while j < targets.len() && out.len() < ESCALATION_TARGETS
        invariant
            j <= targets@.len(),
            want == filled(out@, targets@, j as int),
        decreases targets@.len() - j,
    {
        if !has_addr(&out, targets[j]) {
            out.push(targets[j]);
        }
        j = j + 1;
    }
    out
}

fn probe_for(mac: [u8; 6], target: Ipv4Addr) -> (r: Vec<u8>)
    ensures
        r@ == probe_bytes(mac@, target.bits),
{
    let p = probe(mac, target);
    let mut out: Vec<u8> = Vec::new();
    let mut i: usize = 0;
    while i < PROBE_LEN
        invariant
            i <= PROBE_LEN,
            p@.len() == PROBE_LEN,
            out@ == p@.take(i as int),
        decreases PROBE_LEN - i,
    {
        assert(p@.take(i + 1) =~= p@.take(i as int).push(p@[i as int]));
        out.push(p[i]);
        i = i + 1;
    }
    assert(p@.take(PROBE_LEN as int) =~= p@);
    out
}

impl Leg {
    /// The frames that port `i` has to send.
    pub fn asks(&self, i: usize) -> (r: Vec<Vec<u8>>)
        requires
            i < self.ports@.len(),
        ensures
            frames_of(r@) == port_asks(self@.kind, self@.ports[i as int]),
    {
        let p = &self.ports[i];
        assert(p@ == self@.ports[i as int]);
        let mut out: Vec<Vec<u8>> = Vec::new();
        match &self.kind {
            Kind::Ingress { router } => {
                out.push(probe_for(p.mac, *router));
                assert(frames_of(out@) =~= port_asks(self@.kind, p@));
            },
            Kind::Fallback(f) => {
                if p.escalating {
                    let t = choose_targets(&f.targets, &p.recent);
                    let mut j: usize = 0;
                    while j < t.len()
                        invariant
                            j <= t@.len(),
                            out@.len() == j,
                            forall|k: int|
                                0 <= k < j ==> (#[trigger] out@[k])@ == probe_bytes(p@.mac, t@[k].bits),
                        decreases t@.len() - j,
                    {
                        out.push(probe_for(p.mac, t[j]));
                        j = j + 1;
                    }
                    assert(frames_of(out@) =~= probes(p@.mac, t@));
                }
                assert(frames_of(out@) =~= port_asks(self@.kind, p@));
            },
        }
        out
    }

    /// Take in how the sending went: for each port, whether any of its frames went out.
    pub fn asked(&mut self, sent: &Vec<bool>)
        requires
            sent@.len() == old(self).ports@.len(),
        ensures
            final(self)@ == leg_asked(old(self)@, sent@),
    {
        let ghost l0 = self@;
        let listens = match &self.kind {
            Kind::Ingress { .. } => false,
            Kind::Fallback(_) => true,
        };
        let mut i: usize = 0;
        while i < self.ports.len()
            invariant
                i <= self.ports@.len(),
                l0 == old(self)@,
                listens == (l0.kind is Fallback),
                self.ports@.len() == l0.ports.len() == sent@.len(),
                forall|j: int|
                    0 <= j < i ==> (#[trigger] self.ports@[j])@ == port_asked(
                        l0.kind,
                        l0.ports[j],
                        sent@[j],
                    ),
                forall|j: int| i <= j < l0.ports.len() ==> (#[trigger] self.ports@[j])@ == l0.ports[j],
                self@ == (LegV { ports: self@.ports, ..l0 }),
            decreases self.ports@.len() - i,
        {
            if !listens || self.ports[i].escalating {
                if sent[i] {
                    self.ports[i].probed = true;
                } else {
                    self.ports[i].probed = false;
                    let _r = self.ports[i].state.observe(false);
                    if listens {
                        let up = self.ports[i].state.reachable();
                        self.ports[i].escalating = up;
                    }
                }
            }
            i = i + 1;
        }
        assert(self@.ports =~= leg_asked(l0, sent@).ports);
    }
}

/// A leg that listens is silent on every port that is not being escalated.
pub proof fn lemma_steady_leg_sends_nothing(f: FallbackV, p: PortV)
    requires
        !p.escalating,
    ensures
        port_asks(KindV::Fallback(f), p) == Seq::<Seq<u8>>::empty(),
{
}

/// An escalation asks at most as many peers as are worth asking, whatever the fabric's size.
pub proof fn lemma_escalation_is_bounded(f: FallbackV, p: PortV)
    requires
        p.recent.len() <= ESCALATION_TARGETS,
    ensures
        asked_targets(f, p).len() <= ESCALATION_TARGETS,
{
    lemma_recent_len(f.targets, p.recent, p.recent.len() as int);
    lemma_filled_len(recent_targets(f.targets, p.recent, p.recent.len() as int), f.targets, 0);
}

proof fn lemma_recent_len(targets: Seq<Ipv4Addr>, recent: Seq<u32>, n: int)
    requires
        0 <= n <= recent.len(),
    ensures
        recent_targets(targets, recent, n).len() <= n,
    decreases n,
{
    if n > 0 {
        lemma_recent_len(targets, recent, n - 1);
    }
}

proof fn lemma_filled_len(chosen: Seq<Ipv4Addr>, targets: Seq<Ipv4Addr>, i: int)
    requires
        chosen.len() <= ESCALATION_TARGETS,
    ensures
        filled(chosen, targets, i).len() <= ESCALATION_TARGETS,
    decreases targets.len() - i,
{
    if i < targets.len() && chosen.len() < ESCALATION_TARGETS {
        lemma_filled_len(chosen, targets, i + 1);
        lemma_filled_len(chosen.push(targets[i]), targets, i + 1);
    }
}

} // verus!
