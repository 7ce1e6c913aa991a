//! One port of a probed leg: what is known of it, and how a tick's readings change that.

use vstd::prelude::*;

use crate::error::{error_text, Error};
use crate::ipv4::Ipv4Addr;
use crate::prober::decide::{
    heard, observed, precharged, presumed, usable, Candidate, CandidateV, Hysteresis,
    HysteresisV,
};
use crate::prober::frame::{hello_router_id, is_reply, reply_from, router_id};
use crate::prober::passive::{Evidence, Verdict};
use crate::text::{opt_string, str_eq, trim, trimmed};
use crate::time::{since, Duration, Instant};

verus! {

/// At most this many peers are asked when one wire is escalated: any one answer clears the wire.
pub const ESCALATION_TARGETS: usize = 4;

/// What is known of one port.
#[derive(Debug)]
pub struct ProbePort {
    /// The netdev that the probe goes out of and the tap listens on.
    pub ifname: String,
    pub wire: String,
    pub island: String,
    pub mac: [u8; 6],
    pub state: Hysteresis,
    /// A probe went out on the previous tick, so that this tick's silence means something.
    pub probed: bool,
    /// The netdev had carrier as of this tick's read.
    pub carrier: bool,
    /// The bonding driver's own per-port link state reads up.
    pub bond_link_up: bool,
    /// The netdev exists at all.
    pub present: bool,
    pub last_reply: Option<Instant>,
    /// The last peer packet heard on this port.
    pub peer_heard: Option<Instant>,
    /// The last reflection of our own hello heard on this port.
    pub self_heard: Option<Instant>,
    /// Peers heard on this port, most recent first.
    pub recent: Vec<u32>,
    /// Until when this port may not be suspected.
    pub grace_until: Option<Instant>,
    /// The escalation is running on this port.
    pub escalating: bool,
    /// Condemned: the hellos stopped past the dead interval, and the engine agreed that no peer
    /// is adjacent. Only a hello clears it, and never an ARP reply.
    pub hello_dead: bool,
    /// Why this port's tap could not be opened, as it was last reported.
    pub deaf: Option<String>,
    /// Whether the port was usable as of the last tick it was checked.
    pub usable_prev: Option<bool>,
    /// The port went from unusable to usable since it was last the active one.
    pub returned: bool,
}

pub struct PortV {
    pub ifname: Seq<char>,
    pub wire: Seq<char>,
    pub island: Seq<char>,
    pub mac: Seq<u8>,
    pub state: HysteresisV,
    pub probed: bool,
    pub carrier: bool,
    pub bond_link_up: bool,
    pub present: bool,
    pub last_reply: Option<Instant>,
    pub peer_heard: Option<Instant>,
    pub self_heard: Option<Instant>,
    pub recent: Seq<u32>,
    pub grace_until: Option<Instant>,
    pub escalating: bool,
    pub hello_dead: bool,
    pub deaf: Option<Seq<char>>,
    pub usable_prev: Option<bool>,
    pub returned: bool,
}

impl View for ProbePort {
    type V = PortV;

    open spec fn view(&self) -> PortV {
        PortV {
            ifname: self.ifname@,
            wire: self.wire@,
            island: self.island@,
            mac: self.mac@,
            state: self.state@,
            probed: self.probed,
            carrier: self.carrier,
            bond_link_up: self.bond_link_up,
            present: self.present,
            last_reply: self.last_reply,
            peer_heard: self.peer_heard,
            self_heard: self.self_heard,
            recent: self.recent@,
            grace_until: self.grace_until,
            escalating: self.escalating,
            hello_dead: self.hello_dead,
            deaf: opt_string(self.deaf),
            usable_prev: self.usable_prev,
            returned: self.returned,
        }
    }
}

/// A port that nothing is known of yet. It is not present until a tick has read its netdev, so
/// that every port starts with the grace period of a re-added one.
pub open spec fn fresh_port(
    ifname: Seq<char>,
    wire: Seq<char>,
    island: Seq<char>,
    mac: Seq<u8>,
) -> PortV {
    PortV {
        ifname,
        wire,
        island,
        mac,
        state: presumed(),
        probed: false,
        carrier: false,
        bond_link_up: false,
        present: false,
        last_reply: None,
        peer_heard: None,
        self_heard: None,
        recent: seq![],
        grace_until: None,
        escalating: false,
        hello_dead: false,
        deaf: None,
        usable_prev: None,
        returned: false,
    }
}

/// What a tick read of one port.
#[derive(Debug)]
pub struct PortReading {
    /// The text of the netdev's `carrier` file, where it could be read.
    pub carrier: Option<String>,
    /// The text of the port's `bonding_slave/mii_status` file, where it could be read.
    pub mii_status: Option<String>,
    /// Why the tap could not be opened, on a leg that listens.
    pub listen: Option<Error>,
    /// The frames that arrived.
    pub frames: Vec<Vec<u8>>,
}

/// The frames of a reading.
pub open spec fn frames_of(v: Seq<Vec<u8>>) -> Seq<Seq<u8>> {
    Seq::new(v.len(), |i: int| v[i]@)
}

/// The line that a task which carries on may print for an error: the word for a fatal one does
/// not appear in it.
pub open spec fn plain_error(e: Error) -> Seq<char> {
    match e {
        Error::Fatal(m) => m@,
        _ => error_text(e),
    }
}

pub fn without_fatal(e: &Error) -> (r: String)
    ensures
        r@ == plain_error(*e),
{
    match e {
        Error::Fatal(m) => m.clone(),
        _ => e.to_string(),
    }
}

/// Does this netdev have carrier? `None` where its file could not be read at all.
pub open spec fn carrier_read(text: Option<String>) -> Option<bool> {
    match text {
        Some(t) => Some(trim(t@) == "1"@),
        None => None,
    }
}

/// Does the bonding driver consider the port up? A file that cannot be read says no.
pub open spec fn link_read(text: Option<String>) -> bool {
    match text {
        Some(t) => trim(t@) == "up"@,
        None => false,
    }
}

pub fn has_carrier(text: &Option<String>) -> (r: Option<bool>)
    ensures
        r == carrier_read(*text),
{
    match text {
        Some(t) => Some(str_eq(trimmed(t.as_str()).as_str(), "1")),
        None => None,
    }
}

pub fn bond_link_up(text: &Option<String>) -> (r: bool)
    ensures
        r == link_read(*text),
{
    match text {
        Some(t) => str_eq(trimmed(t.as_str()).as_str(), "up"),
        None => false,
    }
}

/// The port after its netdev was read: a netdev that has just come back starts a grace period.
pub open spec fn netdev_read(
    p: PortV,
    carrier: Option<String>,
    mii: Option<String>,
    now: Instant,
    grace: Duration,
) -> PortV {
    let c = carrier_read(carrier);
    PortV {
        carrier: c == Some(true),
        bond_link_up: link_read(mii),
        grace_until: if c is Some && !p.present {
            Some(Instant { ns: (now.ns + grace.ns) as u64 })
        } else {
            p.grace_until
        },
        present: c is Some,
        ..p
    }
}

/// The first `n` of the list, without `rid`.
pub open spec fn without(s: Seq<u32>, rid: u32, n: int) -> Seq<u32>
    decreases n,
{
    if n <= 0 {
        seq![]
    } else if s[n - 1] == rid {
        without(s, rid, n - 1)
    } else {
        without(s, rid, n - 1).push(s[n - 1])
    }
}

/// The list of peers with `rid` at its front, once, and not longer than the escalation asks.
pub open spec fn with_recent(recent: Seq<u32>, rid: u32) -> Seq<u32> {
    let all = seq![rid] + without(recent, rid, recent.len() as int);
    if all.len() > ESCALATION_TARGETS {
        all.take(ESCALATION_TARGETS as int)
    } else {
        all
    }
}

/// What the frames of one tick said: whether a hello that counts arrived, and whether a probe
/// was answered.
pub struct Heard {
    pub hello: bool,
    pub reply: bool,
}

/// One frame on a port of a leg that listens. A hello from an unexpected Router ID is no
/// evidence about this fabric; our own counts as heard on a backup port only; a reply counts
/// only while the port is being asked.
pub open spec fn frame_heard(
    p: PortV,
    h: Heard,
    f: Seq<u8>,
    self_rid: u32,
    peers: Seq<u32>,
    targets: Seq<Ipv4Addr>,
    is_active: bool,
    now: Instant,
) -> (PortV, Heard) {
    match router_id(f) {
        Some(rid) => if rid == self_rid {
            (
                PortV { self_heard: Some(now), ..p },
                Heard { hello: h.hello || !is_active, ..h },
            )
        } else if exists|k: int| 0 <= k < peers.len() && #[trigger] peers[k] == rid {
            (
                PortV { peer_heard: Some(now), recent: with_recent(p.recent, rid as u32), ..p },
                Heard { hello: true, ..h },
            )
        } else {
            (p, h)
        },
        None => if p.escalating && is_reply(f, p.mac, targets) {
            (p, Heard { reply: true, ..h })
        } else {
            (p, h)
        },
    }
}

/// The first `n` frames, one after the other.
pub open spec fn frames_heard(
    p: PortV,
    frames: Seq<Seq<u8>>,
    n: int,
    self_rid: u32,
    peers: Seq<u32>,
    targets: Seq<Ipv4Addr>,
    is_active: bool,
    now: Instant,
) -> (PortV, Heard)
    decreases n,
{
    if n <= 0 {
        (p, Heard { hello: false, reply: false })
    } else {
        let b = frames_heard(p, frames, n - 1, self_rid, peers, targets, is_active, now);
        frame_heard(b.0, b.1, frames[n - 1], self_rid, peers, targets, is_active, now)
    }
}

/// The port after its frames, on a leg that listens: a hello makes the wire live and clears a
/// condemnation, an answer makes it live, and a round without either is a miss while it is being
/// asked.
pub open spec fn listened(p: PortV, h: Heard, now: Instant) -> PortV {
    let last = if h.reply || p.peer_heard == Some(now) || p.self_heard == Some(now) {
        Some(now)
    } else {
        p.last_reply
    };
    let dead = p.hello_dead && !h.hello;
    if h.hello || h.reply {
        PortV {
            last_reply: last,
            hello_dead: dead,
            state: heard(p.state),
            escalating: false,
            ..p
        }
    } else if p.escalating && p.probed {
        PortV { last_reply: last, hello_dead: dead, state: observed(p.state, false), ..p }
    } else {
        PortV { last_reply: last, hello_dead: dead, ..p }
    }
}

/// Does any frame answer the probe of the port with this address?
pub open spec fn any_reply(frames: Seq<Seq<u8>>, mac: Seq<u8>, router: Ipv4Addr) -> bool {
    exists|k: int| 0 <= k < frames.len() && is_reply(#[trigger] frames[k], mac, seq![router])
}

/// The port after its frames, on a leg that asks: with no probe out, silence says nothing.
pub open spec fn answered(p: PortV, replied: bool, now: Instant) -> PortV {
    let last = if replied || p.peer_heard == Some(now) || p.self_heard == Some(now) {
        Some(now)
    } else {
        p.last_reply
    };
    if p.probed {
        PortV { last_reply: last, state: observed(p.state, replied), ..p }
    } else {
        PortV { last_reply: last, ..p }
    }
}

/// Can the bond be put on this port?
pub open spec fn port_usable(p: PortV) -> bool {
    usable(cand_of(p))
}

/// The port after its usability was noted: one that has become usable has returned.
pub open spec fn usability_noted(p: PortV) -> PortV {
    PortV {
        returned: p.returned || (p.usable_prev == Some(false) && port_usable(p)),
        usable_prev: Some(port_usable(p)),
        ..p
    }
}

pub open spec fn evidence_of(p: PortV, active: Option<Seq<char>>) -> Evidence {
    Evidence {
        active: active == Some(p.ifname),
        peer: p.peer_heard,
        reflected: p.self_heard,
        grace_until: p.grace_until,
    }
}

/// Has the active port been silent past the dead interval while a sibling still hears the fabric?
pub open spec fn condemnable(
    p: PortV,
    v: Verdict,
    active: Option<Seq<char>>,
    now: Instant,
    dead: Duration,
) -> bool {
    &&& v == Verdict::Suspect
    &&& !p.hello_dead
    &&& active == Some(p.ifname)
    &&& match p.peer_heard {
        Some(t) => since(now, t) > dead.ns,
        None => true,
    }
}

/// The port once it is judged: a suspect wire is asked, unless it is condemned, and one that is
/// not suspect is not.
pub open spec fn judged(p: PortV, v: Verdict) -> PortV {
    match v {
        Verdict::Good => PortV { escalating: false, probed: false, ..p },
        Verdict::Quiet => PortV { escalating: false, probed: false, ..p },
        Verdict::Watch => p,
        Verdict::Suspect => if p.hello_dead {
            PortV { escalating: false, probed: false, ..p }
        } else if !p.escalating {
            PortV { escalating: true, probed: false, state: precharged(p.state), ..p }
        } else {
            p
        },
    }
}

/// The candidate that the decision sees for this port.
pub open spec fn cand_of(p: PortV) -> CandidateV {
    CandidateV {
        ifname: p.ifname,
        wire: p.wire,
        reachable: p.state.reachable && !p.hello_dead,
        carrier: p.carrier,
        link_up: p.bond_link_up,
    }
}

fn has_rid(peers: &Vec<u32>, rid: u32) -> (r: bool)
    ensures
        r == exists|k: int| 0 <= k < peers@.len() && #[trigger] peers@[k] == rid,
{
    let mut i: usize = 0;
    while i < peers.len()
        invariant
            i <= peers@.len(),
            forall|k: int| 0 <= k < i ==> #[trigger] peers@[k] != rid,
        decreases peers@.len() - i,
    {
        if peers[i] == rid {
            return true;
        }
        i = i + 1;
    }
    false
}

impl ProbePort {
    pub fn new(ifname: String, wire: String, island: String, mac: [u8; 6]) -> (r: ProbePort)
        ensures
            r@ == fresh_port(ifname@, wire@, island@, mac@),
    {
        ProbePort {
            ifname,
            wire,
            island,
            mac,
            state: Hysteresis::default(),
            probed: false,
            carrier: false,
            bond_link_up: false,
            present: false,
            last_reply: None,
            peer_heard: None,
            self_heard: None,
            recent: Vec::new(),
            grace_until: None,
            escalating: false,
            hello_dead: false,
            deaf: None,
            usable_prev: None,
            returned: false,
        }
    }

    pub fn candidate(&self) -> (r: Candidate)
        ensures
            r@ == cand_of(self@),
    {
        Candidate {
            ifname: self.ifname.clone(),
            wire: self.wire.clone(),
            reachable: self.state.reachable() && !self.hello_dead,
            carrier: self.carrier,
            link_up: self.bond_link_up,
        }
    }

    /// Fold this tick's usability into `returned`.
    pub fn note_usability(&mut self)
        ensures
            final(self)@ == usability_noted(old(self)@),
    {
        let cur = self.state.reachable() && !self.hello_dead && self.carrier && self.bond_link_up;
        if let Some(prev) = self.usable_prev {
            if !prev && cur {
                self.returned = true;
            }
        }
        self.usable_prev = Some(cur);
    }

    pub fn evidence(&self, active: Option<&str>) -> (r: Evidence)
        ensures
            r == evidence_of(self@, crate::prober::decide::opt_text(active)),
    {
        let is_active = match active {
            Some(a) => str_eq(a, self.ifname.as_str()),
            None => false,
        };
        Evidence {
            active: is_active,
            peer: self.peer_heard,
            reflected: self.self_heard,
            grace_until: self.grace_until,
        }
    }

    /// Record a peer, most recent first, without letting the list grow with the fabric.
    fn saw(&mut self, rid: u32)
        ensures
            final(self)@ == (PortV { recent: with_recent(old(self)@.recent, rid), ..old(self)@ }),
    {
        let mut kept: Vec<u32> = Vec::new();
        kept.push(rid);
        let mut i: usize = 0;
        assert(kept@ =~= seq![rid] + without(self.recent@, rid, 0));
        while i < self.recent.len()
            invariant
                i <= self.recent@.len(),
                *self == *old(self),
                kept@ == seq![rid] + without(self.recent@, rid, i as int),
            decreases self.recent@.len() - i,
        {
            if self.recent[i] != rid {
                kept.push(self.recent[i]);
                assert(kept@ =~= seq![rid] + without(self.recent@, rid, i as int).push(
                    self.recent@[i as int],
                ));
            }
            i = i + 1;
        }
        if kept.len() > ESCALATION_TARGETS {
            let ghost all = kept@;
            kept.truncate(ESCALATION_TARGETS);
            assert(kept@ =~= all.take(ESCALATION_TARGETS as int));
        }
        self.recent = kept;
    }

    /// Take in what the netdev's files said.
    pub fn read_netdev(
        &mut self,
        carrier: &Option<String>,
        mii: &Option<String>,
        now: Instant,
        grace: Duration,
    )
        requires
            now.ns + grace.ns <= u64::MAX,
        ensures
            final(self)@ == netdev_read(old(self)@, *carrier, *mii, now, grace),
    {
        let c = has_carrier(carrier);
        self.carrier = match c {
            Some(b) => b,
            None => false,
        };
        self.bond_link_up = bond_link_up(mii);
        if c.is_some() && !self.present {
            self.grace_until = Some(now.after(grace));
        }
        self.present = c.is_some();
    }

    fn hear(
        &mut self,
        h: Heard,
        f: &Vec<u8>,
        self_rid: u32,
        peers: &Vec<u32>,
        targets: &Vec<Ipv4Addr>,
        is_active: bool,
        now: Instant,
    ) -> (r: Heard)
        ensures
            (final(self)@, r) == frame_heard(
                old(self)@,
                h,
                f@,
                self_rid,
                peers@,
                targets@,
                is_active,
                now,
            ),
    {
        match hello_router_id(f.as_slice()) {
            Some(rid) => {
                if rid == self_rid {
                    self.self_heard = Some(now);
                    return Heard { hello: h.hello || !is_active, reply: h.reply };
                }
                if has_rid(peers, rid) {
                    self.peer_heard = Some(now);
                    self.saw(rid);
                    return Heard { hello: true, reply: h.reply };
                }
                h
            },
            None => {
                if self.escalating && reply_from(
                    f.as_slice(),
                    self.mac,
                    targets.as_slice(),
                ).is_some() {
                    return Heard { hello: h.hello, reply: true };
                }
                h
            },
        }
    }

    /// Take in the frames of a leg that listens.
    pub fn listen_frames(
        &mut self,
        frames: &Vec<Vec<u8>>,
        self_rid: u32,
        peers: &Vec<u32>,
        targets: &Vec<Ipv4Addr>,
        is_active: bool,
        now: Instant,
    )
        ensures
            ({
                let b = frames_heard(
                    old(self)@,
                    frames_of(frames@),
                    frames@.len() as int,
                    self_rid,
                    peers@,
                    targets@,
                    is_active,
                    now,
                );
                final(self)@ == listened(b.0, b.1, now)
            }),
    {
        let mut h = Heard { hello: false, reply: false };
        let mut i: usize = 0;
        while i < frames.len()
            invariant
                i <= frames@.len(),
                (self@, h) == frames_heard(
                    old(self)@,
                    frames_of(frames@),
                    i as int,
                    self_rid,
                    peers@,
                    targets@,
                    is_active,
                    now,
                ),
            decreases frames@.len() - i,
        {
            h = self.hear(h, &frames[i], self_rid, peers, targets, is_active, now);
            i = i + 1;
        }
        if h.reply || self.heard_at(now) {
            self.last_reply = Some(now);
        }
        if h.hello {
            self.hello_dead = false;
        }
        if h.hello || h.reply {
            self.state.heard();
            self.escalating = false;
        } else if self.escalating && self.probed {
            let _r = self.state.observe(false);
        }
    }

    fn heard_at(&self, now: Instant) -> (r: bool)
        ensures
            r == (self.peer_heard == Some(now) || self.self_heard == Some(now)),
    {
        let p = match self.peer_heard {
            Some(t) => t.ns == now.ns,
            None => false,
        };
        let s = match self.self_heard {
            Some(t) => t.ns == now.ns,
            None => false,
        };
        p || s
    }

    /// Take in the frames of a leg that asks.
    pub fn answer_frames(&mut self, frames: &Vec<Vec<u8>>, router: Ipv4Addr, now: Instant)
        ensures
            final(self)@ == answered(
                old(self)@,
                any_reply(frames_of(frames@), old(self)@.mac, router),
                now,
            ),
    {
        let one: [Ipv4Addr; 1] = [router];
        assert(one@ =~= seq![router]);
        let ghost fs = frames_of(frames@);
        let mut replied = false;
        let mut i: usize = 0;
        while i < frames.len()
            invariant
                i <= frames@.len(),
                fs == frames_of(frames@),
                one@ == seq![router],
                self@ == old(self)@,
                replied == exists|k: int|
                    0 <= k < i && is_reply(#[trigger] fs[k], old(self)@.mac, seq![router]),
            decreases frames@.len() - i,
        {
            assert(fs[i as int] == frames@[i as int]@);
            if reply_from(frames[i].as_slice(), self.mac, one.as_slice()).is_some() {
                replied = true;
            }
            i = i + 1;
        }
        assert(replied == any_reply(fs, old(self)@.mac, router));
        if replied || self.heard_at(now) {
            self.last_reply = Some(now);
        }
        if self.probed {
            let _r = self.state.observe(replied);
        }
    }

    /// Can this port be condemned on this verdict?
    pub fn is_condemnable(
        &self,
        v: Verdict,
        active: Option<&str>,
        now: Instant,
        dead: Duration,
    ) -> (r: bool)
        ensures
            r == condemnable(self@, v, crate::prober::decide::opt_text(active), now, dead),
    {
        let is_active = match active {
            Some(a) => str_eq(a, self.ifname.as_str()),
            None => false,
        };
        let silent = match self.peer_heard {
            Some(t) => now.since(t).ns > dead.ns,
            None => true,
        };
        v == Verdict::Suspect && !self.hello_dead && is_active && silent
    }

    /// Take in the verdict.
    pub fn judge(&mut self, v: Verdict)
        ensures
            final(self)@ == judged(old(self)@, v),
    {
        match v {
            Verdict::Good => {
                self.escalating = false;
                self.probed = false;
            },
            Verdict::Quiet => {
                self.escalating = false;
                self.probed = false;
            },
            Verdict::Watch => {},
            Verdict::Suspect => {
                if self.hello_dead {
                    self.escalating = false;
                    self.probed = false;
                } else if !self.escalating {
                    self.escalating = true;
                    self.probed = false;
                    self.state.precharge();
                }
            },
        }
    }
}

/// An answer never clears a condemnation: on a port that no hello reached, it stays.
pub proof fn lemma_only_a_hello_revives(p: PortV, h: Heard, now: Instant)
    requires
        p.hello_dead,
    ensures
        listened(p, h, now).hello_dead == !h.hello,
{
}

/// A condemned port is never usable, and it is not asked again.
pub proof fn lemma_condemned_is_unusable(p: PortV, v: Verdict)
    requires
        p.hello_dead,
    ensures
        !port_usable(p),
        judged(p, v).hello_dead,
        v == Verdict::Suspect ==> !judged(p, v).escalating,
{
}

} // verus!
