//! The gateway announcers that a member with workload rows runs: which of them may start, which
//! of them an event belongs to, and what is said of them. A fault that lasts is said once, and
//! one that ends and comes back is said again.

use vstd::prelude::*;

use crate::model::{pairs, views};
use crate::text::{
    cat2, cat3, cat4, cat5, cat6, cat7, has_text, join, join_texts, lemma_texts_push, opt_string,
    str_eq, texts,
};
use crate::time::Instant;

verus! {

// ---- what wakes an announcer ----

/// What tells a member that a machine has started to talk behind one of its ports.
#[derive(Debug, PartialEq, Eq)]
pub enum Trigger {
    NeighEvents,
    /// The bridge's table is read on every tick, since events are not to be had.
    FdbPoll { reason: String },
}

pub enum TriggerV {
    NeighEvents,
    FdbPoll { reason: Seq<char> },
}

impl View for Trigger {
    type V = TriggerV;

    open spec fn view(&self) -> TriggerV {
        match self {
            Trigger::NeighEvents => TriggerV::NeighEvents,
            Trigger::FdbPoll { reason } => TriggerV::FdbPoll { reason: reason@ },
        }
    }
}

pub open spec fn trigger_text(t: TriggerV) -> Seq<char> {
    match t {
        TriggerV::NeighEvents => "neigh events"@,
        TriggerV::FdbPoll { reason } => "fdb poll ("@ + reason + ")"@,
    }
}

impl Trigger {
    pub fn to_string(&self) -> (r: String)
        ensures
            r@ == trigger_text(self@),
    {
        match self {
            Trigger::NeighEvents => String::from_str("neigh events"),
            Trigger::FdbPoll { reason } => cat3("fdb poll (", reason.as_str(), ")"),
        }
    }
}

// ---- one row ----

/// The ports of a row's bridge that lead off this host.
#[derive(Debug, PartialEq, Eq)]
pub struct Uplink {
    pub bridge: String,
    pub vid: u16,
    pub ports: Vec<String>,
}

pub struct UplinkV {
    pub bridge: Seq<char>,
    pub vid: u16,
    pub ports: Seq<Seq<char>>,
}

impl View for Uplink {
    type V = UplinkV;

    open spec fn view(&self) -> UplinkV {
        UplinkV { bridge: self.bridge@, vid: self.vid, ports: texts(self.ports@) }
    }
}

/// The conditions that a row says once. Each has its own line and its own end.
#[derive(Debug, Clone, Copy, PartialEq, Eq, Structural)]
pub enum Cond {
    /// The socket refused the frame.
    Send,
    /// The interface's address could not be read.
    Mac,
    /// The bridge's ports could not be listed.
    Scan,
}

pub open spec fn cond_word(c: Cond) -> Seq<char> {
    match c {
        Cond::Send => "announce"@,
        Cond::Mac => "MAC read"@,
        Cond::Scan => "bridge port scan"@,
    }
}

impl Cond {
    pub fn as_str(self) -> (r: &'static str)
        ensures
            r@ == cond_word(self),
    {
        match self {
            Cond::Send => "announce",
            Cond::Mac => "MAC read",
            Cond::Scan => "bridge port scan",
        }
    }
}

/// One running announcer, as far as what is said of it goes.
#[derive(Debug)]
pub struct Row {
    pub name: String,
    /// The interface that it announces on.
    pub ifname: String,
    pub up: Uplink,
    /// The address that the last frame went out with.
    pub mac: [u8; 6],
    /// The line that stands for each condition.
    pub send_line: Option<String>,
    pub mac_line: Option<String>,
    pub scan_line: Option<String>,
    /// Each port and address that a poll of the bridge has shown; untouched where events come.
    pub seen: Vec<(String, String)>,
}

pub struct RowV {
    pub name: Seq<char>,
    pub ifname: Seq<char>,
    pub up: UplinkV,
    pub mac: Seq<u8>,
    pub send_line: Option<Seq<char>>,
    pub mac_line: Option<Seq<char>>,
    pub scan_line: Option<Seq<char>>,
    pub seen: Seq<(Seq<char>, Seq<char>)>,
}

impl View for Row {
    type V = RowV;

    open spec fn view(&self) -> RowV {
        RowV {
            name: self.name@,
            ifname: self.ifname@,
            up: self.up@,
            mac: self.mac@,
            send_line: opt_string(self.send_line),
            mac_line: opt_string(self.mac_line),
            scan_line: opt_string(self.scan_line),
            seen: pairs(self.seen@),
        }
    }
}

/// The line that stands for a condition.
pub open spec fn standing(r: RowV, c: Cond) -> Option<Seq<char>> {
    match c {
        Cond::Send => r.send_line,
        Cond::Mac => r.mac_line,
        Cond::Scan => r.scan_line,
    }
}

/// The row with another line standing for a condition.
pub open spec fn with_line(r: RowV, c: Cond, line: Option<Seq<char>>) -> RowV {
    match c {
        Cond::Send => RowV { send_line: line, ..r },
        Cond::Mac => RowV { mac_line: line, ..r },
        Cond::Scan => RowV { scan_line: line, ..r },
    }
}

/// What is said where a condition calls for a line: nothing where that line stands already.
pub open spec fn noted_lines(r: RowV, c: Cond, line: Seq<char>) -> Seq<Seq<char>> {
    if standing(r, c) == Some(line) {
        seq![]
    } else {
        seq![line]
    }
}

pub open spec fn recovery_line(r: RowV, c: Cond) -> Seq<char> {
    "cfab: workload "@ + r.name + ": "@ + cond_word(c) + " recovered"@
}

/// What is said where a condition is over: nothing where it did not stand.
pub open spec fn recovered_lines(r: RowV, c: Cond) -> Seq<Seq<char>> {
    if standing(r, c) is Some {
        seq![recovery_line(r, c)]
    } else {
        seq![]
    }
}

/// Two digits of a byte.
pub open spec fn hex_digit(n: int) -> char {
    if n < 10 {
        ((48 + n) as u8) as char
    } else {
        ((87 + n) as u8) as char
    }
}

pub open spec fn hex_byte(b: u8) -> Seq<char> {
    seq![hex_digit(b as int / 16), hex_digit(b as int % 16)]
}

/// The bytes of an address in two digits each, with colons between them.
pub open spec fn mac_text(m: Seq<u8>) -> Seq<char> {
    join(Seq::new(m.len(), |i: int| hex_byte(m[i])), ":"@)
}

fn digit_of(n: u8) -> (r: char)
    requires
        n < 16,
    ensures
        r == hex_digit(n as int),
{
    if n < 10 {
        (48 + n) as char
    } else {
        (87 + n) as char
    }
}

pub fn hex_mac(mac: &[u8; 6]) -> (r: String)
    ensures
        r@ == mac_text(mac@),
{
    broadcast use lemma_texts_push;

    let ghost want = Seq::new(mac@.len(), |i: int| hex_byte(mac@[i]));
    let mut parts: Vec<String> = Vec::new();
    let mut i: usize = 0;
    while i < 6
        invariant
            i <= 6,
            mac@.len() == 6,
            want == Seq::new(mac@.len(), |i: int| hex_byte(mac@[i])),
            texts(parts@) =~= want.take(i as int),
        decreases 6 - i,
    {
        let b = mac[i];
        let mut s = String::new();
        s.push(digit_of(b / 16));
        s.push(digit_of(b % 16));
        assert(s@ =~= hex_byte(b));
        parts.push(s);
        assert(want.take(i + 1) =~= want.take(i as int).push(want[i as int]));
        i = i + 1;
    }
    assert(want.take(6) =~= want);
    join_texts(&parts, ":")
}

// ---- the address ----

pub open spec fn unreadable_mac(ifname: Seq<char>, e: Seq<char>) -> Seq<char> {
    "cannot read the MAC of "@ + ifname + ": "@ + e
}

/// The line for an interface whose address cannot be read.
pub fn mac_unreadable(ifname: &str, e: &str) -> (r: String)
    ensures
        r@ == unreadable_mac(ifname@, e@),
{
    cat4("cannot read the MAC of ", ifname, ": ", e)
}

pub open spec fn kept_mac_line(r: RowV, e: Seq<char>) -> Seq<char> {
    "cfab: workload "@ + r.name + ": "@ + unreadable_mac(r.ifname, e)
        + "; announcing the last known MAC"@
}

pub open spec fn changed_mac_line(r: RowV, mac: Seq<u8>) -> Seq<char> {
    "cfab: workload "@ + r.name + ": "@ + r.ifname + " MAC changed "@ + mac_text(r.mac) + " -> "@
        + mac_text(mac)
}

/// What a read of the interface's address is.
pub open spec fn mac_result(read: Result<[u8; 6], String>) -> Result<Seq<u8>, Seq<char>> {
    match read {
        Ok(m) => Ok(m@),
        Err(e) => Err(e@),
    }
}

/// The row after the address was read. A read that fails keeps the last known address.
pub open spec fn mac_taken(r: RowV, read: Result<Seq<u8>, Seq<char>>) -> RowV {
    match read {
        Ok(m) => RowV { mac: m, mac_line: None, ..r },
        Err(e) => RowV { mac_line: Some(kept_mac_line(r, e)), ..r },
    }
}

pub open spec fn mac_lines(r: RowV, read: Result<Seq<u8>, Seq<char>>) -> Seq<Seq<char>> {
    match read {
        Ok(m) => if m == r.mac {
            recovered_lines(r, Cond::Mac)
        } else {
            recovered_lines(r, Cond::Mac).push(changed_mac_line(r, m))
        },
        Err(e) => noted_lines(r, Cond::Mac, kept_mac_line(r, e)),
    }
}

fn same_mac(a: &[u8; 6], b: &[u8; 6]) -> (r: bool)
    ensures
        r == (a@ == b@),
{
    let mut i: usize = 0;
    while i < 6
        invariant
            i <= 6,
            a@.len() == 6,
            b@.len() == 6,
            forall|j: int| 0 <= j < i ==> a@[j] == b@[j],
        decreases 6 - i,
    {
        if a[i] != b[i] {
            return false;
        }
        i = i + 1;
    }
    assert(a@ =~= b@);
    true
}

// ---- sending and scanning ----

pub open spec fn send_failure(r: RowV, e: Seq<char>) -> Seq<char> {
    "cfab: workload "@ + r.name + ": announce on "@ + r.ifname + " failed: "@ + e
}

pub open spec fn scan_failure(r: RowV, why: Seq<char>) -> Seq<char> {
    "cfab: workload "@ + r.name + ": "@ + why + "; burst skipped"@
}

// ---- a bridge that is polled ----

/// Is there anything learned that was not seen before?
pub open spec fn anything_new(
    seen: Seq<(Seq<char>, Seq<char>)>,
    learned: Seq<(Seq<char>, Seq<char>)>,
) -> bool {
    exists|i: int| 0 <= i < learned.len() && !seen.contains(#[trigger] learned[i])
}

/// What has been seen once the first `n` that were learned are taken in.
pub open spec fn seen_after(
    seen: Seq<(Seq<char>, Seq<char>)>,
    learned: Seq<(Seq<char>, Seq<char>)>,
    n: int,
) -> Seq<(Seq<char>, Seq<char>)>
    decreases n,
{
    if n <= 0 {
        seen
    } else {
        let s = seen_after(seen, learned, n - 1);
        if s.contains(learned[n - 1]) {
            s
        } else {
            s.push(learned[n - 1])
        }
    }
}

/// Nothing that was seen is forgotten, all that was learned is seen, and nothing else is.
pub proof fn lemma_seen_after(
    seen: Seq<(Seq<char>, Seq<char>)>,
    learned: Seq<(Seq<char>, Seq<char>)>,
    n: int,
    x: (Seq<char>, Seq<char>),
)
    requires
        0 <= n <= learned.len(),
    ensures
        seen_after(seen, learned, n).contains(x) <==> seen.contains(x) || learned.take(n).contains(
            x,
        ),
    decreases n,
{
    let t = learned.take(n);
    if n > 0 {
        lemma_seen_after(seen, learned, n - 1, x);
        let s = seen_after(seen, learned, n - 1);
        let y = learned[n - 1];
        let u = learned.take(n - 1);
        assert(t =~= u.push(y));
        assert(t[n - 1] == y);
        if u.contains(x) {
            let i = choose|i: int| 0 <= i < u.len() && u[i] == x;
            assert(t[i] == x);
        }
        if t.contains(x) && x != y {
            let i = choose|i: int| 0 <= i < t.len() && t[i] == x;
            assert(u[i] == x);
        }
        let r = s.push(y);
        assert(r[s.len() as int] == y);
        if s.contains(x) {
            let i = choose|i: int| 0 <= i < s.len() && s[i] == x;
            assert(r[i] == x);
        }
        if r.contains(x) && x != y {
            let i = choose|i: int| 0 <= i < r.len() && r[i] == x;
            assert(s[i] == x);
        }
    }
}

/// What a poll has shown once is not new to the next.
pub proof fn lemma_a_poll_shows_nothing_twice(
    seen: Seq<(Seq<char>, Seq<char>)>,
    learned: Seq<(Seq<char>, Seq<char>)>,
)
    ensures
        !anything_new(seen_after(seen, learned, learned.len() as int), learned),
{
    let n = learned.len() as int;
    assert(learned.take(n) =~= learned);
    assert forall|i: int| 0 <= i < n implies seen_after(seen, learned, n).contains(
        #[trigger] learned[i],
    ) by {
        lemma_seen_after(seen, learned, n, learned[i]);
    }
}

fn has_pair(v: &Vec<(String, String)>, x: &(String, String)) -> (r: bool)
    ensures
        r == pairs(v@).contains((x.0@, x.1@)),
{
    let ghost p = pairs(v@);
    let mut i: usize = 0;
    while i < v.len()
        invariant
            i <= v@.len(),
            p == pairs(v@),
            forall|j: int| 0 <= j < i ==> #[trigger] p[j] != (x.0@, x.1@),
        decreases v@.len() - i,
    {
        assert(p[i as int] == (v@[i as int].0@, v@[i as int].1@));
        if str_eq(v[i].0.as_str(), x.0.as_str()) && str_eq(v[i].1.as_str(), x.1.as_str()) {
            return true;
        }
        i = i + 1;
    }
    false
}

impl Row {
    /// Take in what the bridge has learned, each address with its port, and say whether any of it
    /// is new.
    pub fn polled(&mut self, learned: &Vec<(String, String)>) -> (burst: bool)
        ensures
            burst == anything_new(old(self)@.seen, pairs(learned@)),
            final(self)@ == (RowV {
                seen: seen_after(old(self)@.seen, pairs(learned@), learned@.len() as int),
                ..old(self)@
            }),
    {
        let ghost was = self@.seen;
        let ghost p = pairs(learned@);
        let mut burst = false;
        let mut i: usize = 0;
        while i < learned.len()
            invariant
                i <= learned@.len(),
                was == old(self)@.seen,
                p == pairs(learned@),
                self@ == (RowV { seen: seen_after(was, p, i as int), ..old(self)@ }),
                burst == exists|j: int| 0 <= j < i && !was.contains(#[trigger] p[j]),
            decreases learned@.len() - i,
        {
            assert(p[i as int] == (learned@[i as int].0@, learned@[i as int].1@));
            let ghost s = self.seen@;
            proof {
                lemma_seen_after(was, p, i as int, p[i as int]);
            }
            if !has_pair(&self.seen, &learned[i]) {
                burst = true;
                self.seen.push((learned[i].0.clone(), learned[i].1.clone()));
                assert(pairs(self.seen@) =~= pairs(s).push(p[i as int]));
            } else {
                proof {
                    let t = p.take(i as int);
                    if !was.contains(p[i as int]) {
                        let j = choose|j: int| 0 <= j < t.len() && t[j] == p[i as int];
                        assert(p[j] == p[i as int]);
                    }
                }
            }
            i = i + 1;
        }
        burst
    }

    /// Say a line unless it stands already for its condition.
    fn journal_once(&mut self, c: Cond, line: String, log: &mut Vec<String>)
        ensures
            final(self)@ == with_line(old(self)@, c, Some(line@)),
            texts(final(log)@) == texts(old(log)@) + noted_lines(old(self)@, c, line@),
            final(self).mac == old(self).mac,
    {
        broadcast use lemma_texts_push;

        let ghost t = texts(log@);
        let stands = match c {
            Cond::Send => &self.send_line,
            Cond::Mac => &self.mac_line,
            Cond::Scan => &self.scan_line,
        };
        if let Some(s) = stands {
            if str_eq(s.as_str(), line.as_str()) {
                assert(t + seq![] =~= t);
                return;
            }
        }
        assert(t.push(line@) =~= t + seq![line@]);
        log.push(line.clone());
        match c {
            Cond::Send => {
                self.send_line = Some(line);
            },
            Cond::Mac => {
                self.mac_line = Some(line);
            },
            Cond::Scan => {
                self.scan_line = Some(line);
            },
        }
    }

    /// A condition is over: say so once, and only where it stood.
    fn recovered(&mut self, c: Cond, log: &mut Vec<String>)
        ensures
            final(self)@ == with_line(old(self)@, c, None),
            texts(final(log)@) == texts(old(log)@) + recovered_lines(old(self)@, c),
            final(self).mac == old(self).mac,
    {
        broadcast use lemma_texts_push;

        let ghost t = texts(log@);
        let stood = match c {
            Cond::Send => self.send_line.is_some(),
            Cond::Mac => self.mac_line.is_some(),
            Cond::Scan => self.scan_line.is_some(),
        };
        if stood {
            let line = cat5("cfab: workload ", self.name.as_str(), ": ", c.as_str(), " recovered");
            assert(t.push(line@) =~= t + seq![line@]);
            log.push(line);
        } else {
            assert(t + seq![] =~= t);
        }
        match c {
            Cond::Send => {
                self.send_line = None;
            },
            Cond::Mac => {
                self.mac_line = None;
            },
            Cond::Scan => {
                self.scan_line = None;
            },
        }
    }

    /// Take in the interface's address before announcing with it. A change is a change of
    /// ownership, to be burst on; a read that fails keeps the last known address.
    pub fn refresh_mac(&mut self, read: &Result<[u8; 6], String>, log: &mut Vec<String>) -> (burst: bool)
        ensures
            final(self)@ == mac_taken(old(self)@, mac_result(*read)),
            texts(final(log)@) == texts(old(log)@) + mac_lines(old(self)@, mac_result(*read)),
            burst == (read matches Ok(m) && m@ != old(self)@.mac),
    {
        broadcast use lemma_texts_push;

        match read {
            Ok(mac) => {
                let ghost r0 = self@;
                let ghost t0 = texts(log@);
                self.recovered(Cond::Mac, log);
                if same_mac(mac, &self.mac) {
                    return false;
                }
                let line = changed_mac(
                    self.name.as_str(),
                    self.ifname.as_str(),
                    hex_mac(&self.mac).as_str(),
                    hex_mac(mac).as_str(),
                );
                assert(line@ == changed_mac_line(r0, mac@));
                self.mac = *mac;
                let ghost t1 = texts(log@);
                log.push(line);
                assert(t1.push(line@) =~= t0 + recovered_lines(r0, Cond::Mac).push(line@));
                true
            },
            Err(e) => {
                let why = mac_unreadable(self.ifname.as_str(), e.as_str());
                let line = cat5(
                    "cfab: workload ",
                    self.name.as_str(),
                    ": ",
                    why.as_str(),
                    "; announcing the last known MAC",
                );
                assert(line@ =~= kept_mac_line(self@, e@));
                self.journal_once(Cond::Mac, line, log);
                false
            },
        }
    }

    /// Take in what came of announcing: whether a frame was due and went out, or why it did not.
    pub fn announced(&mut self, r: &Result<bool, String>, log: &mut Vec<String>)
        ensures
            final(self)@ == match r {
                Ok(true) => with_line(old(self)@, Cond::Send, None),
                Ok(false) => old(self)@,
                Err(e) => with_line(old(self)@, Cond::Send, Some(send_failure(old(self)@, e@))),
            },
            texts(final(log)@) == texts(old(log)@) + match r {
                Ok(true) => recovered_lines(old(self)@, Cond::Send),
                Ok(false) => seq![],
                Err(e) => noted_lines(old(self)@, Cond::Send, send_failure(old(self)@, e@)),
            },
    {
        match r {
            Ok(sent) => {
                if *sent {
                    self.recovered(Cond::Send, log);
                } else {
                    assert(texts(log@) + seq![] =~= texts(log@));
                }
            },
            Err(e) => {
                let line = cat6(
                    "cfab: workload ",
                    self.name.as_str(),
                    ": announce on ",
                    self.ifname.as_str(),
                    " failed: ",
                    e.as_str(),
                );
                self.journal_once(Cond::Send, line, log);
            },
        }
    }

    /// Take in the ports of the bridge that do not lead off this host, and say whether the event
    /// on this port is a change of ownership. Without the list the burst is skipped.
    pub fn scanned(
        &mut self,
        ports: &Result<Vec<u32>, String>,
        ifindex: u32,
        log: &mut Vec<String>,
    ) -> (burst: bool)
        ensures
            final(self)@ == match ports {
                Ok(_) => with_line(old(self)@, Cond::Scan, None),
                Err(e) => with_line(old(self)@, Cond::Scan, Some(scan_failure(old(self)@, e@))),
            },
            texts(final(log)@) == texts(old(log)@) + match ports {
                Ok(_) => recovered_lines(old(self)@, Cond::Scan),
                Err(e) => noted_lines(old(self)@, Cond::Scan, scan_failure(old(self)@, e@)),
            },
            burst == (ports matches Ok(v) && v@.contains(ifindex)),
    {
        match ports {
            Ok(v) => {
                self.recovered(Cond::Scan, log);
                has_port(v, ifindex)
            },
            Err(why) => {
                let line = cat5(
                    "cfab: workload ",
                    self.name.as_str(),
                    ": ",
                    why.as_str(),
                    "; burst skipped",
                );
                self.journal_once(Cond::Scan, line, log);
                false
            },
        }
    }
}

fn has_port(v: &Vec<u32>, ifindex: u32) -> (r: bool)
    ensures
        r == v@.contains(ifindex),
{
    let mut i: usize = 0;
    while i < v.len()
        invariant
            i <= v@.len(),
            forall|j: int| 0 <= j < i ==> v@[j] != ifindex,
        decreases v@.len() - i,
    {
        if v[i] == ifindex {
            return true;
        }
        i = i + 1;
    }
    false
}

fn changed_mac(name: &str, ifname: &str, was: &str, is: &str) -> (r: String)
    ensures
        r@ == "cfab: workload "@ + name@ + ": "@ + ifname@ + " MAC changed "@ + was@ + " -> "@ + is@,
{
    let mut s = cat7("cfab: workload ", name, ": ", ifname, " MAC changed ", was, " -> ");
    s.append(is);
    s
}

// ---- every row ----

/// The announcers that a member runs. Without a trigger nothing runs: the member has no row.
#[derive(Debug)]
pub struct Workloads {
    pub trigger: Option<Trigger>,
    pub rows: Vec<Row>,
    /// The rows that have been reported as deferred.
    pub deferred_said: Vec<String>,
}

pub struct WorkloadsV {
    pub trigger: Option<TriggerV>,
    pub rows: Seq<RowV>,
    pub deferred_said: Seq<Seq<char>>,
}

pub open spec fn trigger_view(t: Option<Trigger>) -> Option<TriggerV> {
    match t {
        Some(x) => Some(x@),
        None => None,
    }
}

impl View for Workloads {
    type V = WorkloadsV;

    open spec fn view(&self) -> WorkloadsV {
        WorkloadsV {
            trigger: trigger_view(self.trigger),
            rows: views(self.rows@),
            deferred_said: texts(self.deferred_said@),
        }
    }
}

/// Where the row of this name is from `i` on, or the number of rows.
pub open spec fn row_place(rows: Seq<RowV>, name: Seq<char>, i: int) -> int
    decreases rows.len() - i,
{
    if i >= rows.len() {
        rows.len() as int
    } else if rows[i].name == name {
        i
    } else {
        row_place(rows, name, i + 1)
    }
}

/// Does an announcer run for this row?
pub open spec fn runs(w: WorkloadsV, name: Seq<char>) -> bool {
    row_place(w.rows, name, 0) < w.rows.len()
}

pub open spec fn start_line(name: Seq<char>, t: TriggerV) -> Seq<char> {
    "cfab: workload "@ + name + ": announcer trigger "@ + trigger_text(t)
}

pub open spec fn deferred_line(name: Seq<char>) -> Seq<char> {
    "cfab: workload "@ + name + ": deferred; announcer not started"@
}

pub open spec fn unstarted_line(name: Seq<char>, why: Seq<char>) -> Seq<char> {
    "cfab: workload "@ + name + ": "@ + why + "; announcer not started"@
}

/// What becomes of a declared row on a tick.
pub enum StartV {
    /// Its announcer runs.
    Runs,
    /// It has no gateway address on the wire yet.
    Deferred,
    Try,
}

pub open spec fn start_of(w: WorkloadsV, name: Seq<char>, deferred: Seq<Seq<char>>) -> StartV {
    if runs(w, name) {
        StartV::Runs
    } else if deferred.contains(name) {
        StartV::Deferred
    } else {
        StartV::Try
    }
}

/// The state after a declared row was looked at: a deferred one is said once.
pub open spec fn looked_at(w: WorkloadsV, name: Seq<char>, deferred: Seq<Seq<char>>) -> WorkloadsV {
    if start_of(w, name, deferred) is Deferred && !w.deferred_said.contains(name) {
        WorkloadsV { deferred_said: w.deferred_said.push(name), ..w }
    } else {
        w
    }
}

pub open spec fn looked_lines(w: WorkloadsV, name: Seq<char>, deferred: Seq<Seq<char>>) -> Seq<
    Seq<char>,
> {
    if start_of(w, name, deferred) is Deferred && !w.deferred_said.contains(name) {
        seq![deferred_line(name)]
    } else {
        seq![]
    }
}

/// A row whose announcer starts now.
pub open spec fn fresh_row(name: Seq<char>, ifname: Seq<char>, up: UplinkV, mac: Seq<u8>) -> RowV {
    RowV { name, ifname, up, mac, send_line: None, mac_line: None, scan_line: None, seen: seq![] }
}

pub open spec fn uplink_line(name: Seq<char>, was: Seq<Seq<char>>, is: Seq<Seq<char>>) -> Seq<char> {
    "cfab: workload "@ + name + ": uplink ports "@ + join(was, ","@) + " -> "@ + join(is, ","@)
}

/// The rows after one row's uplink was read again.
pub open spec fn uplink_taken(rows: Seq<RowV>, name: Seq<char>, up: UplinkV) -> Seq<RowV> {
    let k = row_place(rows, name, 0);
    if k < rows.len() {
        rows.update(k, RowV { up, ..rows[k] })
    } else {
        rows
    }
}

pub open spec fn uplink_lines(rows: Seq<RowV>, name: Seq<char>, up: UplinkV) -> Seq<Seq<char>> {
    let k = row_place(rows, name, 0);
    if k < rows.len() && join(rows[k].up.ports, ","@) != join(up.ports, ","@) {
        seq![uplink_line(name, rows[k].up.ports, up.ports)]
    } else {
        seq![]
    }
}

/// The start lines of the first `n` rows.
pub open spec fn start_lines(rows: Seq<RowV>, t: TriggerV, n: int) -> Seq<Seq<char>>
    decreases n,
{
    if n <= 0 {
        seq![]
    } else {
        start_lines(rows, t, n - 1).push(start_line(rows[n - 1].name, t))
    }
}

pub open spec fn dead_watch(why: Seq<char>) -> TriggerV {
    TriggerV::FdbPoll { reason: "neighbor watch died: "@ + why }
}

/// Does the end of the watch change anything?
pub open spec fn falls_back(w: WorkloadsV, why: Seq<char>) -> bool {
    w.trigger is Some && w.trigger != Some(dead_watch(why))
}

/// What a neighbor event asks for.
#[derive(Debug, Clone, Copy, PartialEq, Eq, Structural)]
pub enum NeighSignal {
    /// Events were lost.
    Overflow,
    /// An address was learned on a port.
    Add { ifindex: u32, permanent: bool },
}

/// What is to be done for a neighbor event.
#[derive(Debug, Clone, Copy, PartialEq, Eq, Structural)]
pub enum NeighPlan {
    /// Every row bursts: what was lost may have been for any of them.
    BurstAll,
    Nothing,
    /// The rows burst whose bridge has this port and does not lead off the host by it.
    Scan { ifindex: u32 },
}

pub fn on_neigh(sig: NeighSignal) -> (r: NeighPlan)
    ensures
        r == match sig {
            NeighSignal::Overflow => NeighPlan::BurstAll,
            NeighSignal::Add { ifindex, permanent } => if permanent {
                NeighPlan::Nothing
            } else {
                NeighPlan::Scan { ifindex }
            },
        },
{
    match sig {
        NeighSignal::Overflow => NeighPlan::BurstAll,
        NeighSignal::Add { ifindex, permanent } => if permanent {
            NeighPlan::Nothing
        } else {
            NeighPlan::Scan { ifindex }
        },
    }
}

/// What is reported of one announcer.
#[derive(Debug, PartialEq, Eq)]
pub struct WorkloadAnnounce {
    pub name: String,
    pub ifname: String,
    pub trigger: String,
    pub announces: u64,
    pub bursts: u64,
}

/// When the first of these is due.
pub fn next_due(dues: &Vec<Instant>) -> (r: Option<Instant>)
    ensures
        match r {
            Some(t) => dues@.contains(t) && forall|i: int|
                0 <= i < dues@.len() ==> t.ns <= (#[trigger] dues@[i]).ns,
            None => dues@.len() == 0,
        },
{
    if dues.len() == 0 {
        return None;
    }
    let mut best = dues[0];
    let mut i: usize = 1;
    while i < dues.len()
        invariant
            1 <= i <= dues@.len(),
            dues@.contains(best),
            forall|j: int| 0 <= j < i ==> best.ns <= (#[trigger] dues@[j]).ns,
        decreases dues@.len() - i,
    {
        if dues[i].ns < best.ns {
            best = dues[i];
        }
        i = i + 1;
    }
    Some(best)
}

impl Workloads {
    /// Nothing runs yet. A member with a row opens the neighbor watch; one that cannot polls the
    /// bridge's table instead. A member without a row opens nothing.
    pub fn start(has_rows: bool, opened: &Result<(), String>) -> (r: Workloads)
        ensures
            r@ == (WorkloadsV {
                trigger: if has_rows {
                    Some(
                        match opened {
                            Ok(_) => TriggerV::NeighEvents,
                            Err(e) => TriggerV::FdbPoll {
                                reason: "RTNLGRP_NEIGH subscription failed: "@ + e@,
                            },
                        },
                    )
                } else {
                    None
                },
                rows: seq![],
                deferred_said: seq![],
            }),
    {
        let trigger = if has_rows {
            Some(
                match opened {
                    Ok(_) => Trigger::NeighEvents,
                    Err(e) => Trigger::FdbPoll {
                        reason: cat2("RTNLGRP_NEIGH subscription failed: ", e.as_str()),
                    },
                },
            )
        } else {
            None
        };
        let r = Workloads { trigger, rows: Vec::new(), deferred_said: Vec::new() };
        assert(r@.rows =~= seq![]);
        assert(r@.deferred_said =~= seq![]);
        r
    }

    fn find(&self, name: &str) -> (r: usize)
        ensures
            r as int == row_place(self@.rows, name@, 0),
            r <= self.rows@.len(),
    {
        let mut i: usize = 0;
        while i < self.rows.len()
            invariant
                i <= self.rows@.len(),
                row_place(self@.rows, name@, 0) == row_place(self@.rows, name@, i as int),
            decreases self.rows@.len() - i,
        {
            assert(self@.rows[i as int] == self.rows@[i as int]@);
            if str_eq(self.rows[i].name.as_str(), name) {
                return i;
            }
            i = i + 1;
        }
        i
    }

    /// Is there a declared row that may still have to be started? Where every one runs, nothing
    /// is read at all.
    pub fn pending(&self, declared: usize) -> (r: bool)
        ensures
            r == (self@.rows.len() != declared && self@.trigger is Some),
    {
        self.rows.len() != declared && self.trigger.is_some()
    }

    /// Look at one declared row: should its announcer be started? Not where it runs already, and
    /// not where it is deferred, which is said once.
    pub fn should_start(
        &mut self,
        name: &str,
        deferred: &Vec<String>,
        log: &mut Vec<String>,
    ) -> (go: bool)
        ensures
            go == (start_of(old(self)@, name@, texts(deferred@)) is Try),
            final(self)@ == looked_at(old(self)@, name@, texts(deferred@)),
            texts(final(log)@) == texts(old(log)@) + looked_lines(
                old(self)@,
                name@,
                texts(deferred@),
            ),
    {
        broadcast use lemma_texts_push;

        let ghost t = texts(log@);
        assert(t + seq![] =~= t);
        if self.find(name) < self.rows.len() {
            return false;
        }
        if contains(deferred, name) {
            if !contains(&self.deferred_said, name) {
                self.deferred_said.push(String::from_str(name));
                let line = cat3(
                    "cfab: workload ",
                    name,
                    ": deferred; announcer not started",
                );
                assert(t.push(line@) =~= t + seq![line@]);
                log.push(line);
            }
            return false;
        }
        true
    }

    /// Take in what came of reading the uplink and the address of a row that should start. A
    /// failure is never fatal: the row is tried again on a later tick.
    pub fn started(
        &mut self,
        name: &str,
        ifname: &str,
        read: Result<(Uplink, [u8; 6]), String>,
        log: &mut Vec<String>,
    )
        requires
            old(self).trigger is Some,
        ensures
            final(self)@ == match read {
                Ok(p) => WorkloadsV {
                    rows: old(self)@.rows.push(fresh_row(name@, ifname@, p.0@, p.1@)),
                    ..old(self)@
                },
                Err(_) => old(self)@,
            },
            texts(final(log)@) == texts(old(log)@).push(
                match read {
                    Ok(_) => start_line(name@, old(self)@.trigger->0),
                    Err(e) => unstarted_line(name@, e@),
                },
            ),
    {
        broadcast use lemma_texts_push;

        match read {
            Ok(p) => {
                let t = match &self.trigger {
                    Some(t) => t.to_string(),
                    None => String::new(),
                };
                let ghost was = self.rows@;
                let row = Row {
                    name: String::from_str(name),
                    ifname: String::from_str(ifname),
                    up: p.0,
                    mac: p.1,
                    send_line: None,
                    mac_line: None,
                    scan_line: None,
                    seen: Vec::new(),
                };
                assert(row@.seen =~= seq![]);
                self.rows.push(row);
                assert(views(self.rows@) =~= views(was).push(row@));
                log.push(cat4("cfab: workload ", name, ": announcer trigger ", t.as_str()));
            },
            Err(why) => {
                log.push(
                    cat5("cfab: workload ", name, ": ", why.as_str(), "; announcer not started"),
                );
            },
        }
    }

    /// Take in a row's uplink, read again. A port that was added leads off this host from then
    /// on; a read that failed is not handed in, and keeps what was known.
    pub fn refresh_uplink(&mut self, name: &str, up: Uplink, log: &mut Vec<String>)
        ensures
            final(self)@ == (WorkloadsV {
                rows: uplink_taken(old(self)@.rows, name@, up@),
                ..old(self)@
            }),
            texts(final(log)@) == texts(old(log)@) + uplink_lines(old(self)@.rows, name@, up@),
    {
        broadcast use lemma_texts_push;

        let ghost t = texts(log@);
        let ghost rows0 = self@.rows;
        assert(t + seq![] =~= t);
        let k = self.find(name);
        if k >= self.rows.len() {
            return;
        }
        assert(rows0[k as int] == self.rows@[k as int]@);
        let was = join_texts(&self.rows[k].up.ports, ",");
        let is = join_texts(&up.ports, ",");
        let ghost r0 = self.rows@;
        self.rows[k].up = up;
        assert(views(self.rows@) =~= rows0.update(k as int, RowV { up: up@, ..rows0[k as int] }));
        if !str_eq(was.as_str(), is.as_str()) {
            let line = cat6(
                "cfab: workload ",
                name,
                ": uplink ports ",
                was.as_str(),
                " -> ",
                is.as_str(),
            );
            assert(t.push(line@) =~= t + seq![line@]);
            log.push(line);
        }
    }

    /// Does the member poll the bridge's table? Only where events are not to be had, and never
    /// beside them.
    pub fn polls(&self) -> (r: bool)
        ensures
            r == (self@.trigger matches Some(t) && t is FdbPoll),
    {
        match &self.trigger {
            Some(Trigger::FdbPoll { .. }) => true,
            _ => false,
        }
    }

    /// The neighbor watch has ended: every row moves to the poll and says so, once.
    pub fn watch_died(&mut self, why: &str, log: &mut Vec<String>)
        ensures
            final(self)@ == if falls_back(old(self)@, why@) {
                WorkloadsV { trigger: Some(dead_watch(why@)), ..old(self)@ }
            } else {
                old(self)@
            },
            texts(final(log)@) == texts(old(log)@) + if falls_back(old(self)@, why@) {
                start_lines(old(self)@.rows, dead_watch(why@), old(self)@.rows.len() as int)
            } else {
                seq![]
            },
    {
        broadcast use lemma_texts_push;

        let ghost t0 = texts(log@);
        assert(t0 + seq![] =~= t0);
        let reason = cat2("neighbor watch died: ", why);
        match &self.trigger {
            None => {
                return;
            },
            Some(Trigger::FdbPoll { reason: now }) => {
                if str_eq(now.as_str(), reason.as_str()) {
                    return;
                }
            },
            Some(Trigger::NeighEvents) => {},
        }
        let t = Trigger::FdbPoll { reason };
        let said = t.to_string();
        let ghost tv = t@;
        self.trigger = Some(t);
        let mut i: usize = 0;
        while i < self.rows.len()
            invariant
                i <= self.rows@.len(),
                said@ == trigger_text(tv),
                texts(log@) == t0 + start_lines(self@.rows, tv, i as int),
            decreases self.rows@.len() - i,
        {
            assert(self@.rows[i as int] == self.rows@[i as int]@);
            let line = cat4(
                "cfab: workload ",
                self.rows[i].name.as_str(),
                ": announcer trigger ",
                said.as_str(),
            );
            proof {
                let e = start_lines(self@.rows, tv, i as int);
                assert((t0 + e).push(line@) =~= t0 + e.push(line@));
            }
            log.push(line);
            i = i + 1;
        }
    }

    /// What is reported of every announcer, given how often each has announced and burst.
    pub fn rows_for_status(&self, counters: &Vec<(u64, u64)>) -> (r: Vec<WorkloadAnnounce>)
        requires
            counters@.len() == self.rows@.len(),
        ensures
            r@.len() == self.rows@.len(),
            forall|i: int|
                0 <= i < r@.len() ==> {
                    let x = #[trigger] r@[i];
                    &&& x.name@ == self@.rows[i].name
                    &&& x.ifname@ == self@.rows[i].ifname
                    &&& x.announces == counters@[i].0
                    &&& x.bursts == counters@[i].1
                    &&& x.trigger@ == match self@.trigger {
                        Some(t) => trigger_text(t),
                        None => seq![],
                    }
                },
    {
        let trigger = match &self.trigger {
            Some(t) => t.to_string(),
            None => {
                let s = String::new();
                assert(s@ =~= seq![]);
                s
            },
        };
        let mut out: Vec<WorkloadAnnounce> = Vec::new();
        let mut i: usize = 0;
        while i < self.rows.len()
            invariant
                i <= self.rows@.len(),
                counters@.len() == self.rows@.len(),
                out@.len() == i,
                trigger@ == match self@.trigger {
                    Some(t) => trigger_text(t),
                    None => seq![],
                },
                forall|j: int|
                    0 <= j < i ==> {
                        let x = #[trigger] out@[j];
                        &&& x.name@ == self@.rows[j].name
                        &&& x.ifname@ == self@.rows[j].ifname
                        &&& x.announces == counters@[j].0
                        &&& x.bursts == counters@[j].1
                        &&& x.trigger@ == trigger@
                    },
            decreases self.rows@.len() - i,
        {
            out.push(
                WorkloadAnnounce {
                    name: self.rows[i].name.clone(),
                    ifname: self.rows[i].ifname.clone(),
                    trigger: trigger.clone(),
                    announces: counters[i].0,
                    bursts: counters[i].1,
                },
            );
            i = i + 1;
        }
        out
    }
}

fn contains(names: &Vec<String>, name: &str) -> (r: bool)
    ensures
        r == texts(names@).contains(name@),
{
    let r = has_text(names, names.len(), name);
    proof {
        if r {
            let k = choose|k: int| 0 <= k < names@.len() && names@[k]@ == name@;
            assert(texts(names@)[k] == name@);
        }
        if texts(names@).contains(name@) {
            let k = choose|k: int| 0 <= k < texts(names@).len() && texts(names@)[k] == name@;
            assert(names@[k]@ == name@);
        }
    }
    r
}

// ---- laws ----

/// A fault that lasts is said once: the same line of the same condition is not said again.
pub proof fn lemma_a_lasting_fault_is_said_once(r: RowV, c: Cond, line: Seq<char>)
    ensures
        noted_lines(with_line(r, c, Some(line)), c, line) =~= seq![],
{
}

/// A fault that ended and comes back is said again, and its end was said once.
pub proof fn lemma_a_returning_fault_is_said_again(r: RowV, c: Cond, line: Seq<char>)
    ensures
        recovered_lines(with_line(r, c, Some(line)), c) =~= seq![recovery_line(r, c)],
        noted_lines(with_line(with_line(r, c, Some(line)), c, None), c, line) =~= seq![line],
        recovered_lines(with_line(r, c, None), c) =~= seq![],
{
}

/// The conditions are independent: what stands for one does not change what stands for another.
pub proof fn lemma_conditions_are_independent(r: RowV, c: Cond, d: Cond, line: Option<Seq<char>>)
    requires
        c != d,
    ensures
        standing(with_line(r, c, line), d) == standing(r, d),
        standing(with_line(r, c, line), c) == line,
{
}

/// An announcer is never started for a row that is deferred.
pub proof fn lemma_a_deferred_row_is_not_started(
    w: WorkloadsV,
    name: Seq<char>,
    deferred: Seq<Seq<char>>,
)
    requires
        deferred.contains(name),
    ensures
        !(start_of(w, name, deferred) is Try),
        looked_lines(looked_at(w, name, deferred), name, deferred) =~= seq![],
{
    let d = looked_at(w, name, deferred).deferred_said;
    if start_of(w, name, deferred) is Deferred && !w.deferred_said.contains(name) {
        assert(d[d.len() - 1] == name);
    }
}

} // verus!
