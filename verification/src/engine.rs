//! The resident routing engine: what it is set up with, what it is asked, and what it answers.

use vstd::prelude::*;

use crate::engine::cidr::{network_of, read_network, IpNet};
use crate::error::{is_fatal, Error};
use crate::ipv4::Ipv4Addr;
use crate::model::{pairs, Fabric};
use crate::text::{cat2, cat3, cat5, chars_of, dec, dec_u64, find_char, lemma_find};

pub mod cidr;
pub mod laws;
pub mod northbound;
pub mod sock;
pub mod state;
pub mod talking;

verus! {

/// The engine's socket, under the run directory.
pub const SOCK_NAME: &'static str = "engine.sock";

/// The file whose lock the engine holds for its whole life, under the run directory.
pub const LOCK_NAME: &'static str = "engine.lock";

/// The path of a file in a directory.
pub open spec fn path_in(dir: Seq<char>, name: Seq<char>) -> Seq<char> {
    if dir.len() == 0 || dir.last() == '/' {
        dir + name
    } else {
        dir + "/"@ + name
    }
}

pub fn file_in(dir: &str, name: &str) -> (r: String)
    ensures
        r@ == path_in(dir@, name@),
{
    let v = chars_of(dir);
    if v.len() == 0 || v[v.len() - 1] == '/' {
        cat2(dir, name)
    } else {
        cat3(dir, "/", name)
    }
}

/// The sockets that BFD may receive on: IPv4, single hop, and no other.
#[derive(Debug, Clone, Copy, PartialEq, Eq, Structural)]
pub struct BfdSocketPolicy {
    pub single_hop_port: u16,
    pub ipv6: bool,
}

pub fn bfd_socket_policy(fabric: &Fabric) -> (r: BfdSocketPolicy)
    ensures
        r == (BfdSocketPolicy { single_hop_port: fabric@.bfd_port, ipv6: false }),
{
    BfdSocketPolicy { single_hop_port: fabric.bfd_port, ipv6: false }
}

/// The socket that BGP may listen on.
#[derive(Debug, Clone, Copy, PartialEq, Eq, Structural)]
pub enum BgpListenPolicy {
    /// A wildcard address, shared with whoever else listens there.
    Wildcard,
    NoListener,
}

impl BgpListenPolicy {
    pub fn binds_listener(self) -> (r: bool)
        ensures
            r == (self == BgpListenPolicy::Wildcard),
    {
        match self {
            BgpListenPolicy::Wildcard => true,
            BgpListenPolicy::NoListener => false,
        }
    }
}

/// None: the engine is the active side of every session it opens, whatever is declared.
pub fn bgp_listen_policy(fabric: &Fabric) -> (r: BgpListenPolicy)
    ensures
        r == BgpListenPolicy::NoListener,
{
    BgpListenPolicy::NoListener
}

/// The priority that the engine marks its own OSPF and BFD frames with: it is always set.
pub fn control_priority(fabric: &Fabric) -> (r: Option<u32>)
    ensures
        r == Some(fabric@.pcp_ctrl as u32),
{
    Some(fabric.pcp_ctrl as u32)
}

// ---- preferred sources ----

/// An address of either family.
#[derive(Debug, Clone, Copy, PartialEq, Eq, Structural)]
pub enum IpHost {
    V4(Ipv4Addr),
    V6(u128),
}

/// The address that a text spells: a network without a length.
pub open spec fn host_of(s: Seq<char>) -> Option<IpHost> {
    if s.contains('/') {
        None
    } else {
        match network_of(s) {
            Some(IpNet::V4(p)) => Some(IpHost::V4(p.net)),
            Some(IpNet::V6 { bits, .. }) => Some(IpHost::V6(bits)),
            None => None,
        }
    }
}

fn read_host(s: &str) -> (r: Option<IpHost>)
    ensures
        r == host_of(s@),
{
    let v = chars_of(s);
    let k = find_char(&v, '/', 0);
    proof {
        lemma_find(s@, '/', 0);
    }
    if k < v.len() {
        assert(s@[k as int] == '/');
        return None;
    }
    assert(!s@.contains('/'));
    match read_network(s) {
        Some(IpNet::V4(p)) => Some(IpHost::V4(p.net)),
        Some(IpNet::V6 { bits, len }) => Some(IpHost::V6(bits)),
        None => None,
    }
}

/// Why a rule is refused, if it is.
pub open spec fn prefsrc_refusal(rule: (Seq<char>, Seq<char>)) -> Option<Seq<char>> {
    if network_of(rule.0) is None {
        Some("engine: prefsrc prefix "@ + rule.0 + ": invalid address: "@ + rule.0)
    } else if host_of(rule.1) is None {
        Some("engine: prefsrc address "@ + rule.1 + ": invalid IP address syntax"@)
    } else {
        None
    }
}

/// The first refusal among the rules from `i` on.
pub open spec fn prefsrc_refusals(rules: Seq<(Seq<char>, Seq<char>)>, i: int) -> Option<Seq<char>>
    decreases rules.len() - i,
{
    if i >= rules.len() {
        None
    } else if prefsrc_refusal(rules[i]) is Some {
        prefsrc_refusal(rules[i])
    } else {
        prefsrc_refusals(rules, i + 1)
    }
}

/// The rules as networks and addresses. One that is neither refuses them all.
pub fn parse_prefsrc(rules: &Vec<(String, String)>) -> (r: Result<Vec<(IpNet, IpHost)>, Error>)
    ensures
        match r {
            Ok(v) => prefsrc_refusals(pairs(rules@), 0) is None && v@.len() == rules@.len()
                && forall|i: int|
                0 <= i < v@.len() ==> Some((#[trigger] v@[i]).0) == network_of(rules@[i].0@) && Some(
                    v@[i].1,
                ) == host_of(rules@[i].1@),
            Err(e) => prefsrc_refusals(pairs(rules@), 0) is Some && is_fatal(
                e,
                prefsrc_refusals(pairs(rules@), 0)->0,
            ),
        },
{
    let mut out: Vec<(IpNet, IpHost)> = Vec::new();
    let mut i: usize = 0;
    while i < rules.len()
        invariant
            i <= rules@.len(),
            out@.len() == i,
            prefsrc_refusals(pairs(rules@), 0) == prefsrc_refusals(pairs(rules@), i as int),
            forall|j: int|
                0 <= j < i ==> Some((#[trigger] out@[j]).0) == network_of(rules@[j].0@) && Some(
                    out@[j].1,
                ) == host_of(rules@[j].1@),
        decreases rules@.len() - i,
    {
        assert(pairs(rules@)[i as int] == (rules@[i as int].0@, rules@[i as int].1@));
        let net = rules[i].0.as_str();
        let src = rules[i].1.as_str();
        let n = match read_network(net) {
            Some(n) => n,
            None => {
                let mut m = cat2("engine: prefsrc prefix ", net);
                m.append(": invalid address: ");
                m.append(net);
                return Err(Error::Fatal(m));
            },
        };
        let s = match read_host(src) {
            Some(s) => s,
            None => {
                return Err(
                    Error::Fatal(
                        cat3("engine: prefsrc address ", src, ": invalid IP address syntax"),
                    ),
                );
            },
        };
        out.push((n, s));
        i = i + 1;
    }
    Ok(out)
}

// ---- starting and running ----

/// The refusal to start beside an engine that holds the lock.
pub fn already_running(pid: Option<u32>, lock_path: &str) -> (r: Error)
    ensures
        is_fatal(
            r,
            "another engine is running (pid "@ + (match pid {
                Some(p) => dec(p as nat),
                None => "unknown"@,
            }) + " per "@ + lock_path@ + "); stop it first (cfab down)"@,
        ),
{
    let who = match pid {
        Some(p) => dec_u64(p as u64),
        None => String::from_str("unknown"),
    };
    Error::Fatal(
        cat5(
            "another engine is running (pid ",
            who.as_str(),
            " per ",
            lock_path,
            "); stop it first (cfab down)",
        ),
    )
}

/// What the engine's loop wakes up for.
#[derive(Debug, Clone, Copy, PartialEq, Eq, Structural)]
pub enum Event {
    Accepted,
    Ignore,
    ProvidersGone,
    Signal,
}

/// What the engine's loop does next.
#[derive(Debug)]
pub enum Next {
    Serve,
    Wait,
    Stop,
    Fail(Error),
}

/// A connection is served, a signal stops the engine in good order, and with every provider gone
/// there is nothing left to run.
pub fn on_event(ev: Event) -> (r: Next)
    ensures
        match ev {
            Event::Accepted => r is Serve,
            Event::Ignore => r is Wait,
            Event::Signal => r is Stop,
            Event::ProvidersGone => r matches Next::Fail(e) && is_fatal(
                e,
                "engine: every provider exited"@,
            ),
        },
{
    match ev {
        Event::Accepted => Next::Serve,
        Event::Ignore => Next::Wait,
        Event::Signal => Next::Stop,
        Event::ProvidersGone => Next::Fail(Error::fatal("engine: every provider exited")),
    }
}

} // verus!
