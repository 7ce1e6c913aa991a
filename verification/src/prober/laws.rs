//! What holds of the legs that a view of the fabric makes.

use vstd::prelude::*;

use crate::derive::{FallbackRowV, MemberViewV};
use crate::ipv4::{octet, quad, Ipv4Addr};
use crate::model::MemberV;
use crate::prober::asking::target_place;
use crate::prober::{is_peer, peer_rids, peer_targets, rid_of, rid_place, with_rid};

verus! {

/// In order, and none twice.
pub open spec fn rising(s: Seq<u32>) -> bool {
    forall|i: int, j: int| 0 <= i < j < s.len() ==> #[trigger] s[i] < #[trigger] s[j]
}

/// Is a peer among the first `n` members the one with this Router ID?
pub open spec fn some_peer(v: MemberViewV, r: FallbackRowV, zone_id: u8, n: int, rid: u32) -> bool {
    exists|i: int|
        0 <= i < n && is_peer(v, r.zone, #[trigger] v.fabric.members[i]) && rid_of(
            zone_id,
            v.fabric.members[i].node,
        ) == rid
}

proof fn lemma_rid_place(s: Seq<u32>, x: u32, i: int)
    requires
        0 <= i <= s.len(),
    ensures
        i <= rid_place(s, x, i) <= s.len(),
        forall|j: int| i <= j < rid_place(s, x, i) ==> #[trigger] s[j] < x,
        rid_place(s, x, i) < s.len() ==> s[rid_place(s, x, i)] >= x,
    decreases s.len() - i,
{
    if i < s.len() && s[i] < x {
        lemma_rid_place(s, x, i + 1);
    }
}

proof fn lemma_with_rid(s: Seq<u32>, x: u32)
    requires
        rising(s),
    ensures
        rising(with_rid(s, x)),
        forall|y: u32| #[trigger] with_rid(s, x).contains(y) <==> s.contains(y) || y == x,
{
    lemma_rid_place(s, x, 0);
    let k = rid_place(s, x, 0);
    if k < s.len() && s[k] == x {
        assert(s.contains(x));
    } else {
        let t = s.insert(k, x);
        assert forall|i: int, j: int| 0 <= i < j < t.len() implies #[trigger] t[i]
            < #[trigger] t[j] by {
            let a = if i < k {
                i
            } else {
                i - 1
            };
            let b = if j < k {
                j
            } else {
                j - 1
            };
            if i == k {
                assert(t[j] == s[b]);
                if b > k {
                    assert(s[k] < s[b]);
                }
            } else if j == k {
                assert(t[i] == s[a]);
            } else {
                assert(t[i] == s[a] && t[j] == s[b]);
            }
        }
        assert forall|y: u32| #[trigger] t.contains(y) <==> s.contains(y) || y == x by {
            if s.contains(y) {
                let i = choose|i: int| 0 <= i < s.len() && s[i] == y;
                assert(t[if i < k {
                    i
                } else {
                    i + 1
                }] == y);
            }
            if y == x {
                assert(t[k] == y);
            }
            if t.contains(y) {
                let j = choose|j: int| 0 <= j < t.len() && t[j] == y;
                if j < k {
                    assert(s[j] == y);
                } else if j > k {
                    assert(s[j - 1] == y);
                }
            }
        }
    }
}

/// The Router IDs that are expected on a universal segment are those of the other members that
/// carry it, in order and each once.
pub proof fn lemma_peers_are_the_other_members(
    v: MemberViewV,
    r: FallbackRowV,
    zone_id: u8,
    n: int,
)
    requires
        0 <= n <= v.fabric.members.len(),
    ensures
        rising(peer_rids(v, r, zone_id, n)),
        forall|x: u32| #[trigger]
            peer_rids(v, r, zone_id, n).contains(x) <==> some_peer(v, r, zone_id, n, x),
    decreases n,
{
    if n > 0 {
        lemma_peers_are_the_other_members(v, r, zone_id, n - 1);
        let b = peer_rids(v, r, zone_id, n - 1);
        let m = v.fabric.members[n - 1];
        lemma_with_rid(b, rid_of(zone_id, m.node));
        assert forall|x: u32| #[trigger]
            peer_rids(v, r, zone_id, n).contains(x) <==> some_peer(v, r, zone_id, n, x) by {
            if some_peer(v, r, zone_id, n - 1, x) {
                let i = choose|i: int|
                    0 <= i < n - 1 && is_peer(v, r.zone, #[trigger] v.fabric.members[i]) && rid_of(
                        zone_id,
                        v.fabric.members[i].node,
                    ) == x;
                assert(is_peer(v, r.zone, v.fabric.members[i]));
            }
            if is_peer(v, r.zone, m) && rid_of(zone_id, m.node) == x {
                assert(is_peer(v, r.zone, v.fabric.members[n - 1]));
            }
        }
    }
}

/// Where no other member has its node, a member is not among its own peers.
pub proof fn lemma_a_member_is_not_its_own_peer(v: MemberViewV, r: FallbackRowV, zone_id: u8)
    requires
        forall|i: int|
            0 <= i < v.fabric.members.len() && (#[trigger] v.fabric.members[i]).name
                != v.member.name ==> v.fabric.members[i].node != v.member.node,
    ensures
        !peer_rids(v, r, zone_id, v.fabric.members.len() as int).contains(
            rid_of(zone_id, v.member.node),
        ),
{
    let n = v.fabric.members.len() as int;
    lemma_peers_are_the_other_members(v, r, zone_id, n);
    let own = rid_of(zone_id, v.member.node);
    if some_peer(v, r, zone_id, n, own) {
        let i = choose|i: int|
            0 <= i < n && is_peer(v, r.zone, #[trigger] v.fabric.members[i]) && rid_of(
                zone_id,
                v.fabric.members[i].node,
            ) == own;
        assert(v.fabric.members[i].node != v.member.node);
    }
}

/// Every target is the address on the segment of some peer, and every peer's is among them.
proof fn lemma_targets(v: MemberViewV, r: FallbackRowV, zone_id: u8, n: int)
    requires
        0 <= n <= v.fabric.members.len(),
    ensures
        forall|k: int|
            0 <= k < peer_targets(v, r, zone_id, n).len() ==> (#[trigger] peer_targets(
                v,
                r,
                zone_id,
                n,
            )[k]).bits == quad(
                10,
                zone_id as int,
                r.seg as int,
                octet(peer_targets(v, r, zone_id, n)[k].bits, 3) as int,
            ),
        forall|i: int|
            0 <= i < n && is_peer(v, r.zone, #[trigger] v.fabric.members[i]) ==> exists|k: int|
                0 <= k < peer_targets(v, r, zone_id, n).len() && octet(
                    (#[trigger] peer_targets(v, r, zone_id, n)[k]).bits,
                    3,
                ) == v.fabric.members[i].node,
    decreases n,
{
    if n > 0 {
        lemma_targets(v, r, zone_id, n - 1);
        let b = peer_targets(v, r, zone_id, n - 1);
        let t = peer_targets(v, r, zone_id, n);
        let m = v.fabric.members[n - 1];
        assert forall|i: int|
            0 <= i < n && is_peer(v, r.zone, #[trigger] v.fabric.members[i]) implies exists|k: int|
            0 <= k < t.len() && octet((#[trigger] t[k]).bits, 3) == v.fabric.members[i].node by {
            if i < n - 1 {
                let k = choose|k: int|
                    0 <= k < b.len() && octet((#[trigger] b[k]).bits, 3)
                        == v.fabric.members[i].node;
                assert(t[k] == b[k]);
            } else {
                assert(octet(t[b.len() as int].bits, 3) == m.node);
            }
        }
        assert forall|k: int| 0 <= k < t.len() implies (#[trigger] t[k]).bits == quad(
            10,
            zone_id as int,
            r.seg as int,
            octet(t[k].bits, 3) as int,
        ) by {
            if k < b.len() {
                assert(t[k] == b[k]);
            }
        }
    }
}

proof fn lemma_target_place(targets: Seq<Ipv4Addr>, rid: u32, i: int)
    requires
        0 <= i <= targets.len(),
    ensures
        i <= target_place(targets, rid, i) <= targets.len(),
        target_place(targets, rid, i) < targets.len() ==> octet(
            targets[target_place(targets, rid, i)].bits,
            3,
        ) == octet(rid, 3),
        forall|k: int|
            i <= k < target_place(targets, rid, i) ==> octet((#[trigger] targets[k]).bits, 3)
                != octet(rid, 3),
    decreases targets.len() - i,
{
    if i < targets.len() && octet(targets[i].bits, 3) != octet(rid, 3) {
        lemma_target_place(targets, rid, i + 1);
    }
}

/// The address that is asked for a peer's Router ID is that peer's address on the segment.
pub proof fn lemma_a_peer_is_asked_at_its_address(
    v: MemberViewV,
    r: FallbackRowV,
    zone_id: u8,
    i: int,
)
    requires
        0 <= i < v.fabric.members.len(),
        is_peer(v, r.zone, v.fabric.members[i]),
    ensures
        ({
            let t = peer_targets(v, r, zone_id, v.fabric.members.len() as int);
            let node = v.fabric.members[i].node;
            let k = target_place(t, rid_of(zone_id, node), 0);
            k < t.len() && t[k].bits == quad(10, zone_id as int, r.seg as int, node as int)
        }),
{
    let n = v.fabric.members.len() as int;
    let t = peer_targets(v, r, zone_id, n);
    let m: MemberV = v.fabric.members[i];
    lemma_targets(v, r, zone_id, n);
    let rid = rid_of(zone_id, m.node);
    assert(octet(rid, 3) == m.node);
    lemma_target_place(t, rid, 0);
    let k = choose|k: int| 0 <= k < t.len() && octet((#[trigger] t[k]).bits, 3) == m.node;
    assert(target_place(t, rid, 0) <= k);
}

} // verus!
