//! What an answer of the kernel tells of a port.

use vstd::prelude::*;

use crate::netlink::readable::{
    attr_end, attr_next, has_attr, has_hop, link_fits, num16, num32, ports_fit, readable,
    route_fits,
};
use crate::netlink::{
    answer_to, last_fact, last_info, link_state, port_state_of, seq_after, state_after, AnswerV,
    AttrV, BondLink, ByteOrder, InfoV, LinkV, Mii, PortState, ReplyV,
};

verus! {

/// Does the attribute say nothing of the link state of the port?
pub open spec fn silent(a: AttrV) -> bool {
    a matches AttrV::Info(v) ==> forall|i: int| 0 <= i < v.len() ==> info_silent(#[trigger] v[i])
}

pub open spec fn info_silent(i: InfoV) -> bool {
    i matches InfoV::BondPort(f) ==> forall|q: int| 0 <= q < f.len() ==> (#[trigger] f[q]) is None
}

/// The words for the states of a bond's port.
pub proof fn lemma_the_states_of_a_port(n: u8)
    ensures
        link_state(Mii::Up) == BondLink::Up,
        link_state(Mii::GoingBack) == BondLink::GoingBack,
        link_state(Mii::GoingDown) == BondLink::GoingDown,
        link_state(Mii::Down) == BondLink::Down,
        link_state(Mii::Other(n)) == BondLink::Unknown(n),
{
}

proof fn lemma_last_fact(v: Seq<Option<Mii>>, before: Option<BondLink>, n: int, q: int)
    requires
        0 <= q < n <= v.len(),
        v[q] is Some,
        forall|j: int| q < j < n ==> (#[trigger] v[j]) is None,
    ensures
        last_fact(v, before, n) == Some(link_state(v[q]->0)),
    decreases n,
{
    if q < n - 1 {
        assert(v[n - 1] is None);
        lemma_last_fact(v, before, n - 1, q);
    }
}

proof fn lemma_no_fact(v: Seq<Option<Mii>>, before: Option<BondLink>, n: int)
    requires
        0 <= n <= v.len(),
        forall|j: int| 0 <= j < n ==> (#[trigger] v[j]) is None,
    ensures
        last_fact(v, before, n) == before,
    decreases n,
{
    if n > 0 {
        assert(v[n - 1] is None);
        lemma_no_fact(v, before, n - 1);
    }
}

proof fn lemma_no_info(v: Seq<InfoV>, before: Option<BondLink>, n: int)
    requires
        0 <= n <= v.len(),
        forall|j: int| 0 <= j < n ==> info_silent(#[trigger] v[j]),
    ensures
        last_info(v, before, n) == before,
    decreases n,
{
    if n > 0 {
        lemma_no_info(v, before, n - 1);
        assert(info_silent(v[n - 1]));
        match v[n - 1] {
            InfoV::BondPort(f) => lemma_no_fact(f, before, f.len() as int),
            InfoV::Other => {},
        }
    }
}

proof fn lemma_last_info(v: Seq<InfoV>, before: Option<BondLink>, n: int, p: int, q: int)
    requires
        0 <= p < n <= v.len(),
        v[p] is BondPort,
        0 <= q < v[p]->BondPort_0.len(),
        v[p]->BondPort_0[q] is Some,
        forall|j: int| q < j < v[p]->BondPort_0.len() ==> (#[trigger] v[p]->BondPort_0[j]) is None,
        forall|j: int| p < j < n ==> info_silent(#[trigger] v[j]),
    ensures
        last_info(v, before, n) == Some(link_state(v[p]->BondPort_0[q]->0)),
    decreases n,
{
    if p == n - 1 {
        let f = v[p]->BondPort_0;
        lemma_last_fact(f, last_info(v, before, n - 1), f.len() as int, q);
    } else {
        lemma_last_info(v, before, n - 1, p, q);
        assert(info_silent(v[n - 1]));
        match v[n - 1] {
            InfoV::BondPort(f) => lemma_no_fact(f, last_info(v, before, n - 1), f.len() as int),
            InfoV::Other => {},
        }
    }
}

proof fn lemma_silent_after(v: Seq<AttrV>, start: PortState, n: int, k: int)
    requires
        0 <= k <= n <= v.len(),
        forall|j: int| k <= j < n ==> silent(#[trigger] v[j]),
    ensures
        state_after(v, start, n).link == state_after(v, start, k).link,
    decreases n,
{
    if k < n {
        lemma_silent_after(v, start, n - 1, k);
        assert(silent(v[n - 1]));
        match v[n - 1] {
            AttrV::Info(i) => lemma_no_info(i, state_after(v, start, n - 1).link, i.len() as int),
            _ => {},
        }
    }
}

/// The link state of a port is the last one that its attributes say.
pub proof fn lemma_the_last_state_counts(l: LinkV, k: int, p: int, q: int)
    requires
        0 <= k < l.attrs.len(),
        l.attrs[k] is Info,
        0 <= p < l.attrs[k]->Info_0.len(),
        l.attrs[k]->Info_0[p] is BondPort,
        0 <= q < l.attrs[k]->Info_0[p]->BondPort_0.len(),
        l.attrs[k]->Info_0[p]->BondPort_0[q] is Some,
        forall|j: int|
            q < j < l.attrs[k]->Info_0[p]->BondPort_0.len() ==> (
            #[trigger] l.attrs[k]->Info_0[p]->BondPort_0[j]) is None,
        forall|j: int|
            p < j < l.attrs[k]->Info_0.len() ==> info_silent(#[trigger] l.attrs[k]->Info_0[j]),
        forall|j: int| k < j < l.attrs.len() ==> silent(#[trigger] l.attrs[j]),
    ensures
        port_state_of(l).link == Some(link_state(l.attrs[k]->Info_0[p]->BondPort_0[q]->0)),
{
    let start = PortState { link: None, carrier: l.lower_up, master: None };
    let v = l.attrs[k]->Info_0;
    lemma_silent_after(l.attrs, start, l.attrs.len() as int, k + 1);
    lemma_last_info(v, state_after(l.attrs, start, k).link, v.len() as int, p, q);
}

/// A netdev of which nothing says a link state has none.
pub proof fn lemma_no_state_is_no_state(l: LinkV)
    requires
        forall|j: int| 0 <= j < l.attrs.len() ==> silent(#[trigger] l.attrs[j]),
    ensures
        port_state_of(l).link is None,
{
    let start = PortState { link: None, carrier: l.lower_up, master: None };
    lemma_silent_after(l.attrs, start, l.attrs.len() as int, 0);
}

proof fn lemma_master(v: Seq<AttrV>, start: PortState, n: int, k: int)
    requires
        -1 <= k < n <= v.len(),
        k >= 0 ==> v[k] is Controller,
        forall|j: int| k < j < n ==> !((#[trigger] v[j]) is Controller),
    ensures
        state_after(v, start, n).master == if k >= 0 {
            Some(v[k]->Controller_0)
        } else {
            start.master
        },
        state_after(v, start, n).carrier == start.carrier,
    decreases n,
{
    if n > 0 {
        assert(state_after(v, start, n).carrier == state_after(v, start, n - 1).carrier);
        if k < n - 1 {
            assert(!(v[n - 1] is Controller));
            lemma_master(v, start, n - 1, k);
        } else {
            lemma_carrier(v, start, n - 1);
        }
    }
}

proof fn lemma_carrier(v: Seq<AttrV>, start: PortState, n: int)
    requires
        0 <= n <= v.len(),
    ensures
        state_after(v, start, n).carrier == start.carrier,
    decreases n,
{
    if n > 0 {
        lemma_carrier(v, start, n - 1);
    }
}

/// A port is in the bond that its last controller names, and in none where there is no
/// controller; its carrier is the netdev's own.
pub proof fn lemma_the_bond_of_a_port(l: LinkV, k: int)
    requires
        -1 <= k < l.attrs.len(),
        k >= 0 ==> l.attrs[k] is Controller,
        forall|j: int| k < j < l.attrs.len() ==> !((#[trigger] l.attrs[j]) is Controller),
    ensures
        k >= 0 ==> port_state_of(l).master == Some(l.attrs[k]->Controller_0),
        k == -1 ==> port_state_of(l).master is None,
        port_state_of(l).carrier == l.lower_up,
{
    let start = PortState { link: None, carrier: l.lower_up, master: None };
    lemma_carrier(l.attrs, start, l.attrs.len() as int);
    if l.attrs.len() > 0 {
        lemma_master(l.attrs, start, l.attrs.len() as int, k);
    }
}

/// An answer is ours where it carries our number, and is what it says: a link, a success, a
/// refusal with its number without a sign, or something that was not asked for.
pub proof fn lemma_what_an_answer_is(seq: u32, s: u32, link: LinkV, code: i32, why: Seq<char>)
    ensures
        s == seq ==> answer_to(seq, ReplyV::Link { seq: s, link }) == (AnswerV::Link {
            index: link.index,
            state: port_state_of(link),
        }),
        s == seq ==> answer_to(seq, ReplyV::Ack { seq: s }) is Done,
        s == seq && code < 0 ==> answer_to(seq, ReplyV::Refused { seq: s, code }) == (
        AnswerV::Refused { errno: -code }),
        s == seq && code >= 0 ==> answer_to(seq, ReplyV::Refused { seq: s, code }) == (
        AnswerV::Refused { errno: code as int }),
        s == seq ==> answer_to(seq, ReplyV::Other { seq: s }) == (AnswerV::Fault {
            why: "unexpected netlink reply"@,
        }),
        s != seq ==> answer_to(seq, ReplyV::Link { seq: s, link }) is NotOurs,
        s != seq ==> answer_to(seq, ReplyV::Ack { seq: s }) is NotOurs,
        s != seq ==> answer_to(seq, ReplyV::Refused { seq: s, code }) is NotOurs,
        s != seq ==> answer_to(seq, ReplyV::Other { seq: s }) is NotOurs,
        answer_to(seq, ReplyV::Unreadable { why }) == (AnswerV::Fault { why }),
        seq_after(seq) != 0,
        seq_after(seq) != seq,
        seq < u32::MAX ==> seq_after(seq) == seq + 1,
{
}

// ---- what can be looked into ----

/// Numbers in a message are in the machine's byte order; an attribute ends where its length says,
/// and the next one begins at the next multiple of four bytes, as far as there is room.
pub proof fn lemma_where_attributes_stand(b: Seq<u8>, at: int, end: int, o: ByteOrder)
    ensures
        num16(b, at, ByteOrder::Little) == b[at] + b[at + 1] * 256,
        num16(b, at, ByteOrder::Big) == b[at] * 256 + b[at + 1],
        num32(b, at, ByteOrder::Little) == b[at] + b[at + 1] * 256 + b[at + 2] * 65536 + b[at + 3]
            * 16777216,
        num32(b, at, ByteOrder::Big) == b[at] * 16777216 + b[at + 1] * 65536 + b[at + 2] * 256 + b[at
            + 3],
        attr_end(b, at, o) - at == num16(b, at, o),
        attr_next(b, at, end, o) <= end,
        attr_next(b, at, end, o) < end ==> (attr_next(b, at, end, o) - at) % 4 == 0 && attr_end(
            b,
            at,
            o,
        ) <= attr_next(b, at, end, o) < attr_end(b, at, o) + 4,
        has_attr(b, at, end, o) <==> end - at >= 4 && 4 <= num16(b, at, o) && attr_end(b, at, o)
            <= end,
        has_hop(b, at, end, o) <==> end - at >= 8 && 8 <= num16(b, at, o) && attr_end(b, at, o)
            <= end,
{
}

/// What is not a whole message of a link or of a route can be looked into whatever it holds: the
/// kinds of links are 16 to 19, those of routes 24 to 26.
pub proof fn lemma_which_messages_can_be_looked_into(b: Seq<u8>, o: ByteOrder)
    ensures
        b.len() < 16 ==> readable(b, o),
        b.len() >= 16 && !(16 <= num32(b, 0, o) <= b.len()) ==> readable(b, o),
        !(16 <= num16(b, 4, o) <= 19) && !(24 <= num16(b, 4, o) <= 26) ==> readable(b, o),
        b.len() >= 16 && 16 <= num32(b, 0, o) <= b.len() && 16 <= num16(b, 4, o) <= 19 ==> (readable(
            b,
            o,
        ) <==> link_fits(b, 16, num32(b, 0, o), o, 32)),
        b.len() >= 16 && 16 <= num32(b, 0, o) <= b.len() && 24 <= num16(b, 4, o) <= 26 ==> (readable(
            b,
            o,
        ) <==> route_fits(b, 16, num32(b, 0, o), o)),
{
}

/// A source port that is not of two bytes is one that cannot be looked into, wherever it stands in
/// the data of a bareudp link.
pub proof fn lemma_a_port_of_another_length(b: Seq<u8>, at: int, end: int, o: ByteOrder)
    requires
        has_attr(b, at, end, o),
    ensures
        num16(b, at + 2, o) % 0x4000 == 3 && attr_end(b, at, o) - at != 6 ==> !ports_fit(
            b,
            at,
            end,
            o,
        ),
        !ports_fit(b, attr_next(b, at, end, o), end, o) ==> !ports_fit(b, at, end, o),
        (num16(b, at + 2, o) % 0x4000 != 3 || attr_end(b, at, o) - at == 6) && ports_fit(
            b,
            attr_next(b, at, end, o),
            end,
            o,
        ) ==> ports_fit(b, at, end, o),
{
}

} // verus!
