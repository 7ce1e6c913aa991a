//! The prober's control loop over rtnetlink: what is asked of the kernel about a bond's port,
//! what it answers, and how the bond's active port is written. The messages themselves are the
//! `netlink-packet-core` and `netlink-packet-route` crates'.

use netlink_packet_core::{NetlinkHeader, NetlinkMessage, NetlinkPayload};
use netlink_packet_route::link::{
    InfoBond, InfoBondPort, InfoData, InfoKind, InfoPortData, LinkAttribute, LinkFlags, LinkInfo,
    LinkMessage, MiiStatus,
};
use netlink_packet_route::RouteNetlinkMessage;
use vstd::prelude::*;

pub mod readable;
pub mod telling;

use self::readable::{is_readable, readable};
use crate::error::Error;
use crate::text::{byte_len, cat2};

verus! {

/// The kernel's number for a device that is not there.
pub const ENODEV: i32 = 19;

/// A request.
pub const NLM_F_REQUEST: u16 = 1;

/// A request that is to be acknowledged.
pub const NLM_F_REQUEST_ACK: u16 = 5;

/// The bonding driver's own state of a port's link.
#[derive(Debug, Clone, Copy, PartialEq, Eq, Structural)]
pub enum BondLink {
    Up,
    GoingBack,
    GoingDown,
    Down,
    /// A state that the driver has no name for.
    Unknown(u8),
}

/// The state of a port's link, as the kernel's message says it.
#[derive(Debug, Clone, Copy, PartialEq, Eq, Structural)]
pub enum Mii {
    Up,
    GoingBack,
    GoingDown,
    Down,
    Other(u8),
}

pub open spec fn link_state(m: Mii) -> BondLink {
    match m {
        Mii::Up => BondLink::Up,
        Mii::GoingBack => BondLink::GoingBack,
        Mii::GoingDown => BondLink::GoingDown,
        Mii::Down => BondLink::Down,
        Mii::Other(n) => BondLink::Unknown(n),
    }
}

/// The state of the link; one without a name keeps its number.
pub fn bond_link(m: Mii) -> (r: BondLink)
    ensures
        r == link_state(m),
{
    match m {
        Mii::Up => BondLink::Up,
        Mii::GoingBack => BondLink::GoingBack,
        Mii::GoingDown => BondLink::GoingDown,
        Mii::Down => BondLink::Down,
        Mii::Other(n) => BondLink::Unknown(n),
    }
}

/// One bond port, as the kernel describes it.
#[derive(Debug, Clone, Copy, PartialEq, Eq, Structural)]
pub struct PortState {
    /// The driver's own state of the port's link, where the netdev is a bond's port.
    pub link: Option<BondLink>,
    /// The cable is in and the driver has the link.
    pub carrier: bool,
    /// The bond that the port belongs to, by its number.
    pub master: Option<u32>,
}

/// Does the kernel say that the netdev does not exist? It is the one error that is a fact about
/// the wire, and not a fault.
pub fn is_no_device(e: &Error) -> (r: bool)
    ensures
        r == (e matches Error::Io { code, .. } && code == Some(ENODEV)),
{
    match e {
        Error::Io { code, .. } => match code {
            Some(n) => *n == ENODEV,
            None => false,
        },
        _ => false,
    }
}

// ---- what a message is ----

/// One attribute of a link, as far as it is read.
pub enum AttrV {
    Controller(u32),
    Info(Seq<InfoV>),
    Other,
}

/// One piece of a link's information: the facts of a bond's port, where it holds these.
pub enum InfoV {
    BondPort(Seq<Option<Mii>>),
    Other,
}

/// A link, as far as it is read.
pub struct LinkV {
    pub index: u32,
    pub lower_up: bool,
    pub attrs: Seq<AttrV>,
}

/// An answer of the kernel.
pub enum ReplyV {
    /// The bytes are no message.
    Unreadable { why: Seq<char> },
    Link { seq: u32, link: LinkV },
    Ack { seq: u32 },
    Refused { seq: u32, code: i32 },
    /// A message of any other shape.
    Other { seq: u32 },
}

#[verifier::external_type_specification]
#[verifier::external_body]
pub struct ExLinkMessage(LinkMessage);

#[verifier::external_type_specification]
#[verifier::external_body]
pub struct ExLinkAttribute(LinkAttribute);

#[verifier::external_type_specification]
#[verifier::external_body]
pub struct ExLinkInfo(LinkInfo);

#[verifier::external_type_specification]
#[verifier::external_body]
pub struct ExInfoBondPort(InfoBondPort);

#[verifier::external_type_specification]
#[verifier::external_body]
pub struct ExRouteNetlinkMessage(RouteNetlinkMessage);

/// What a link message says.
pub uninterp spec fn link_of(l: LinkMessage) -> LinkV;

/// What an attribute says.
pub uninterp spec fn attr_of(a: LinkAttribute) -> AttrV;

/// What a piece of information says.
pub uninterp spec fn info_of(i: LinkInfo) -> InfoV;

/// The link state that a fact of a bond's port says, where it says one.
pub uninterp spec fn port_fact(p: InfoBondPort) -> Option<Mii>;

/// The order in which the bytes of a number stand in a message: the machine's own, which is one
/// of the two.
#[derive(Debug, Clone, Copy, PartialEq, Eq, Structural)]
pub enum ByteOrder {
    Little,
    Big,
}

/// The answer that some bytes are, on a machine of this byte order.
pub uninterp spec fn reply_of(bytes: Seq<u8>, order: ByteOrder) -> ReplyV;

pub open spec fn attrs_of(v: Seq<LinkAttribute>) -> Seq<AttrV> {
    Seq::new(v.len(), |i: int| attr_of(v[i]))
}

pub open spec fn infos_of(v: Seq<LinkInfo>) -> Seq<InfoV> {
    Seq::new(v.len(), |i: int| info_of(v[i]))
}

pub open spec fn facts_of(v: Seq<InfoBondPort>) -> Seq<Option<Mii>> {
    Seq::new(v.len(), |i: int| port_fact(v[i]))
}

/// An answer of the kernel, read.
#[derive(Debug)]
enum Reply {
    Unreadable { why: String },
    Link { seq: u32, link: LinkMessage },
    Ack { seq: u32 },
    Refused { seq: u32, code: i32 },
    Other { seq: u32 },
}

/// Is this what was read of an answer?
spec fn is_reply(r: Reply, v: ReplyV) -> bool {
    match r {
        Reply::Unreadable { why } => v == (ReplyV::Unreadable { why: why@ }),
        Reply::Link { seq, link } => v == (ReplyV::Link { seq, link: link_of(link) }),
        Reply::Ack { seq } => v == (ReplyV::Ack { seq }),
        Reply::Refused { seq, code } => v == (ReplyV::Refused { seq, code }),
        Reply::Other { seq } => v == (ReplyV::Other { seq }),
    }
}

/// `NetlinkMessage::<RouteNetlinkMessage>::deserialize`: what the bytes are is a function of
/// them and of the machine's byte order: a new link, an error message, which without a code is
/// an acknowledgement, some other message, or no message at all. Which of the two byte orders
/// the machine has is left unsaid. It panics where a source port of a bareudp link is not of two
/// bytes, and it calls itself once for each link within a link and for each level of hops within
/// hops: it is given no bytes with the first, and none in which the second goes deeper than
/// `MAX_NESTING`.
#[verifier::external_body]
fn read_reply(bytes: &[u8]) -> (r: Reply)
    requires
        readable(bytes@, ByteOrder::Little),
        readable(bytes@, ByteOrder::Big),
    ensures
        is_reply(r, reply_of(bytes@, ByteOrder::Little)) || is_reply(
            r,
            reply_of(bytes@, ByteOrder::Big),
        ),
{
    let m = match NetlinkMessage::<RouteNetlinkMessage>::deserialize(bytes) {
        Ok(m) => m,
        Err(e) => return Reply::Unreadable { why: e.to_string() },
    };
    let seq = m.header.sequence_number;
    match m.payload {
        NetlinkPayload::InnerMessage(RouteNetlinkMessage::NewLink(link)) => Reply::Link { seq, link },
        NetlinkPayload::Error(e) => match e.code {
            None => Reply::Ack { seq },
            Some(code) => Reply::Refused { seq, code: code.get() },
        },
        _ => Reply::Other { seq },
    }
}

/// The fields of a `LinkMessage`: its index, whether its flags hold `LinkFlags::LowerUp`, and
/// its attributes in order.
#[verifier::external_body]
fn open_link(l: LinkMessage) -> (r: (u32, bool, Vec<LinkAttribute>))
    ensures
        link_of(l) == (LinkV { index: r.0, lower_up: r.1, attrs: attrs_of(r.2@) }),
{
    (l.header.index, l.header.flags.contains(LinkFlags::LowerUp), l.attributes)
}

#[derive(Debug)]
enum Attr {
    Controller(u32),
    Info(Vec<LinkInfo>),
    Other,
}

/// The variant of a `LinkAttribute`: `Controller`, `LinkInfo`, or any other.
#[verifier::external_body]
fn open_attr(a: LinkAttribute) -> (r: Attr)
    ensures
        match r {
            Attr::Controller(ix) => attr_of(a) == AttrV::Controller(ix),
            Attr::Info(v) => attr_of(a) == AttrV::Info(infos_of(v@)),
            Attr::Other => attr_of(a) == AttrV::Other,
        },
{
    match a {
        LinkAttribute::Controller(ix) => Attr::Controller(ix),
        LinkAttribute::LinkInfo(v) => Attr::Info(v),
        _ => Attr::Other,
    }
}

/// The variant of a `LinkInfo`: the facts of a bond's port, or any other.
#[verifier::external_body]
fn open_info(i: LinkInfo) -> (r: Option<Vec<InfoBondPort>>)
    ensures
        match r {
            Some(v) => info_of(i) == InfoV::BondPort(facts_of(v@)),
            None => info_of(i) == InfoV::Other,
        },
{
    match i {
        LinkInfo::PortData(InfoPortData::BondPort(v)) => Some(v),
        _ => None,
    }
}

/// The variant of an `InfoBondPort`: its `MiiStatus`, or any other. A status without a name is
/// its number.
#[verifier::external_body]
fn open_fact(p: InfoBondPort) -> (r: Option<Mii>)
    ensures
        r == port_fact(p),
{
    match p {
        InfoBondPort::MiiStatus(MiiStatus::Up) => Some(Mii::Up),
        InfoBondPort::MiiStatus(MiiStatus::GoingBack) => Some(Mii::GoingBack),
        InfoBondPort::MiiStatus(MiiStatus::GoingDown) => Some(Mii::GoingDown),
        InfoBondPort::MiiStatus(MiiStatus::Down) => Some(Mii::Down),
        InfoBondPort::MiiStatus(other) => Some(Mii::Other(u8::from(other))),
        _ => None,
    }
}

// ---- a port's state ----

/// The last link state among the first `n` facts, else `before`.
pub open spec fn last_fact(v: Seq<Option<Mii>>, before: Option<BondLink>, n: int) -> Option<BondLink>
    decreases n,
{
    if n <= 0 {
        before
    } else {
        match v[n - 1] {
            Some(m) => Some(link_state(m)),
            None => last_fact(v, before, n - 1),
        }
    }
}

/// The last link state among the first `n` pieces of information, else `before`.
pub open spec fn last_info(v: Seq<InfoV>, before: Option<BondLink>, n: int) -> Option<BondLink>
    decreases n,
{
    if n <= 0 {
        before
    } else {
        let b = last_info(v, before, n - 1);
        match v[n - 1] {
            InfoV::BondPort(f) => last_fact(f, b, f.len() as int),
            InfoV::Other => b,
        }
    }
}

/// What the first `n` attributes say of a port.
pub open spec fn state_after(v: Seq<AttrV>, start: PortState, n: int) -> PortState
    decreases n,
{
    if n <= 0 {
        start
    } else {
        let s = state_after(v, start, n - 1);
        match v[n - 1] {
            AttrV::Controller(ix) => PortState { master: Some(ix), ..s },
            AttrV::Info(i) => PortState { link: last_info(i, s.link, i.len() as int), ..s },
            AttrV::Other => s,
        }
    }
}

/// What a link says of a port. A netdev that is no bond's port has no link state.
pub open spec fn port_state_of(l: LinkV) -> PortState {
    state_after(
        l.attrs,
        PortState { link: None, carrier: l.lower_up, master: None },
        l.attrs.len() as int,
    )
}

fn take_facts(v: Vec<InfoBondPort>, before: Option<BondLink>) -> (r: Option<BondLink>)
    ensures
        r == last_fact(facts_of(v@), before, v@.len() as int),
{
    let ghost all = facts_of(v@);
    let mut link = before;
    let mut v = v;
    let mut found = false;
    while v.len() > 0 && !found
        invariant
            v@.len() <= all.len(),
            forall|j: int| 0 <= j < v@.len() ==> port_fact(#[trigger] v@[j]) == all[j],
            !found ==> link == before && last_fact(all, before, all.len() as int) == last_fact(
                all,
                before,
                v@.len() as int,
            ),
            found ==> link == last_fact(all, before, all.len() as int),
        decreases v@.len(),
    {
        let ghost n = v@.len();
        match v.pop() {
            Some(p) => {
                if let Some(m) = open_fact(p) {
                    link = Some(bond_link(m));
                    found = true;
                }
            },
            None => {},
        }
    }
    link
}

/// The same values, the last of them first, so that the first can be taken out with `pop`.
fn backwards<T>(v: Vec<T>) -> (r: Vec<T>)
    ensures
        r@ == v@.reverse(),
{
    let ghost all = v@;
    let mut v = v;
    let mut r: Vec<T> = Vec::new();
    while v.len() > 0
        invariant
            v@.len() + r@.len() == all.len(),
            v@ == all.take(v@.len() as int),
            forall|j: int| 0 <= j < r@.len() ==> #[trigger] r@[j] == all[all.len() - 1 - j],
        decreases v@.len(),
    {
        if let Some(x) = v.pop() {
            r.push(x);
        }
    }
    assert(r@ =~= all.reverse());
    r
}

fn take_infos(v: Vec<LinkInfo>, before: Option<BondLink>) -> (r: Option<BondLink>)
    ensures
        r == last_info(infos_of(v@), before, v@.len() as int),
{
    let ghost all = v@;
    let mut link = before;
    let mut rest = backwards(v);
    while rest.len() > 0
        invariant
            rest@.len() <= all.len(),
            rest@ == all.reverse().take(rest@.len() as int),
            link == last_info(infos_of(all), before, all.len() - rest@.len()),
        decreases rest@.len(),
    {
        if let Some(i) = rest.pop() {
            assert(i == all[all.len() - 1 - rest@.len()]);
            if let Some(f) = open_info(i) {
                link = take_facts(f, link);
            }
        }
    }
    link
}

fn take_attrs(v: Vec<LinkAttribute>, start: PortState) -> (r: PortState)
    ensures
        r == state_after(attrs_of(v@), start, v@.len() as int),
{
    let ghost all = v@;
    let mut s = start;
    let mut rest = backwards(v);
    while rest.len() > 0
        invariant
            rest@.len() <= all.len(),
            rest@ == all.reverse().take(rest@.len() as int),
            s == state_after(attrs_of(all), start, all.len() - rest@.len()),
        decreases rest@.len(),
    {
        if let Some(a) = rest.pop() {
            assert(a == all[all.len() - 1 - rest@.len()]);
            match open_attr(a) {
                Attr::Controller(ix) => {
                    s.master = Some(ix);
                },
                Attr::Info(i) => {
                    s.link = take_infos(i, s.link);
                },
                Attr::Other => {},
            }
        }
    }
    s
}

// ---- a call ----

/// The sequence number behind another: never zero.
pub open spec fn seq_after(seq: u32) -> u32 {
    if seq == u32::MAX {
        1
    } else {
        (seq + 1) as u32
    }
}

pub fn next_seq(seq: u32) -> (r: u32)
    ensures
        r == seq_after(seq),
{
    if seq == u32::MAX {
        1
    } else {
        seq + 1
    }
}

/// What one datagram is to a call.
#[derive(Debug, PartialEq, Eq)]
pub enum Answer {
    /// It answers another call: read on.
    NotOurs,
    /// A link: its number, and what it says of a port.
    Link { index: u32, state: PortState },
    Done,
    /// The kernel refuses, with this error number.
    Refused { errno: u32 },
    /// It is no answer to what was asked.
    Fault { why: String },
}

pub enum AnswerV {
    NotOurs,
    Link { index: u32, state: PortState },
    Done,
    Refused { errno: int },
    Fault { why: Seq<char> },
}

impl View for Answer {
    type V = AnswerV;

    open spec fn view(&self) -> AnswerV {
        match self {
            Answer::NotOurs => AnswerV::NotOurs,
            Answer::Link { index, state } => AnswerV::Link { index: *index, state: *state },
            Answer::Done => AnswerV::Done,
            Answer::Refused { errno } => AnswerV::Refused { errno: *errno as int },
            Answer::Fault { why } => AnswerV::Fault { why: why@ },
        }
    }
}

/// What an answer is to the call of this sequence number. One that carries another number was
/// left over from an earlier call, and is not taken for ours.
pub open spec fn answer_to(seq: u32, r: ReplyV) -> AnswerV {
    match r {
        ReplyV::Unreadable { why } => AnswerV::Fault { why },
        ReplyV::Link { seq: s, link } => if s == seq {
            AnswerV::Link { index: link.index, state: port_state_of(link) }
        } else {
            AnswerV::NotOurs
        },
        ReplyV::Ack { seq: s } => if s == seq {
            AnswerV::Done
        } else {
            AnswerV::NotOurs
        },
        ReplyV::Refused { seq: s, code } => if s == seq {
            AnswerV::Refused {
                errno: if code < 0 {
                    -(code as int)
                } else {
                    code as int
                },
            }
        } else {
            AnswerV::NotOurs
        },
        ReplyV::Other { seq: s } => if s == seq {
            AnswerV::Fault { why: "unexpected netlink reply"@ }
        } else {
            AnswerV::NotOurs
        },
    }
}

/// Read one datagram as an answer to the call of this sequence number. One that the parser
/// cannot be given is no answer.
pub fn take_answer(seq: u32, bytes: &[u8]) -> (r: Answer)
    ensures
        if readable(bytes@, ByteOrder::Little) && readable(bytes@, ByteOrder::Big) {
            r@ == answer_to(seq, reply_of(bytes@, ByteOrder::Little)) || r@ == answer_to(
                seq,
                reply_of(bytes@, ByteOrder::Big),
            )
        } else {
            r@ == (AnswerV::Fault { why: "malformed netlink reply"@ })
        },
{
    if !is_readable(bytes, ByteOrder::Little) || !is_readable(bytes, ByteOrder::Big) {
        return Answer::Fault { why: String::from_str("malformed netlink reply") };
    }
    match read_reply(bytes) {
        Reply::Unreadable { why } => Answer::Fault { why },
        Reply::Link { seq: s, link } => {
            if s != seq {
                return Answer::NotOurs;
            }
            let (index, lower_up, attrs) = open_link(link);
            let state = take_attrs(
                attrs,
                PortState { link: None, carrier: lower_up, master: None },
            );
            Answer::Link { index, state }
        },
        Reply::Ack { seq: s } => if s == seq {
            Answer::Done
        } else {
            Answer::NotOurs
        },
        Reply::Refused { seq: s, code } => {
            if s != seq {
                return Answer::NotOurs;
            }
            let wide: i64 = code as i64;
            let errno: u32 = if wide < 0 {
                (-wide) as u32
            } else {
                wide as u32
            };
            Answer::Refused { errno }
        },
        Reply::Other { seq: s } => if s == seq {
            Answer::Fault { why: String::from_str("unexpected netlink reply") }
        } else {
            Answer::NotOurs
        },
    }
}

/// Is this answer the kernel's own refusal?
pub fn is_refusal(a: &Answer) -> (r: bool)
    ensures
        r == (a@ is Refused),
{
    match a {
        Answer::Refused { .. } => true,
        _ => false,
    }
}

/// Is the socket dropped after a call that failed, so that the next call opens another? Only the
/// kernel's own refusal leaves it usable: an answer that did not come in time, or one that cannot
/// be read, does not.
pub fn drops_socket(refused: bool) -> (r: bool)
    ensures
        r == !refused,
{
    !refused
}

/// The error for a link that was asked for and only acknowledged.
pub fn no_link(name: &str) -> (r: Error)
    ensures
        r matches Error::Io { code, message } && code is None && message@ == name@
            + ": no link in reply"@,
{
    Error::Io { code: None, message: cat2(name, ": no link in reply") }
}

// ---- the requests ----

/// The longest name that an attribute of a message can hold, in bytes: with its header and the
/// zero behind it, its length is a number of two bytes.
pub const IFNAME_BYTES: usize = 65_530;

/// What is asked of the kernel.
pub enum MessageV {
    /// A get-link message whose one attribute is the netdev's name.
    GetLink { name: Seq<char> },
    /// A new-link message on a bond by its number, which carries the bond kind and, as its data,
    /// the number of the port to make active, and nothing else.
    NewLink { bond: u32, port: u32 },
    Other,
}

/// What a message asks.
pub uninterp spec fn message_of(m: RouteNetlinkMessage) -> MessageV;

/// The bytes of a message with these flags and this sequence number, on a machine of this byte
/// order.
pub uninterp spec fn bytes_of(m: MessageV, flags: u16, seq: u32, order: ByteOrder) -> Seq<u8>;

/// Are these the bytes of a message, in one of the two byte orders?
pub open spec fn is_bytes_of(b: Seq<u8>, m: MessageV, flags: u16, seq: u32) -> bool {
    b == bytes_of(m, flags, seq, ByteOrder::Little) || b == bytes_of(m, flags, seq, ByteOrder::Big)
}

/// `RouteNetlinkMessage::GetLink` with `LinkAttribute::IfName`, on `LinkMessage::default()`.
#[verifier::external_body]
fn get_link_msg(name: &str) -> (r: RouteNetlinkMessage)
    ensures
        message_of(r) == (MessageV::GetLink { name: name@ }),
{
    let mut lm = LinkMessage::default();
    lm.attributes.push(LinkAttribute::IfName(name.to_string()));
    RouteNetlinkMessage::GetLink(lm)
}

/// `RouteNetlinkMessage::NewLink` with `LinkInfo::Kind(InfoKind::Bond)` and the
/// `InfoBond::ActivePort` data, on `LinkMessage::default()`. A set-link message with the same
/// contents is acknowledged by the kernel and does nothing.
#[verifier::external_body]
fn set_active_msg(bond_ifindex: u32, port_ifindex: u32) -> (r: RouteNetlinkMessage)
    ensures
        message_of(r) == (MessageV::NewLink { bond: bond_ifindex, port: port_ifindex }),
{
    let mut lm = LinkMessage::default();
    lm.header.index = bond_ifindex;
    lm.attributes.push(
        LinkAttribute::LinkInfo(vec![
            LinkInfo::Kind(InfoKind::Bond),
            LinkInfo::Data(InfoData::Bond(vec![InfoBond::ActivePort(port_ifindex)])),
        ]),
    );
    RouteNetlinkMessage::NewLink(lm)
}

/// `NetlinkMessage::serialize` into a buffer of `NetlinkMessage::buffer_len` bytes, behind a
/// `NetlinkHeader` with these flags and this sequence number. The bytes of a message of one of
/// the two known shapes are a function of what it asks, the flags, the number and the machine's
/// byte order. Which of the two byte orders the machine has is left unsaid.
#[verifier::external_body]
fn message_bytes(m: RouteNetlinkMessage, flags: u16, seq: u32) -> (r: Vec<u8>)
    requires
        message_of(m) matches MessageV::GetLink { name } ==> byte_len(name) <= IFNAME_BYTES,
        message_of(m) !is Other,
    ensures
        r@ == bytes_of(message_of(m), flags, seq, ByteOrder::Little) || r@ == bytes_of(
            message_of(m),
            flags,
            seq,
            ByteOrder::Big,
        ),
{
    let mut hdr = NetlinkHeader::default();
    hdr.flags = flags;
    hdr.sequence_number = seq;
    let mut req = NetlinkMessage::new(hdr, NetlinkPayload::from(m));
    req.finalize();
    let mut buf = vec![0u8; req.buffer_len()];
    req.serialize(&mut buf);
    buf
}

/// The request for a link by its name. It asks for no acknowledgement: the kernel would send one
/// beside its answer, for the next call to take for its own.
pub fn get_link_request(name: &str, seq: u32) -> (r: Vec<u8>)
    requires
        byte_len(name@) <= IFNAME_BYTES,
    ensures
        is_bytes_of(r@, MessageV::GetLink { name: name@ }, NLM_F_REQUEST, seq),
{
    message_bytes(get_link_msg(name), NLM_F_REQUEST, seq)
}

/// The request to make a port the active one of its bond, both by their numbers.
pub fn set_active_request(bond_ifindex: u32, port_ifindex: u32, seq: u32) -> (r: Vec<u8>)
    ensures
        is_bytes_of(
            r@,
            MessageV::NewLink { bond: bond_ifindex, port: port_ifindex },
            NLM_F_REQUEST_ACK,
            seq,
        ),
{
    message_bytes(set_active_msg(bond_ifindex, port_ifindex), NLM_F_REQUEST_ACK, seq)
}

// ---- laws ----

/// An answer that was left over from an earlier call is never taken for the answer to this one.
pub proof fn lemma_a_leftover_is_not_taken(seq: u32, r: ReplyV)
    requires
        match r {
            ReplyV::Unreadable { .. } => false,
            ReplyV::Link { seq: s, .. } => s != seq,
            ReplyV::Ack { seq: s } => s != seq,
            ReplyV::Refused { seq: s, .. } => s != seq,
            ReplyV::Other { seq: s } => s != seq,
        },
    ensures
        answer_to(seq, r) == AnswerV::NotOurs,
{
}

/// Two calls in a row never carry the same number, and none carries zero.
pub proof fn lemma_numbers_move(seq: u32)
    ensures
        seq_after(seq) != 0,
        seq_after(seq_after(seq)) != seq_after(seq),
{
}

/// A netdev without port data has no link state, whatever else is said of it.
pub proof fn lemma_no_port_data_no_link_state(v: Seq<AttrV>, start: PortState, n: int)
    requires
        0 <= n <= v.len(),
        forall|i: int| 0 <= i < n ==> !((#[trigger] v[i]) is Info),
    ensures
        state_after(v, start, n).link == start.link,
        state_after(v, start, n).carrier == start.carrier,
    decreases n,
{
    if n > 0 {
        lemma_no_port_data_no_link_state(v, start, n - 1);
    }
}

} // verus!
