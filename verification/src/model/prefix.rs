//! IPv4 networks: an address and a prefix length, with the host bits cleared.

use vstd::arithmetic::power2::{lemma2_to64, lemma_pow2_pos, lemma_pow2_unfold, pow2};
use vstd::prelude::*;

use crate::ipv4::{dotted, parse_dotted, Ipv4Addr};
use crate::text::{cat3, dec, dec_u64, parse_u64, parse_uint, split_at_first, split_once};

verus! {

#[derive(Debug, Clone, Copy, PartialEq, Eq, Structural)]
pub struct Ipv4Prefix {
    pub net: Ipv4Addr,
    pub len: u8,
}

/// How many addresses a prefix of this length spans.
pub open spec fn span(len: int) -> int {
    pow2((32 - len) as nat) as int
}

/// The first address of the block of this length that holds `a`.
pub open spec fn floor_of(a: int, len: int) -> int {
    a - a % span(len)
}

pub proof fn lemma_span(len: int)
    requires
        0 <= len <= 32,
    ensures
        1 <= span(len) <= 0x1_0000_0000,
        len == 0 ==> span(len) == 0x1_0000_0000,
        len == 32 ==> span(len) == 1,
        len < 32 ==> span(len) == 2 * span(len + 1),
    decreases 32 - len,
{
    lemma2_to64();
    lemma_pow2_pos((32 - len) as nat);
    if len < 32 {
        lemma_pow2_unfold((32 - len) as nat);
    }
    if len > 0 {
        vstd::arithmetic::power2::lemma_pow2_strictly_increases((32 - len) as nat, 32);
    }
}

/// A longer prefix spans a part of a shorter one that divides it evenly.
pub proof fn lemma_span_divides(short: int, long: int)
    requires
        0 <= short <= long <= 32,
    ensures
        span(short) % span(long) == 0,
        span(short) >= span(long),
    decreases long - short,
{
    lemma_span(short);
    lemma_span(long);
    if short == long {
        vstd::arithmetic::div_mod::lemma_mod_self_0(span(long));
    } else {
        lemma_span_divides(short + 1, long);
        let a = span(short + 1);
        let b = span(long);
        assert((2 * a) % b == 0) by (nonlinear_arith)
            requires
                a % b == 0,
                b > 0,
        {
            let k = a / b;
            assert(a == b * k);
            assert(2 * a == b * (2 * k));
            vstd::arithmetic::div_mod::lemma_mod_multiples_basic(2 * k, b);
        }
    }
}

pub open spec fn prefix_text(p: Ipv4Prefix) -> Seq<char> {
    dotted(p.net.bits) + "/"@ + dec(p.len as nat)
}

pub open spec fn prefix_refusal(s: Seq<char>) -> Seq<char> {
    "prefix '"@ + s + "' is not an IPv4 prefix with a length (example: 192.168.20.0/24)"@
}

/// The network that `s` spells: an address, a slash and a length, with no host bit set.
pub open spec fn parse_prefix(s: Seq<char>) -> Option<Ipv4Prefix> {
    match split_once(s, '/') {
        Some(p) => match (parse_dotted(p.0), parse_uint(p.1, 255)) {
            (Some(bits), Some(len)) => if len <= 32 && floor_of(bits as int, len as int) == bits {
                Some(Ipv4Prefix { net: Ipv4Addr { bits }, len: len as u8 })
            } else {
                None
            },
            _ => None,
        },
        None => None,
    }
}

impl Ipv4Prefix {
    /// The length is one that a prefix can have.
    pub open spec fn wf(self) -> bool {
        self.len <= 32
    }

    /// No host bit is set.
    pub open spec fn aligned(self) -> bool {
        self.len <= 32 && floor_of(self.net.bits as int, self.len as int) == self.net.bits
    }

    pub open spec fn holds(self, a: Ipv4Addr) -> bool {
        floor_of(a.bits as int, self.len as int) == self.net.bits
    }

    pub open spec fn meets(self, other: Ipv4Prefix) -> bool {
        let len = if self.len <= other.len {
            self.len as int
        } else {
            other.len as int
        };
        floor_of(self.net.bits as int, len) == floor_of(other.net.bits as int, len)
    }

    pub open spec fn last_bits(self) -> int {
        floor_of(self.net.bits as int, self.len as int) + span(self.len as int) - 1
    }

    fn span_of(len: u8) -> (r: u64)
        requires
            len <= 32,
        ensures
            r as int == span(len as int),
            1 <= r <= 0x1_0000_0000,
    {
        let mut n: u64 = 1;
        let mut i: u8 = 32;
        proof {
            lemma_span(32);
        }
        while i > len
            invariant
                len <= i <= 32,
                n as int == span(i as int),
                1 <= n <= 0x1_0000_0000,
            decreases i,
        {
            proof {
                lemma_span(i as int);
                lemma_span(i - 1);
            }
            n = n * 2;
            i = i - 1;
        }
        n
    }

    fn floor_to(a: u32, len: u8) -> (r: u32)
        requires
            len <= 32,
        ensures
            r as int == floor_of(a as int, len as int),
    {
        let n = Self::span_of(len);
        proof {
            vstd::arithmetic::div_mod::lemma_mod_decreases(a as nat, n as nat);
        }
        (a as u64 - a as u64 % n) as u32
    }

    pub fn parse(s: &str) -> (r: Result<Ipv4Prefix, String>)
        ensures
            match r {
                Ok(p) => parse_prefix(s@) == Some(p) && p.aligned(),
                Err(m) => parse_prefix(s@) is None && m@ == prefix_refusal(s@),
            },
    {
        match Self::read(s) {
            Some(p) => Ok(p),
            None => Err(
                cat3(
                    "prefix '",
                    s,
                    "' is not an IPv4 prefix with a length (example: 192.168.20.0/24)",
                ),
            ),
        }
    }

    fn read(s: &str) -> (r: Option<Ipv4Prefix>)
        ensures
            r == parse_prefix(s@),
            r matches Some(p) ==> p.aligned(),
    {
        match split_at_first(s, '/') {
            Some(p) => match Ipv4Addr::parse(p.0.as_str()) {
                Some(a) => match parse_u64(p.1.as_str(), 255) {
                    Some(n) => {
                        if n > 32 {
                            return None;
                        }
                        let len: u8 = n as u8;
                        if Self::floor_to(a.bits, len) != a.bits {
                            return None;
                        }
                        Some(Ipv4Prefix { net: a, len })
                    },
                    None => None,
                },
                None => None,
            },
            None => None,
        }
    }

    pub fn contains(&self, a: Ipv4Addr) -> (r: bool)
        requires
            self.wf(),
        ensures
            r == self.holds(a),
    {
        Self::floor_to(a.bits, self.len) == self.net.bits
    }

    /// Is no host bit set?
    pub fn is_aligned(&self) -> (r: bool)
        requires
            self.wf(),
        ensures
            r == self.aligned(),
    {
        Self::floor_to(self.net.bits, self.len) == self.net.bits
    }

    /// Does any address exist in both prefixes? Compared under the shorter of the two lengths.
    pub fn overlaps(&self, other: &Ipv4Prefix) -> (r: bool)
        requires
            self.wf(),
            other.wf(),
        ensures
            r == self.meets(*other),
    {
        let len: u8 = if self.len <= other.len {
            self.len
        } else {
            other.len
        };
        Self::floor_to(self.net.bits, len) == Self::floor_to(other.net.bits, len)
    }

    /// The network address plus one: the lowest usable host in the prefix.
    pub fn first_host(&self) -> (r: Ipv4Addr)
        ensures
            r.bits as int == if self.net.bits == u32::MAX {
                u32::MAX as int
            } else {
                self.net.bits + 1
            },
    {
        Ipv4Addr { bits: self.net.bits.saturating_add(1) }
    }

    /// The broadcast address: every host bit set.
    pub fn broadcast(&self) -> (r: Ipv4Addr)
        requires
            self.wf(),
        ensures
            r.bits as int == self.last_bits(),
    {
        let n = Self::span_of(self.len);
        let ghost a = self.net.bits as int;
        proof {
            lemma_top(a, self.len as int);
        }
        Ipv4Addr { bits: (self.net.bits as u64 - self.net.bits as u64 % n + (n - 1)) as u32 }
    }

    /// The dotted netmask.
    pub fn netmask(&self) -> (r: Ipv4Addr)
        requires
            self.wf(),
        ensures
            r.bits as int == 0x1_0000_0000 - span(self.len as int),
    {
        let n = Self::span_of(self.len);
        Ipv4Addr { bits: (0x1_0000_0000 - n) as u32 }
    }

    /// The prefix as `a.b.c.d/len`.
    pub fn to_string(&self) -> (r: String)
        ensures
            r@ == prefix_text(*self),
    {
        cat3(self.net.to_string().as_str(), "/", dec_u64(self.len as u64).as_str())
    }
}

/// A block that starts at an address ends at an address.
proof fn lemma_top(a: int, len: int)
    requires
        0 <= a < 0x1_0000_0000,
        0 <= len <= 32,
    ensures
        0 <= floor_of(a, len),
        floor_of(a, len) + span(len) - 1 < 0x1_0000_0000,
{
    lemma_span(len);
    lemma_span_divides(0, len);
    lemma_span(0);
    let n = span(len);
    let m = 0x1_0000_0000int;
    let q = a / n;
    assert(a == n * q + a % n) by {
        vstd::arithmetic::div_mod::lemma_fundamental_div_mod(a, n);
    }
    assert(m == n * (m / n)) by {
        vstd::arithmetic::div_mod::lemma_fundamental_div_mod(m, n);
    }
    let k = m / n;
    assert(q + 1 <= k) by (nonlinear_arith)
        requires
            n >= 1,
            n * q <= a,
            a < m,
            m == n * k,
    {
    }
    assert(n * q + n <= m) by (nonlinear_arith)
        requires
            q + 1 <= k,
            n >= 1,
            m == n * k,
    {
    }
}

/// A prefix holds exactly the addresses from its network address to its broadcast address.
pub proof fn lemma_holds_range(p: Ipv4Prefix, a: Ipv4Addr)
    requires
        p.aligned(),
    ensures
        p.holds(a) <==> p.net.bits <= a.bits <= p.last_bits(),
{
    let n = span(p.len as int);
    lemma_span(p.len as int);
    let x = a.bits as int;
    let y = p.net.bits as int;
    vstd::arithmetic::div_mod::lemma_fundamental_div_mod(x, n);
    vstd::arithmetic::div_mod::lemma_fundamental_div_mod(y, n);
    if y <= x <= y + n - 1 {
        let d = x / n;
        let e = y / n;
        assert(d == e) by (nonlinear_arith)
            requires
                n >= 1,
                x == n * d + x % n,
                0 <= x % n < n,
                y == n * e,
                y <= x <= y + n - 1,
        {
        }
    }
}

/// Two prefixes overlap exactly where an address exists in both.
pub proof fn lemma_overlaps_iff_common_address(p: Ipv4Prefix, q: Ipv4Prefix)
    requires
        p.aligned(),
        q.aligned(),
    ensures
        p.meets(q) <==> exists|a: Ipv4Addr| p.holds(a) && q.holds(a),
        p.meets(q) == q.meets(p),
{
    if p.len <= q.len {
        lemma_overlap_ordered(p, q);
    } else {
        lemma_overlap_ordered(q, p);
    }
}

proof fn lemma_overlap_ordered(p: Ipv4Prefix, q: Ipv4Prefix)
    requires
        p.aligned(),
        q.aligned(),
        p.len <= q.len,
    ensures
        p.meets(q) <==> exists|a: Ipv4Addr| p.holds(a) && q.holds(a),
{
    let m = span(p.len as int);
    let n = span(q.len as int);
    lemma_span(p.len as int);
    lemma_span(q.len as int);
    lemma_span_divides(p.len as int, q.len as int);
    if p.meets(q) {
        assert(p.holds(q.net) && q.holds(q.net));
    }
    if exists|a: Ipv4Addr| p.holds(a) && q.holds(a) {
        let a = choose|a: Ipv4Addr| p.holds(a) && q.holds(a);
        lemma_floor_floor(a.bits as int, p.len as int, q.len as int);
        assert(floor_of(q.net.bits as int, p.len as int) == floor_of(
            a.bits as int,
            p.len as int,
        ));
    }
}

/// Clearing fewer bits first changes nothing.
proof fn lemma_floor_floor(a: int, short: int, long: int)
    requires
        0 <= a,
        0 <= short <= long <= 32,
    ensures
        floor_of(floor_of(a, long), short) == floor_of(a, short),
{
    let m = span(short);
    let n = span(long);
    lemma_span(short);
    lemma_span(long);
    lemma_span_divides(short, long);
    vstd::arithmetic::div_mod::lemma_fundamental_div_mod(m, n);
    let k = m / n;
    assert(k >= 1) by (nonlinear_arith)
        requires
            m == n * k,
            m >= 1,
            n >= 1,
    {
    }
    // a mod m, split by n: a % m == n * ((a / n) % k) + a % n
    vstd::arithmetic::div_mod::lemma_mod_breakdown(a, n, k);
    let b = floor_of(a, long);
    assert(b >= 0) by {
        vstd::arithmetic::div_mod::lemma_fundamental_div_mod(a, n);
        assert(n * (a / n) >= 0) by (nonlinear_arith)
            requires
                n >= 1,
                a >= 0,
        {
            vstd::arithmetic::div_mod::lemma_div_pos_is_pos(a, n);
        }
    }
    vstd::arithmetic::div_mod::lemma_mod_breakdown(b, n, k);
    vstd::arithmetic::div_mod::lemma_fundamental_div_mod(a, n);
    assert(b == n * (a / n));
    assert(b % n == 0) by {
        vstd::arithmetic::div_mod::lemma_mod_multiples_basic(a / n, n);
        assert(n * (a / n) == (a / n) * n) by (nonlinear_arith);
    }
    assert(b / n == a / n) by {
        vstd::arithmetic::div_mod::lemma_div_multiples_vanish(a / n, n);
        assert(n * (a / n) == (a / n) * n) by (nonlinear_arith);
    }
    assert(n * k == m);
}

} // verus!
