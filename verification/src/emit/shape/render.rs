//! A derived tree as text: for human eyes, for `tc`, and for comparing.

use vstd::prelude::*;

use crate::derive::MemberView;
use crate::emit::shape::{Band, BandClass, BandV, Derivation, DerivationV, LinkSource};
use crate::model::{dscp_text, tos_text};
use crate::text::lines::lemma_join_split;
use crate::text::{
    cat2, cat3, cat4, cat5, cat7, dec, dec_i64, dec_int, dec_u64, join, join_texts, split, split_on,
    str_eq, texts,
};

verus! {

/// The quantum of a class: the default exceeds the scheduler's bound at a high rate.
pub open spec fn quantum_of(rate: nat) -> nat {
    if rate >= 1000 {
        60000
    } else {
        1514
    }
}

fn quantum_for(rate: u64) -> (r: u64)
    ensures
        r as nat == quantum_of(rate as nat),
{
    if rate >= 1000 {
        60000
    } else {
        1514
    }
}

/// A rate as `tc` takes it: a rate of nothing is refused, and this is the smallest there is.
pub open spec fn rate_word(rate: nat) -> Seq<char> {
    if rate >= 1 {
        dec(rate) + "mbit"@
    } else {
        "1kbit"@
    }
}

fn rate_str(rate: u64) -> (r: String)
    ensures
        r@ == rate_word(rate as nat),
{
    if rate >= 1 {
        cat2(dec_u64(rate).as_str(), "mbit")
    } else {
        String::from_str("1kbit")
    }
}

/// A rate as `tc` prints it: whole thousands are folded, and nothing else is.
pub open spec fn token_of(eff: nat) -> Seq<char> {
    if eff >= 1000 && eff % 1000 == 0 {
        dec(eff / 1000) + "Gbit"@
    } else if eff >= 1 {
        dec(eff) + "Mbit"@
    } else {
        "1Kbit"@
    }
}

/// How a band's effective rate is spelled in the applied record, and matched in what the kernel
/// prints.
pub fn rate_token(eff: u64) -> (r: String)
    ensures
        r@ == token_of(eff as nat),
{
    if eff >= 1000 && eff % 1000 == 0 {
        cat2(dec_u64(eff / 1000).as_str(), "Gbit")
    } else if eff >= 1 {
        cat2(dec_u64(eff).as_str(), "Mbit")
    } else {
        String::from_str("1Kbit")
    }
}

// ---- the human form ----

pub open spec fn link_line(d: DerivationV, member: Seq<char>) -> Seq<char> {
    let head = "gen-shape derive: dev "@ + d.dev + ", link L = "@ + dec(d.l) + " Mb/s = 0.97 × "@
        + dec(d.l_raw);
    match d.source {
        LinkSource::Measured => head + " (measured)\n"@,
        LinkSource::Declared => head + " (declared for "@ + member + ":"@ + d.dev
            + ", UNMEASURED)\n"@,
    }
}

/// How the band's traffic is told apart.
pub open spec fn band_tag(b: BandV) -> Seq<char> {
    match b.class {
        BandClass::Dscp(d) => if b.is_default {
            "default/bulk, no filter (htb default)"@
        } else {
            "filtered on "@ + dscp_text(d) + " / tos "@ + tos_text(d)
        },
        BandClass::Untagged => "filtered on NOT 802.1Q-tagged"@,
    }
}

/// Why the band has the floor that it has.
pub open spec fn band_why(b: BandV, dev: Seq<char>) -> Seq<char> {
    match b.class {
        BandClass::Dscp(d) => if b.is_default {
            if b.effective_primary == Some(dev) {
                b.label + " effective-primary on "@ + dev + " -> full floor"@
            } else {
                b.label + " not effective-primary on "@ + dev
                    + " -> 1mbit token (real floor re-derives on failover)"@
            }
        } else {
            b.label + " marked traffic ("@ + dscp_text(d)
                + " on every sub-if, incl. control) -> full floor"@
        },
        BandClass::Untagged => "untagged admin traffic (SSH/GUI) on admin NIC "@ + dev
            + " -> full floor"@,
    }
}

pub open spec fn band_line(b: BandV, dev: Seq<char>) -> Seq<char> {
    let head = "    1:"@ + dec(b.minor) + "  "@ + b.label + "  prio "@ + dec(b.prio as nat)
        + "  floor "@ + dec(b.floor);
    let mid = if b.eff != b.floor {
        head + " -> "@ + dec(b.eff) + " Mb/s (degraded, factor "@ + dec(b.eff) + "/"@ + dec(b.floor)
            + ")  ["@
    } else {
        head + " Mb/s  ["@
    };
    mid + band_tag(b) + "]  — "@ + band_why(b, dev) + "\n"@
}

/// The lines of the first `n` bands.
pub open spec fn band_lines(d: DerivationV, n: int) -> Seq<char>
    decreases n,
{
    if n <= 0 {
        seq![]
    } else {
        band_lines(d, n - 1) + band_line(d.bands[n - 1], d.dev)
    }
}

pub open spec fn headroom_line(d: DerivationV) -> Seq<char> {
    "H = L - Sum(effective) = "@ + dec(d.l) + " - "@ + dec(d.sum_eff) + " = "@ + dec_int(
        d.l - d.sum_eff,
    ) + " Mb/s  (borrowable headroom; H<0 impossible post-degrade)\n"@
}

pub open spec fn derive_text(d: DerivationV, member: Seq<char>) -> Seq<char> {
    link_line(d, member)
        + "  bands (one HTB class per DSCP band; rate=effective floor guarantee, ceil=L so idle bands lend):\n"@
        + band_lines(d, d.bands.len() as int) + headroom_line(d)
}

// ---- the program ----

/// The class of a band: its guarantee, and the whole link to borrow from.
pub open spec fn class_command(d: DerivationV, b: BandV) -> Seq<char> {
    "tc class add dev "@ + d.dev + " parent 1:1 classid 1:"@ + dec(b.minor) + " htb rate "@
        + rate_word(b.eff) + " ceil "@ + dec(d.l) + "mbit prio "@ + dec(b.prio as nat)
        + " burst 64k quantum "@ + dec(quantum_of(b.eff))
}

/// The queue under a band's class.
pub open spec fn leaf_command(d: DerivationV, b: BandV) -> Seq<char> {
    "tc qdisc add dev "@ + d.dev + " parent 1:"@ + dec(b.minor) + " handle "@ + dec(b.minor)
        + ": fq_codel"@
}

/// The filter of a band that is not the default.
pub open spec fn filter_command(d: DerivationV, b: BandV, fprio: nat) -> Seq<char> {
    match b.class {
        BandClass::Untagged => "tc filter add dev "@ + d.dev + " parent 1: protocol ip prio "@ + dec(
            fprio,
        ) + " flower flowid 1:"@ + dec(b.minor),
        BandClass::Dscp(p) => "tc filter add dev "@ + d.dev
            + " parent 1: protocol 802.1Q prio "@ + dec(fprio)
            + " flower vlan_ethtype ip ip_tos "@ + tos_text(p) + " flowid 1:"@ + dec(b.minor),
    }
}

/// How many of the first `n` bands are filtered.
pub open spec fn filters(b: Seq<BandV>, n: int) -> nat
    decreases n,
{
    if n <= 0 {
        0
    } else if b[n - 1].is_default {
        filters(b, n - 1)
    } else {
        filters(b, n - 1) + 1
    }
}

pub open spec fn class_commands(d: DerivationV, n: int) -> Seq<(Seq<char>, bool)>
    decreases n,
{
    if n <= 0 {
        seq![]
    } else {
        class_commands(d, n - 1).push((class_command(d, d.bands[n - 1]), false))
    }
}

pub open spec fn leaf_commands(d: DerivationV, n: int) -> Seq<(Seq<char>, bool)>
    decreases n,
{
    if n <= 0 {
        seq![]
    } else {
        leaf_commands(d, n - 1).push((leaf_command(d, d.bands[n - 1]), false))
    }
}

/// The filters of the first `n` bands, numbered from one.
pub open spec fn filter_commands(d: DerivationV, n: int) -> Seq<(Seq<char>, bool)>
    decreases n,
{
    if n <= 0 {
        seq![]
    } else if d.bands[n - 1].is_default {
        filter_commands(d, n - 1)
    } else {
        filter_commands(d, n - 1).push(
            (filter_command(d, d.bands[n - 1], filters(d.bands, n)), false),
        )
    }
}

/// The first commands: the old tree is removed, and a new root is put up.
pub open spec fn root_commands(d: DerivationV) -> Seq<(Seq<char>, bool)> {
    seq![
        ("tc qdisc del dev "@ + d.dev + " root"@, true),
        (
            "tc qdisc add dev "@ + d.dev + " root handle 1: htb default "@ + dec(d.default_minor),
            false,
        ),
        (
            "tc class add dev "@ + d.dev + " parent 1: classid 1:1 htb rate "@ + dec(d.l)
                + "mbit ceil "@ + dec(d.l) + "mbit burst 64k quantum "@ + dec(quantum_of(d.l)),
            false,
        ),
    ]
}

/// The program, as commands: each a text, and whether its failure is ignored.
pub open spec fn tc_commands(d: DerivationV) -> Seq<(Seq<char>, bool)> {
    let n = d.bands.len() as int;
    root_commands(d) + class_commands(d, n) + leaf_commands(d, n) + filter_commands(d, n)
}

/// The commands as arguments: no shell reads them.
pub open spec fn argv_of(c: Seq<(Seq<char>, bool)>) -> Seq<(Seq<Seq<char>>, bool)> {
    Seq::new(c.len(), |i: int| (split(c[i].0, ' '), c[i].1))
}

pub open spec fn argv_views(v: Seq<(Vec<String>, bool)>) -> Seq<(Seq<Seq<char>>, bool)> {
    Seq::new(v.len(), |i: int| (texts(v[i].0@), v[i].1))
}

/// The first `n` commands, a line each.
pub open spec fn tc_text(c: Seq<(Seq<char>, bool)>, n: int) -> Seq<char>
    decreases n,
{
    if n <= 0 {
        seq![]
    } else if c[n - 1].1 {
        tc_text(c, n - 1) + (c[n - 1].0 + " 2>/dev/null || true\n"@)
    } else {
        tc_text(c, n - 1) + (c[n - 1].0 + "\n"@)
    }
}

/// The first `n` commands, a line each: the arguments with a space between them, and for one whose
/// failure is ignored what a shell ignores it by.
pub open spec fn argv_text(a: Seq<(Seq<Seq<char>>, bool)>, n: int) -> Seq<char>
    decreases n,
{
    if n <= 0 {
        seq![]
    } else {
        argv_text(a, n - 1) + (join(a[n - 1].0, " "@) + (if a[n - 1].1 {
            " 2>/dev/null || true\n"@
        } else {
            "\n"@
        }))
    }
}

/// The classes as they are recorded: the class, and its rate as the kernel prints it.
pub open spec fn classes_of(b: Seq<BandV>) -> Seq<(Seq<char>, Seq<char>)> {
    Seq::new(b.len(), |i: int| ("1:"@ + dec(b[i].minor), token_of(b[i].eff)))
}

/// The first `n` bands, as a class and its effective rate on a line each.
pub open spec fn expect_text(b: Seq<BandV>, n: int) -> Seq<char>
    decreases n,
{
    if n <= 0 {
        seq![]
    } else {
        expect_text(b, n - 1) + ("1:"@ + dec(b[n - 1].minor) + " "@ + dec(b[n - 1].eff) + "\n"@)
    }
}

fn push_command(cmds: &mut Vec<(Vec<String>, bool)>, line: String, ignore: bool)
    ensures
        argv_views(final(cmds)@) == argv_views(old(cmds)@).push((split(line@, ' '), ignore)),
{
    let argv = split_on(line.as_str(), ' ');
    let ghost before = argv_views(cmds@);
    cmds.push((argv, ignore));
    assert(argv_views(cmds@) =~= before.push((split(line@, ' '), ignore)));
}

proof fn lemma_argv_push(c: Seq<(Seq<char>, bool)>, x: (Seq<char>, bool))
    ensures
        argv_of(c.push(x)) == argv_of(c).push((split(x.0, ' '), x.1)),
{
    assert(argv_of(c.push(x)) =~= argv_of(c).push((split(x.0, ' '), x.1)));
}

fn tag_text(b: &Band) -> (r: String)
    ensures
        r@ == band_tag(b@),
{
    match b.class {
        BandClass::Dscp(d) => if b.is_default {
            String::from_str("default/bulk, no filter (htb default)")
        } else {
            cat4("filtered on ", d.as_str(), " / tos ", d.tos())
        },
        BandClass::Untagged => String::from_str("filtered on NOT 802.1Q-tagged"),
    }
}

fn why_text(b: &Band, dev: &str) -> (r: String)
    ensures
        r@ == band_why(b@, dev@),
{
    match b.class {
        BandClass::Dscp(d) => if b.is_default {
            let here = match &b.effective_primary {
                Some(w) => str_eq(w.as_str(), dev),
                None => false,
            };
            if here {
                cat4(b.label.as_str(), " effective-primary on ", dev, " -> full floor")
            } else {
                cat4(
                    b.label.as_str(),
                    " not effective-primary on ",
                    dev,
                    " -> 1mbit token (real floor re-derives on failover)",
                )
            }
        } else {
            cat4(
                b.label.as_str(),
                " marked traffic (",
                d.as_str(),
                " on every sub-if, incl. control) -> full floor",
            )
        },
        BandClass::Untagged => cat3(
            "untagged admin traffic (SSH/GUI) on admin NIC ",
            dev,
            " -> full floor",
        ),
    }
}

fn line_text(b: &Band, dev: &str) -> (r: String)
    ensures
        r@ == band_line(b@, dev@),
{
    let mut s = String::from_str("    1:");
    s.append(dec_u64(b.minor as u64).as_str());
    s.append("  ");
    s.append(b.label.as_str());
    s.append("  prio ");
    s.append(dec_u64(b.prio as u64).as_str());
    s.append("  floor ");
    s.append(dec_u64(b.floor).as_str());
    if b.eff != b.floor {
        s.append(" -> ");
        s.append(dec_u64(b.eff).as_str());
        s.append(" Mb/s (degraded, factor ");
        s.append(dec_u64(b.eff).as_str());
        s.append("/");
        s.append(dec_u64(b.floor).as_str());
        s.append(")  [");
    } else {
        s.append(" Mb/s  [");
    }
    s.append(tag_text(b).as_str());
    s.append("]  — ");
    s.append(why_text(b, dev).as_str());
    s.append("\n");
    s
}

impl Derivation {
    /// The derivation, for human eyes.
    pub fn render_derive(&self, view: &MemberView) -> (r: String)
        requires
            self.l <= i64::MAX,
            self.sum_eff <= i64::MAX,
        ensures
            r@ == derive_text(self@, view@.member.name),
    {
        let mut out = String::from_str("gen-shape derive: dev ");
        out.append(self.dev.as_str());
        out.append(", link L = ");
        out.append(dec_u64(self.l).as_str());
        out.append(" Mb/s = 0.97 × ");
        out.append(dec_u64(self.l_raw).as_str());
        match self.source {
            LinkSource::Measured => {
                out.append(" (measured)\n");
            },
            LinkSource::Declared => {
                out.append(" (declared for ");
                out.append(view.member.name.as_str());
                out.append(":");
                out.append(self.dev.as_str());
                out.append(", UNMEASURED)\n");
            },
        }
        out.append(
            "  bands (one HTB class per DSCP band; rate=effective floor guarantee, ceil=L so idle bands lend):\n",
        );
        let ghost head = out@;
        let mut i: usize = 0;
        assert(head + band_lines(self@, 0) =~= head);
        while i < self.bands.len()
            invariant
                i <= self.bands@.len(),
                out@ == head + band_lines(self@, i as int),
            decreases self.bands@.len() - i,
        {
            assert(self.bands@[i as int]@ == self@.bands[i as int]);
            let line = line_text(&self.bands[i], self.dev.as_str());
            proof {
                assert(head + band_lines(self@, i as int) + line@ =~= head + (band_lines(
                    self@,
                    i as int,
                ) + line@));
            }
            out.append(line.as_str());
            i = i + 1;
        }
        let mut h = String::from_str("H = L - Sum(effective) = ");
        h.append(dec_u64(self.l).as_str());
        h.append(" - ");
        h.append(dec_u64(self.sum_eff).as_str());
        h.append(" = ");
        h.append(dec_i64(self.l as i64 - self.sum_eff as i64).as_str());
        h.append(" Mb/s  (borrowable headroom; H<0 impossible post-degrade)\n");
        out.append(h.as_str());
        out
    }

    /// The program as argument vectors, each with whether its failure is ignored.
    pub fn tc_argv(&self) -> (r: Vec<(Vec<String>, bool)>)
        ensures
            argv_views(r@) == argv_of(tc_commands(self@)),
    {
        let dev = self.dev.as_str();
        let l = dec_u64(self.l);
        let ghost d = self@;
        let ghost n = d.bands.len() as int;
        let mut cmds: Vec<(Vec<String>, bool)> = Vec::new();
        let ghost c0: Seq<(Seq<char>, bool)> = seq![];
        assert(argv_views(cmds@) =~= argv_of(c0));
        let first = cat3("tc qdisc del dev ", dev, " root");
        proof {
            lemma_argv_push(c0, (first@, true));
        }
        push_command(&mut cmds, first, true);
        let ghost c1 = c0.push((first@, true));
        let second = cat4(
            "tc qdisc add dev ",
            dev,
            " root handle 1: htb default ",
            dec_u64(self.default_minor as u64).as_str(),
        );
        proof {
            lemma_argv_push(c1, (second@, false));
        }
        push_command(&mut cmds, second, false);
        let ghost c2 = c1.push((second@, false));
        let mut third = String::from_str("tc class add dev ");
        third.append(dev);
        third.append(" parent 1: classid 1:1 htb rate ");
        third.append(l.as_str());
        third.append("mbit ceil ");
        third.append(l.as_str());
        third.append("mbit burst 64k quantum ");
        third.append(dec_u64(quantum_for(self.l)).as_str());
        proof {
            lemma_argv_push(c2, (third@, false));
        }
        push_command(&mut cmds, third, false);
        let ghost c3 = c2.push((third@, false));
        assert(c3 =~= root_commands(d));
        let mut i: usize = 0;
        assert(c3 + class_commands(d, 0) =~= c3);
        while i < self.bands.len()
            invariant
                i <= self.bands@.len(),
                d == self@,
                l@ == dec(d.l),
                dev@ == d.dev,
                argv_views(cmds@) == argv_of(c3 + class_commands(d, i as int)),
            decreases self.bands@.len() - i,
        {
            let b = &self.bands[i];
            assert(b@ == d.bands[i as int]);
            let mut s = String::from_str("tc class add dev ");
            s.append(dev);
            s.append(" parent 1:1 classid 1:");
            s.append(dec_u64(b.minor as u64).as_str());
            s.append(" htb rate ");
            s.append(rate_str(b.eff).as_str());
            s.append(" ceil ");
            s.append(l.as_str());
            s.append("mbit prio ");
            s.append(dec_u64(b.prio as u64).as_str());
            s.append(" burst 64k quantum ");
            s.append(dec_u64(quantum_for(b.eff)).as_str());
            proof {
                let c = class_commands(d, i as int);
                lemma_argv_push(c3 + c, (s@, false));
                assert(c3 + c.push((s@, false)) =~= (c3 + c).push((s@, false)));
            }
            push_command(&mut cmds, s, false);
            i = i + 1;
        }
        let ghost c4 = c3 + class_commands(d, n);
        i = 0;
        assert(c4 + leaf_commands(d, 0) =~= c4);
        while i < self.bands.len()
            invariant
                i <= self.bands@.len(),
                d == self@,
                dev@ == d.dev,
                argv_views(cmds@) == argv_of(c4 + leaf_commands(d, i as int)),
            decreases self.bands@.len() - i,
        {
            let b = &self.bands[i];
            assert(b@ == d.bands[i as int]);
            let m = dec_u64(b.minor as u64);
            let s = cat7(
                "tc qdisc add dev ",
                dev,
                " parent 1:",
                m.as_str(),
                " handle ",
                m.as_str(),
                ": fq_codel",
            );
            proof {
                let c = leaf_commands(d, i as int);
                lemma_argv_push(c4 + c, (s@, false));
                assert(c4 + c.push((s@, false)) =~= (c4 + c).push((s@, false)));
            }
            push_command(&mut cmds, s, false);
            i = i + 1;
        }
        let ghost c5 = c4 + leaf_commands(d, n);
        i = 0;
        let mut fprio: usize = 0;
        assert(c5 + filter_commands(d, 0) =~= c5);
        while i < self.bands.len()
            invariant
                i <= self.bands@.len(),
                d == self@,
                dev@ == d.dev,
                fprio as nat == filters(d.bands, i as int),
                fprio <= i,
                argv_views(cmds@) == argv_of(c5 + filter_commands(d, i as int)),
            decreases self.bands@.len() - i,
        {
            let b = &self.bands[i];
            assert(b@ == d.bands[i as int]);
            if !b.is_default {
                fprio = fprio + 1;
                let m = dec_u64(b.minor as u64);
                let mut s = String::from_str("tc filter add dev ");
                s.append(dev);
                match b.class {
                    BandClass::Untagged => {
                        s.append(" parent 1: protocol ip prio ");
                        s.append(dec_u64(fprio as u64).as_str());
                        s.append(" flower flowid 1:");
                    },
                    BandClass::Dscp(p) => {
                        s.append(" parent 1: protocol 802.1Q prio ");
                        s.append(dec_u64(fprio as u64).as_str());
                        s.append(" flower vlan_ethtype ip ip_tos ");
                        s.append(p.tos());
                        s.append(" flowid 1:");
                    },
                }
                s.append(m.as_str());
                proof {
                    let c = filter_commands(d, i as int);
                    lemma_argv_push(c5 + c, (s@, false));
                    assert(c5 + c.push((s@, false)) =~= (c5 + c).push((s@, false)));
                }
                push_command(&mut cmds, s, false);
            }
            i = i + 1;
        }
        cmds
    }

    /// The program as text.
    pub fn render_tc(&self) -> (r: String)
        ensures
            r@ == tc_text(tc_commands(self@), tc_commands(self@).len() as int),
            r@ == argv_text(argv_of(tc_commands(self@)), tc_commands(self@).len() as int),
    {
        let ghost c = tc_commands(self@);
        let cmds = self.tc_argv();
        assert(argv_views(cmds@).len() == c.len());
        let mut out = String::new();
        let mut i: usize = 0;
        while i < cmds.len()
            invariant
                i <= cmds@.len(),
                cmds@.len() == c.len(),
                argv_views(cmds@) == argv_of(c),
                out@ == tc_text(c, i as int),
            decreases cmds@.len() - i,
        {
            proof {
                assert(argv_views(cmds@)[i as int] == argv_of(c)[i as int]);
                lemma_join_split(c[i as int].0, ' ');
                reveal_strlit(" ");
                assert(" "@ =~= seq![' ']);
            }
            let line = join_texts(&cmds[i].0, " ");
            let whole = if cmds[i].1 {
                cat2(line.as_str(), " 2>/dev/null || true\n")
            } else {
                cat2(line.as_str(), "\n")
            };
            out.append(whole.as_str());
            i = i + 1;
        }
        proof {
            lemma_the_text_is_the_arguments(c, c.len() as int);
        }
        out
    }

    /// The classes that this derivation installs, with their rates as the kernel prints them.
    pub fn applied_classes(&self) -> (r: Vec<(String, String)>)
        ensures
            crate::model::pairs(r@) == classes_of(self@.bands),
    {
        let mut out: Vec<(String, String)> = Vec::new();
        let mut i: usize = 0;
        while i < self.bands.len()
            invariant
                i <= self.bands@.len(),
                out@.len() == i,
                forall|j: int|
                    0 <= j < i ==> (#[trigger] out@[j]).0@ == "1:"@ + dec(self@.bands[j].minor)
                        && out@[j].1@ == token_of(self@.bands[j].eff),
            decreases self.bands@.len() - i,
        {
            let b = &self.bands[i];
            assert(b@ == self@.bands[i as int]);
            out.push((cat2("1:", dec_u64(b.minor as u64).as_str()), rate_token(b.eff)));
            i = i + 1;
        }
        assert(crate::model::pairs(out@) =~= classes_of(self@.bands));
        out
    }

    /// The classes and their effective rates, a line each.
    pub fn render_expect(&self) -> (r: String)
        ensures
            r@ == expect_text(self@.bands, self@.bands.len() as int),
    {
        let mut out = String::new();
        let mut i: usize = 0;
        while i < self.bands.len()
            invariant
                i <= self.bands@.len(),
                out@ == expect_text(self@.bands, i as int),
            decreases self.bands@.len() - i,
        {
            let b = &self.bands[i];
            assert(b@ == self@.bands[i as int]);
            let line = cat5(
                "1:",
                dec_u64(b.minor as u64).as_str(),
                " ",
                dec_u64(b.eff).as_str(),
                "\n",
            );
            out.append(line.as_str());
            i = i + 1;
        }
        out
    }
}

/// The text of a program is its arguments, command by command: joined by spaces, with the failure
/// that is ignored marked, and a line each.
pub proof fn lemma_the_text_is_the_arguments(c: Seq<(Seq<char>, bool)>, n: int)
    requires
        0 <= n <= c.len(),
    ensures
        tc_text(c, n) == argv_text(argv_of(c), n),
    decreases n,
{
    if n > 0 {
        lemma_the_text_is_the_arguments(c, n - 1);
        lemma_join_split(c[n - 1].0, ' ');
        reveal_strlit(" ");
        assert(" "@ =~= seq![' ']);
        assert(argv_of(c)[n - 1].0 == split(c[n - 1].0, ' '));
    }
}

/// The text of the program holds the very commands that are run: taking a line apart into its
/// arguments and putting them together again gives the line.
pub proof fn lemma_text_is_what_runs(d: DerivationV, i: int)
    requires
        0 <= i < tc_commands(d).len(),
    ensures
        join(argv_of(tc_commands(d))[i].0, seq![' ']) == tc_commands(d)[i].0,
{
    lemma_join_split(tc_commands(d)[i].0, ' ');
}

} // verus!
