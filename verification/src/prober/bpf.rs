//! The classic BPF program that every tap wears: the kernel is told what evidence looks like
//! before it wakes the prober.

use vstd::prelude::*;

use crate::ipv4::{quad, Ipv4Addr};
use crate::prober::frame::{be16, be32, is_reply, is_tag, router_id};

verus! {

/// One classic BPF instruction.
#[derive(Debug, Clone, Copy, PartialEq, Eq, Structural)]
pub struct Insn {
    pub code: u16,
    pub jt: u8,
    pub jf: u8,
    pub k: u32,
}

pub const LD_H_ABS: u16 = 0x28;

pub const LD_B_ABS: u16 = 0x30;

pub const LD_W_ABS: u16 = 0x20;

pub const JEQ_K: u16 = 0x15;

pub const RET_K: u16 = 0x06;

/// Accept the whole frame: the conventional number.
pub const ACCEPT: u32 = 0x0004_0000;

pub open spec fn insn(code: u16, jt: u8, jf: u8, k: u32) -> Insn {
    Insn { code, jt, jf, k }
}

/// The filter, in the order in which it decides: ARP is accepted; else it must be IPv4 that
/// carries OSPF to 224.0.0.5. The offsets assume no VLAN tag, since the socket is bound to the
/// VLAN sub-interface.
pub open spec fn filter_program() -> Seq<Insn> {
    seq![
        insn(LD_H_ABS, 0, 0, 12),
        insn(JEQ_K, 5, 0, 0x0806),
        insn(JEQ_K, 0, 5, 0x0800),
        insn(LD_B_ABS, 0, 0, 23),
        insn(JEQ_K, 0, 3, 89),
        insn(LD_W_ABS, 0, 0, 30),
        insn(JEQ_K, 0, 1, 0xe000_0005),
        insn(RET_K, 0, 0, ACCEPT),
        insn(RET_K, 0, 0, 0),
    ]
}

pub fn filter() -> (r: [Insn; 9])
    ensures
        r@ == filter_program(),
{
    let r: [Insn; 9] = [
        Insn { code: LD_H_ABS, jt: 0, jf: 0, k: 12 },
        Insn { code: JEQ_K, jt: 5, jf: 0, k: 0x0806 },
        Insn { code: JEQ_K, jt: 0, jf: 5, k: 0x0800 },
        Insn { code: LD_B_ABS, jt: 0, jf: 0, k: 23 },
        Insn { code: JEQ_K, jt: 0, jf: 3, k: 89 },
        Insn { code: LD_W_ABS, jt: 0, jf: 0, k: 30 },
        Insn { code: JEQ_K, jt: 0, jf: 1, k: 0xe000_0005 },
        Insn { code: RET_K, jt: 0, jf: 0, k: ACCEPT },
        Insn { code: RET_K, jt: 0, jf: 0, k: 0 },
    ];
    assert(r@ =~= filter_program());
    r
}

/// What the instruction loads from the frame, if all of it is there.
pub open spec fn loaded(i: Insn, frame: Seq<u8>) -> Option<int> {
    if i.code == LD_B_ABS {
        if i.k < frame.len() {
            Some(frame[i.k as int] as int)
        } else {
            None
        }
    } else if i.code == LD_H_ABS {
        if i.k + 2 <= frame.len() {
            Some(be16(frame, i.k as int))
        } else {
            None
        }
    } else {
        if i.k + 4 <= frame.len() {
            Some(be32(frame, i.k as int))
        } else {
            None
        }
    }
}

pub open spec fn is_load(code: u16) -> bool {
    code == LD_B_ABS || code == LD_H_ABS || code == LD_W_ABS
}

/// What a program returns, from the instruction at `pc` on and with `a` loaded: a load beyond the
/// frame and a jump beyond the program drop it.
pub open spec fn run_from(prog: Seq<Insn>, frame: Seq<u8>, pc: int, a: int) -> u32
    decreases
        (if pc < prog.len() {
            prog.len() - pc
        } else {
            0
        }),
{
    if pc < 0 || pc >= prog.len() {
        0
    } else {
        let i = prog[pc];
        if i.code == RET_K {
            i.k
        } else if i.code == JEQ_K {
            run_from(
                prog,
                frame,
                pc + 1 + if a == i.k {
                    i.jt as int
                } else {
                    i.jf as int
                },
                a,
            )
        } else {
            match loaded(i, frame) {
                Some(v) => run_from(prog, frame, pc + 1, v),
                None => 0,
            }
        }
    }
}

/// Are these instructions of the subset that the filter is written in?
pub open spec fn known_codes(prog: Seq<Insn>) -> bool {
    forall|i: int|
        0 <= i < prog.len() ==> is_load((#[trigger] prog[i]).code) || prog[i].code == JEQ_K
            || prog[i].code == RET_K
}

/// Run a program of that subset on a frame, as the kernel does.
pub fn run(prog: &[Insn], frame: &[u8]) -> (r: u32)
    requires
        known_codes(prog@),
    ensures
        r == run_from(prog@, frame@, 0, 0),
{
    let mut pc: usize = 0;
    let mut a: u32 = 0;
    while pc < prog.len()
        invariant
            known_codes(prog@),
            run_from(prog@, frame@, 0, 0) == run_from(prog@, frame@, pc as int, a as int),
        decreases
            (if pc < prog@.len() {
                prog@.len() - pc
            } else {
                0
            }),
    {
        let i = prog[pc];
        if i.code == RET_K {
            return i.k;
        }
        if i.code == JEQ_K {
            let off: u8 = if a == i.k {
                i.jt
            } else {
                i.jf
            };
            if off as usize >= prog.len() - pc - 1 {
                assert(run_from(prog@, frame@, pc + 1 + off, a as int) == 0);
                return 0;
            }
            pc = pc + 1 + off as usize;
        } else {
            assert(is_load(i.code));
            let width: u64 = if i.code == LD_B_ABS {
                1
            } else if i.code == LD_H_ABS {
                2
            } else {
                4
            };
            if i.k as u64 + width > frame.len() as u64 {
                return 0;
            }
            let k: usize = i.k as usize;
            a = if i.code == LD_B_ABS {
                frame[k] as u32
            } else if i.code == LD_H_ABS {
                frame[k] as u32 * 256 + frame[k + 1] as u32
            } else {
                Ipv4Addr::new(frame[k], frame[k + 1], frame[k + 2], frame[k + 3]).bits
            };
            pc = pc + 1;
        }
    }
    0
}

/// What counts as evidence on a tap: ARP, or OSPF to AllSPFRouters.
pub open spec fn is_evidence(f: Seq<u8>) -> bool {
    f.len() >= 14 && (be16(f, 12) == 0x0806 || (be16(f, 12) == 0x0800 && f.len() >= 34 && f[23]
        == 89 && be32(f, 30) == quad(224, 0, 0, 5)))
}

/// The filter accepts exactly the evidence, and drops everything else.
pub proof fn lemma_filter_accepts_evidence(f: Seq<u8>)
    ensures
        run_from(filter_program(), f, 0, 0) == if is_evidence(f) {
            ACCEPT
        } else {
            0
        },
{
    reveal_with_fuel(run_from, 9);
    let p = filter_program();
    assert(p.len() == 9);
    assert(p[0] == insn(LD_H_ABS, 0, 0, 12));
    assert(p[1] == insn(JEQ_K, 5, 0, 0x0806));
    assert(p[2] == insn(JEQ_K, 0, 5, 0x0800));
    assert(p[3] == insn(LD_B_ABS, 0, 0, 23));
    assert(p[4] == insn(JEQ_K, 0, 3, 89));
    assert(p[5] == insn(LD_W_ABS, 0, 0, 30));
    assert(p[6] == insn(JEQ_K, 0, 1, 0xe000_0005));
    assert(p[7] == insn(RET_K, 0, 0, ACCEPT));
    assert(p[8] == insn(RET_K, 0, 0, 0));
}

/// Nothing that the prober would take for evidence on an untagged frame is filtered out: neither
/// a reply nor a hello.
pub proof fn lemma_filter_keeps_replies_and_hellos(
    f: Seq<u8>,
    src: Seq<u8>,
    targets: Seq<Ipv4Addr>,
)
    requires
        f.len() >= 14,
        !is_tag(be16(f, 12)),
        is_reply(f, src, targets) || router_id(f) is Some,
    ensures
        run_from(filter_program(), f, 0, 0) == ACCEPT,
{
    lemma_filter_accepts_evidence(f);
}

} // verus!
