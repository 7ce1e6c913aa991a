//! The filter program, run as a program.

use cfab::prober::bpf::{filter, run, Insn, ACCEPT, JEQ_K, LD_B_ABS, RET_K};

/// An OSPF hello to AllSPFRouters, `ihl` words of IPv4 header.
fn hello(ihl: u8) -> Vec<u8> {
    let mut f = vec![0u8; 14];
    f[0..6].copy_from_slice(&[0x01, 0x00, 0x5e, 0x00, 0x00, 0x05]);
    f[12..14].copy_from_slice(&[0x08, 0x00]);
    let hlen = (ihl * 4) as usize;
    let mut ip = vec![0u8; hlen];
    ip[0] = 0x40 | ihl;
    ip[9] = 89;
    ip[16..20].copy_from_slice(&[224, 0, 0, 5]);
    f.extend_from_slice(&ip);
    f.extend_from_slice(&[0u8; 24]);
    f
}

fn arp_reply() -> Vec<u8> {
    let mut f = vec![0u8; 42];
    f[12..14].copy_from_slice(&[0x08, 0x06]);
    f[20..22].copy_from_slice(&[0x00, 0x02]);
    f
}

/// The kernel gets the program that is run here, instruction for instruction.
#[test]
fn the_program_handed_to_the_kernel_is_the_one_the_tests_run() {
    let program: Vec<socket2::SockFilter> = filter()
        .iter()
        .map(|i| socket2::SockFilter::new(i.code, i.jt, i.jf, i.k))
        .collect();
    assert_eq!(program.len(), filter().len());
}

#[test]
fn the_filter_accepts_a_hello_and_an_arp_reply() {
    assert_eq!(run(&filter(), &hello(5)), ACCEPT);
    assert_eq!(
        run(&filter(), &hello(6)),
        ACCEPT,
        "the proto and dst offsets do not move with IHL"
    );
    assert_eq!(run(&filter(), &arp_reply()), ACCEPT);
}

#[test]
fn the_filter_drops_everything_that_cannot_be_evidence() {
    let mut tcp = hello(5);
    tcp[14 + 9] = 6;
    assert_eq!(run(&filter(), &tcp), 0, "IP that is not OSPF");

    let mut unicast_ospf = hello(5);
    unicast_ospf[14 + 16..14 + 20].copy_from_slice(&[10, 99, 9, 2]);
    assert_eq!(run(&filter(), &unicast_ospf), 0, "OSPF not to AllSPFRouters");

    let mut ipv6 = hello(5);
    ipv6[12..14].copy_from_slice(&[0x86, 0xdd]);
    assert_eq!(run(&filter(), &ipv6), 0, "not IPv4");

    assert_eq!(run(&filter(), &hello(5)[..20]), 0, "short: no ip.dst to read");
    assert_eq!(run(&filter(), &[]), 0, "short: no ethertype to read");
}

#[test]
fn a_program_of_any_length_is_run() {
    let insn = |code, jt, jf, k| Insn { code, jt, jf, k };
    let mut long = vec![insn(LD_B_ABS, 0, 0, 0); 10_000];
    assert_eq!(run(&long, &[7]), 0);
    long.push(insn(RET_K, 0, 0, 5));
    assert_eq!(run(&long, &[7]), 5);
    // A jump to the last instruction lands there, and one beyond it drops the frame.
    let jump = |jt| run(&[insn(JEQ_K, jt, 0, 0), insn(RET_K, 0, 0, 1), insn(RET_K, 0, 0, 2)], &[]);
    assert_eq!((jump(0), jump(1), jump(2), jump(255)), (1, 2, 0, 0));
}
