//! What the shaper's program says, argument by argument.

use vstd::prelude::*;

use crate::emit::shape::render::{
    argv_of, class_command, class_commands, classes_of, expect_text, filter_command,
    filter_commands, filters, leaf_command, leaf_commands, quantum_of, rate_word, root_commands,
    tc_commands,
};
use crate::emit::shape::{BandClass, BandV, DerivationV};
use crate::model::{tos_text, Dscp};
use crate::text::{dec, find, is_digit, lemma_dec, lemma_find, split, split_from};

verus! {

/// A text without a space in it: one argument.
pub open spec fn plain(s: Seq<char>) -> bool {
    forall|i: int| 0 <= i < s.len() ==> #[trigger] s[i] != ' '
}

proof fn lemma_plain_dec(n: nat)
    ensures
        plain(dec(n)),
{
    lemma_dec(n);
    assert forall|i: int| 0 <= i < dec(n).len() implies #[trigger] dec(n)[i] != ' ' by {
        assert(is_digit(dec(n)[i]));
    }
}

proof fn lemma_plain_rate(n: nat)
    ensures
        plain(rate_word(n)),
{
    reveal_strlit("mbit");
    reveal_strlit("1kbit");
    lemma_plain_dec(n);
}

proof fn lemma_plain_tos(d: Dscp)
    ensures
        plain(tos_text(d)),
{
    reveal_strlit("0x00");
    reveal_strlit("0x40");
    reveal_strlit("0xc0");
}

proof fn lemma_split_from_push(s: Seq<char>, c: char, w: Seq<char>, i: int)
    requires
        0 <= i <= s.len(),
        forall|j: int| 0 <= j < w.len() ==> #[trigger] w[j] != c,
    ensures
        split_from(s + seq![c] + w, c, i) == split_from(s, c, i).push(w),
    decreases s.len() - i,
{
    let t = s + seq![c] + w;
    let n = s.len() as int;
    lemma_find(s, c, i);
    lemma_find(t, c, i);
    let k = find(s, c, i);
    let m = find(t, c, i);
    assert forall|j: int| 0 <= j < n implies t[j] == s[j] by {}
    assert(t[n] == c);
    if k < n {
        assert(m == k) by {
            if m < k {
                assert(t[m] == s[m]);
            }
            if k < m {
                assert(t[k] == s[k]);
            }
        }
        lemma_split_from_push(s, c, w, k + 1);
        assert(t.subrange(i, k) =~= s.subrange(i, k));
        assert(split_from(t, c, i) =~= split_from(s, c, i).push(w));
    } else {
        assert(m == n) by {
            if m < n {
                assert(t[m] == s[m]);
            }
        }
        lemma_find(t, c, n + 1);
        let q = find(t, c, n + 1);
        if q < t.len() {
            assert(t[q] == w[q - n - 1]);
        }
        assert(t.subrange(i, n) =~= s.subrange(i, n));
        assert(t.subrange(n + 1, t.len() as int) =~= w);
        assert(split_from(t, c, n + 1) =~= seq![w]);
        assert(split_from(t, c, i) =~= split_from(s, c, i).push(w));
    }
}

/// One word more behind a space is one argument more.
proof fn lemma_split_push(s: Seq<char>, c: char, w: Seq<char>)
    requires
        forall|j: int| 0 <= j < w.len() ==> #[trigger] w[j] != c,
    ensures
        split(s + seq![c] + w, c) == split(s, c).push(w),
{
    lemma_split_from_push(s, c, w, 0);
}

#[verifier::spinoff_prover]
#[verifier::rlimit(60)]
proof fn lemma_words_0(x: Seq<char>)
    requires
        plain(x),
    ensures
        split("tc class add dev "@ + x, ' ') == seq!["tc"@, "class"@, "add"@, "dev"@, x],
{
    assert(plain("tc"@)) by {
        reveal_strlit("tc");
    }
    assert(plain("class"@)) by {
        reveal_strlit("class");
    }
    assert(plain("add"@)) by {
        reveal_strlit("add");
    }
    assert(plain("dev"@)) by {
        reveal_strlit("dev");
    }
    let t0 = "tc"@;
    crate::ipv4::lemma_split_single(t0, ' ');
    lemma_split_push(t0, ' ', "class"@);
    let t1 = t0 + seq![' '] + "class"@;
    lemma_split_push(t1, ' ', "add"@);
    let t2 = t1 + seq![' '] + "add"@;
    lemma_split_push(t2, ' ', "dev"@);
    let t3 = t2 + seq![' '] + "dev"@;
    lemma_split_push(t3, ' ', x);
    let t4 = t3 + seq![' '] + x;
    assert(t4 =~= "tc class add dev "@ + x) by {
        reveal_strlit("add");
        reveal_strlit("class");
        reveal_strlit("dev");
        reveal_strlit("tc");
        reveal_strlit("tc class add dev ");
    }
}

#[verifier::spinoff_prover]
#[verifier::rlimit(60)]
proof fn lemma_words_1(s: Seq<char>, x: Seq<char>)
    requires
        plain(x),
    ensures
        split(s + " parent 1:1 classid 1:"@ + x, ' ') == split(s, ' ').push("parent"@).push("1:1"@).push("classid"@).push("1:"@ + x),
{
    assert(plain("parent"@)) by {
        reveal_strlit("parent");
    }
    assert(plain("1:1"@)) by {
        reveal_strlit("1:1");
    }
    assert(plain("classid"@)) by {
        reveal_strlit("classid");
    }
    assert(plain("1:"@ + x)) by {
        reveal_strlit("1:");
    }
    let t0 = s;
    lemma_split_push(t0, ' ', "parent"@);
    let t1 = t0 + seq![' '] + "parent"@;
    lemma_split_push(t1, ' ', "1:1"@);
    let t2 = t1 + seq![' '] + "1:1"@;
    lemma_split_push(t2, ' ', "classid"@);
    let t3 = t2 + seq![' '] + "classid"@;
    lemma_split_push(t3, ' ', "1:"@ + x);
    let t4 = t3 + seq![' '] + ("1:"@ + x);
    assert(t4 =~= s + " parent 1:1 classid 1:"@ + x) by {
        reveal_strlit(" parent 1:1 classid 1:");
        reveal_strlit("1:");
        reveal_strlit("1:1");
        reveal_strlit("classid");
        reveal_strlit("parent");
    }
}

proof fn lemma_words_2(s: Seq<char>, x: Seq<char>)
    requires
        plain(x),
    ensures
        split(s + " htb rate "@ + x, ' ') == split(s, ' ').push("htb"@).push("rate"@).push(x),
{
    assert(plain("htb"@)) by {
        reveal_strlit("htb");
    }
    assert(plain("rate"@)) by {
        reveal_strlit("rate");
    }
    let t0 = s;
    lemma_split_push(t0, ' ', "htb"@);
    let t1 = t0 + seq![' '] + "htb"@;
    lemma_split_push(t1, ' ', "rate"@);
    let t2 = t1 + seq![' '] + "rate"@;
    lemma_split_push(t2, ' ', x);
    let t3 = t2 + seq![' '] + x;
    assert(t3 =~= s + " htb rate "@ + x) by {
        reveal_strlit(" htb rate ");
        reveal_strlit("htb");
        reveal_strlit("rate");
    }
}

#[verifier::spinoff_prover]
#[verifier::rlimit(60)]
proof fn lemma_words_3(s: Seq<char>, x: Seq<char>, y: Seq<char>)
    requires
        plain(x),
        plain(y),
    ensures
        split(s + " ceil "@ + x + "mbit prio "@ + y, ' ') == split(s, ' ').push("ceil"@).push(x + "mbit"@).push("prio"@).push(y),
{
    assert(plain("ceil"@)) by {
        reveal_strlit("ceil");
    }
    assert(plain(x + "mbit"@)) by {
        reveal_strlit("mbit");
    }
    assert(plain("prio"@)) by {
        reveal_strlit("prio");
    }
    let t0 = s;
    lemma_split_push(t0, ' ', "ceil"@);
    let t1 = t0 + seq![' '] + "ceil"@;
    lemma_split_push(t1, ' ', x + "mbit"@);
    let t2 = t1 + seq![' '] + (x + "mbit"@);
    lemma_split_push(t2, ' ', "prio"@);
    let t3 = t2 + seq![' '] + "prio"@;
    lemma_split_push(t3, ' ', y);
    let t4 = t3 + seq![' '] + y;
    assert(t4 =~= s + " ceil "@ + x + "mbit prio "@ + y) by {
        reveal_strlit(" ceil ");
        reveal_strlit("ceil");
        reveal_strlit("mbit");
        reveal_strlit("mbit prio ");
        reveal_strlit("prio");
    }
}

proof fn lemma_words_4(s: Seq<char>, x: Seq<char>)
    requires
        plain(x),
    ensures
        split(s + " burst 64k quantum "@ + x, ' ') == split(s, ' ').push("burst"@).push("64k"@).push("quantum"@).push(x),
{
    assert(plain("burst"@)) by {
        reveal_strlit("burst");
    }
    assert(plain("64k"@)) by {
        reveal_strlit("64k");
    }
    assert(plain("quantum"@)) by {
        reveal_strlit("quantum");
    }
    let t0 = s;
    lemma_split_push(t0, ' ', "burst"@);
    let t1 = t0 + seq![' '] + "burst"@;
    lemma_split_push(t1, ' ', "64k"@);
    let t2 = t1 + seq![' '] + "64k"@;
    lemma_split_push(t2, ' ', "quantum"@);
    let t3 = t2 + seq![' '] + "quantum"@;
    lemma_split_push(t3, ' ', x);
    let t4 = t3 + seq![' '] + x;
    assert(t4 =~= s + " burst 64k quantum "@ + x) by {
        reveal_strlit(" burst 64k quantum ");
        reveal_strlit("64k");
        reveal_strlit("burst");
        reveal_strlit("quantum");
    }
}

#[verifier::spinoff_prover]
#[verifier::rlimit(60)]
proof fn lemma_words_5(x: Seq<char>)
    requires
        plain(x),
    ensures
        split("tc qdisc add dev "@ + x, ' ') == seq!["tc"@, "qdisc"@, "add"@, "dev"@, x],
{
    assert(plain("tc"@)) by {
        reveal_strlit("tc");
    }
    assert(plain("qdisc"@)) by {
        reveal_strlit("qdisc");
    }
    assert(plain("add"@)) by {
        reveal_strlit("add");
    }
    assert(plain("dev"@)) by {
        reveal_strlit("dev");
    }
    let t0 = "tc"@;
    crate::ipv4::lemma_split_single(t0, ' ');
    lemma_split_push(t0, ' ', "qdisc"@);
    let t1 = t0 + seq![' '] + "qdisc"@;
    lemma_split_push(t1, ' ', "add"@);
    let t2 = t1 + seq![' '] + "add"@;
    lemma_split_push(t2, ' ', "dev"@);
    let t3 = t2 + seq![' '] + "dev"@;
    lemma_split_push(t3, ' ', x);
    let t4 = t3 + seq![' '] + x;
    assert(t4 =~= "tc qdisc add dev "@ + x) by {
        reveal_strlit("add");
        reveal_strlit("dev");
        reveal_strlit("qdisc");
        reveal_strlit("tc");
        reveal_strlit("tc qdisc add dev ");
    }
}

proof fn lemma_words_6(s: Seq<char>, x: Seq<char>)
    requires
        plain(x),
    ensures
        split(s + " parent 1:"@ + x, ' ') == split(s, ' ').push("parent"@).push("1:"@ + x),
{
    assert(plain("parent"@)) by {
        reveal_strlit("parent");
    }
    assert(plain("1:"@ + x)) by {
        reveal_strlit("1:");
    }
    let t0 = s;
    lemma_split_push(t0, ' ', "parent"@);
    let t1 = t0 + seq![' '] + "parent"@;
    lemma_split_push(t1, ' ', "1:"@ + x);
    let t2 = t1 + seq![' '] + ("1:"@ + x);
    assert(t2 =~= s + " parent 1:"@ + x) by {
        reveal_strlit(" parent 1:");
        reveal_strlit("1:");
        reveal_strlit("parent");
    }
}

#[verifier::spinoff_prover]
#[verifier::rlimit(60)]
proof fn lemma_words_7(s: Seq<char>, x: Seq<char>)
    requires
        plain(x),
    ensures
        split(s + " handle "@ + x + ": fq_codel"@, ' ') == split(s, ' ').push("handle"@).push(x + ":"@).push("fq_codel"@),
{
    assert(plain("handle"@)) by {
        reveal_strlit("handle");
    }
    assert(plain(x + ":"@)) by {
        reveal_strlit(":");
    }
    assert(plain("fq_codel"@)) by {
        reveal_strlit("fq_codel");
    }
    let t0 = s;
    lemma_split_push(t0, ' ', "handle"@);
    let t1 = t0 + seq![' '] + "handle"@;
    lemma_split_push(t1, ' ', x + ":"@);
    let t2 = t1 + seq![' '] + (x + ":"@);
    lemma_split_push(t2, ' ', "fq_codel"@);
    let t3 = t2 + seq![' '] + "fq_codel"@;
    assert(t3 =~= s + " handle "@ + x + ": fq_codel"@) by {
        reveal_strlit(" handle ");
        reveal_strlit(":");
        reveal_strlit(": fq_codel");
        reveal_strlit("fq_codel");
        reveal_strlit("handle");
    }
}

#[verifier::spinoff_prover]
#[verifier::rlimit(60)]
proof fn lemma_words_8(x: Seq<char>)
    requires
        plain(x),
    ensures
        split("tc filter add dev "@ + x, ' ') == seq!["tc"@, "filter"@, "add"@, "dev"@, x],
{
    assert(plain("tc"@)) by {
        reveal_strlit("tc");
    }
    assert(plain("filter"@)) by {
        reveal_strlit("filter");
    }
    assert(plain("add"@)) by {
        reveal_strlit("add");
    }
    assert(plain("dev"@)) by {
        reveal_strlit("dev");
    }
    let t0 = "tc"@;
    crate::ipv4::lemma_split_single(t0, ' ');
    lemma_split_push(t0, ' ', "filter"@);
    let t1 = t0 + seq![' '] + "filter"@;
    lemma_split_push(t1, ' ', "add"@);
    let t2 = t1 + seq![' '] + "add"@;
    lemma_split_push(t2, ' ', "dev"@);
    let t3 = t2 + seq![' '] + "dev"@;
    lemma_split_push(t3, ' ', x);
    let t4 = t3 + seq![' '] + x;
    assert(t4 =~= "tc filter add dev "@ + x) by {
        reveal_strlit("add");
        reveal_strlit("dev");
        reveal_strlit("filter");
        reveal_strlit("tc");
        reveal_strlit("tc filter add dev ");
    }
}

#[verifier::spinoff_prover]
#[verifier::rlimit(60)]
proof fn lemma_words_9(s: Seq<char>, x: Seq<char>)
    requires
        plain(x),
    ensures
        split(s + " parent 1: protocol ip prio "@ + x, ' ') == split(s, ' ').push("parent"@).push("1:"@).push("protocol"@).push("ip"@).push("prio"@).push(x),
{
    assert(plain("parent"@)) by {
        reveal_strlit("parent");
    }
    assert(plain("1:"@)) by {
        reveal_strlit("1:");
    }
    assert(plain("protocol"@)) by {
        reveal_strlit("protocol");
    }
    assert(plain("ip"@)) by {
        reveal_strlit("ip");
    }
    assert(plain("prio"@)) by {
        reveal_strlit("prio");
    }
    let t0 = s;
    lemma_split_push(t0, ' ', "parent"@);
    let t1 = t0 + seq![' '] + "parent"@;
    lemma_split_push(t1, ' ', "1:"@);
    let t2 = t1 + seq![' '] + "1:"@;
    lemma_split_push(t2, ' ', "protocol"@);
    let t3 = t2 + seq![' '] + "protocol"@;
    lemma_split_push(t3, ' ', "ip"@);
    let t4 = t3 + seq![' '] + "ip"@;
    lemma_split_push(t4, ' ', "prio"@);
    let t5 = t4 + seq![' '] + "prio"@;
    lemma_split_push(t5, ' ', x);
    let t6 = t5 + seq![' '] + x;
    assert(t6 =~= s + " parent 1: protocol ip prio "@ + x) by {
        reveal_strlit(" parent 1: protocol ip prio ");
        reveal_strlit("1:");
        reveal_strlit("ip");
        reveal_strlit("parent");
        reveal_strlit("prio");
        reveal_strlit("protocol");
    }
}

proof fn lemma_words_10(s: Seq<char>, x: Seq<char>)
    requires
        plain(x),
    ensures
        split(s + " flower flowid 1:"@ + x, ' ') == split(s, ' ').push("flower"@).push("flowid"@).push("1:"@ + x),
{
    assert(plain("flower"@)) by {
        reveal_strlit("flower");
    }
    assert(plain("flowid"@)) by {
        reveal_strlit("flowid");
    }
    assert(plain("1:"@ + x)) by {
        reveal_strlit("1:");
    }
    let t0 = s;
    lemma_split_push(t0, ' ', "flower"@);
    let t1 = t0 + seq![' '] + "flower"@;
    lemma_split_push(t1, ' ', "flowid"@);
    let t2 = t1 + seq![' '] + "flowid"@;
    lemma_split_push(t2, ' ', "1:"@ + x);
    let t3 = t2 + seq![' '] + ("1:"@ + x);
    assert(t3 =~= s + " flower flowid 1:"@ + x) by {
        reveal_strlit(" flower flowid 1:");
        reveal_strlit("1:");
        reveal_strlit("flower");
        reveal_strlit("flowid");
    }
}

#[verifier::spinoff_prover]
#[verifier::rlimit(60)]
proof fn lemma_words_11(s: Seq<char>, x: Seq<char>)
    requires
        plain(x),
    ensures
        split(s + " parent 1: protocol 802.1Q prio "@ + x, ' ') == split(s, ' ').push("parent"@).push("1:"@).push("protocol"@).push("802.1Q"@).push("prio"@).push(x),
{
    assert(plain("parent"@)) by {
        reveal_strlit("parent");
    }
    assert(plain("1:"@)) by {
        reveal_strlit("1:");
    }
    assert(plain("protocol"@)) by {
        reveal_strlit("protocol");
    }
    assert(plain("802.1Q"@)) by {
        reveal_strlit("802.1Q");
    }
    assert(plain("prio"@)) by {
        reveal_strlit("prio");
    }
    let t0 = s;
    lemma_split_push(t0, ' ', "parent"@);
    let t1 = t0 + seq![' '] + "parent"@;
    lemma_split_push(t1, ' ', "1:"@);
    let t2 = t1 + seq![' '] + "1:"@;
    lemma_split_push(t2, ' ', "protocol"@);
    let t3 = t2 + seq![' '] + "protocol"@;
    lemma_split_push(t3, ' ', "802.1Q"@);
    let t4 = t3 + seq![' '] + "802.1Q"@;
    lemma_split_push(t4, ' ', "prio"@);
    let t5 = t4 + seq![' '] + "prio"@;
    lemma_split_push(t5, ' ', x);
    let t6 = t5 + seq![' '] + x;
    assert(t6 =~= s + " parent 1: protocol 802.1Q prio "@ + x) by {
        reveal_strlit(" parent 1: protocol 802.1Q prio ");
        reveal_strlit("1:");
        reveal_strlit("802.1Q");
        reveal_strlit("parent");
        reveal_strlit("prio");
        reveal_strlit("protocol");
    }
}

#[verifier::spinoff_prover]
#[verifier::rlimit(60)]
proof fn lemma_words_12(s: Seq<char>, x: Seq<char>)
    requires
        plain(x),
    ensures
        split(s + " flower vlan_ethtype ip ip_tos "@ + x, ' ') == split(s, ' ').push("flower"@).push("vlan_ethtype"@).push("ip"@).push("ip_tos"@).push(x),
{
    assert(plain("flower"@)) by {
        reveal_strlit("flower");
    }
    assert(plain("vlan_ethtype"@)) by {
        reveal_strlit("vlan_ethtype");
    }
    assert(plain("ip"@)) by {
        reveal_strlit("ip");
    }
    assert(plain("ip_tos"@)) by {
        reveal_strlit("ip_tos");
    }
    let t0 = s;
    lemma_split_push(t0, ' ', "flower"@);
    let t1 = t0 + seq![' '] + "flower"@;
    lemma_split_push(t1, ' ', "vlan_ethtype"@);
    let t2 = t1 + seq![' '] + "vlan_ethtype"@;
    lemma_split_push(t2, ' ', "ip"@);
    let t3 = t2 + seq![' '] + "ip"@;
    lemma_split_push(t3, ' ', "ip_tos"@);
    let t4 = t3 + seq![' '] + "ip_tos"@;
    lemma_split_push(t4, ' ', x);
    let t5 = t4 + seq![' '] + x;
    assert(t5 =~= s + " flower vlan_ethtype ip ip_tos "@ + x) by {
        reveal_strlit(" flower vlan_ethtype ip ip_tos ");
        reveal_strlit("flower");
        reveal_strlit("ip");
        reveal_strlit("ip_tos");
        reveal_strlit("vlan_ethtype");
    }
}

proof fn lemma_words_13(s: Seq<char>, x: Seq<char>)
    requires
        plain(x),
    ensures
        split(s + " flowid 1:"@ + x, ' ') == split(s, ' ').push("flowid"@).push("1:"@ + x),
{
    assert(plain("flowid"@)) by {
        reveal_strlit("flowid");
    }
    assert(plain("1:"@ + x)) by {
        reveal_strlit("1:");
    }
    let t0 = s;
    lemma_split_push(t0, ' ', "flowid"@);
    let t1 = t0 + seq![' '] + "flowid"@;
    lemma_split_push(t1, ' ', "1:"@ + x);
    let t2 = t1 + seq![' '] + ("1:"@ + x);
    assert(t2 =~= s + " flowid 1:"@ + x) by {
        reveal_strlit(" flowid 1:");
        reveal_strlit("1:");
        reveal_strlit("flowid");
    }
}

#[verifier::spinoff_prover]
#[verifier::rlimit(60)]
proof fn lemma_words_14(x: Seq<char>)
    requires
        plain(x),
    ensures
        split("tc qdisc del dev "@ + x, ' ') == seq!["tc"@, "qdisc"@, "del"@, "dev"@, x],
{
    assert(plain("tc"@)) by {
        reveal_strlit("tc");
    }
    assert(plain("qdisc"@)) by {
        reveal_strlit("qdisc");
    }
    assert(plain("del"@)) by {
        reveal_strlit("del");
    }
    assert(plain("dev"@)) by {
        reveal_strlit("dev");
    }
    let t0 = "tc"@;
    crate::ipv4::lemma_split_single(t0, ' ');
    lemma_split_push(t0, ' ', "qdisc"@);
    let t1 = t0 + seq![' '] + "qdisc"@;
    lemma_split_push(t1, ' ', "del"@);
    let t2 = t1 + seq![' '] + "del"@;
    lemma_split_push(t2, ' ', "dev"@);
    let t3 = t2 + seq![' '] + "dev"@;
    lemma_split_push(t3, ' ', x);
    let t4 = t3 + seq![' '] + x;
    assert(t4 =~= "tc qdisc del dev "@ + x) by {
        reveal_strlit("del");
        reveal_strlit("dev");
        reveal_strlit("qdisc");
        reveal_strlit("tc");
        reveal_strlit("tc qdisc del dev ");
    }
}

proof fn lemma_words_15(s: Seq<char>)
    ensures
        split(s + " root"@, ' ') == split(s, ' ').push("root"@),
{
    assert(plain("root"@)) by {
        reveal_strlit("root");
    }
    let t0 = s;
    lemma_split_push(t0, ' ', "root"@);
    let t1 = t0 + seq![' '] + "root"@;
    assert(t1 =~= s + " root"@) by {
        reveal_strlit(" root");
        reveal_strlit("root");
    }
}

#[verifier::spinoff_prover]
#[verifier::rlimit(60)]
proof fn lemma_words_16(s: Seq<char>, x: Seq<char>)
    requires
        plain(x),
    ensures
        split(s + " root handle 1: htb default "@ + x, ' ') == split(s, ' ').push("root"@).push("handle"@).push("1:"@).push("htb"@).push("default"@).push(x),
{
    assert(plain("root"@)) by {
        reveal_strlit("root");
    }
    assert(plain("handle"@)) by {
        reveal_strlit("handle");
    }
    assert(plain("1:"@)) by {
        reveal_strlit("1:");
    }
    assert(plain("htb"@)) by {
        reveal_strlit("htb");
    }
    assert(plain("default"@)) by {
        reveal_strlit("default");
    }
    let t0 = s;
    lemma_split_push(t0, ' ', "root"@);
    let t1 = t0 + seq![' '] + "root"@;
    lemma_split_push(t1, ' ', "handle"@);
    let t2 = t1 + seq![' '] + "handle"@;
    lemma_split_push(t2, ' ', "1:"@);
    let t3 = t2 + seq![' '] + "1:"@;
    lemma_split_push(t3, ' ', "htb"@);
    let t4 = t3 + seq![' '] + "htb"@;
    lemma_split_push(t4, ' ', "default"@);
    let t5 = t4 + seq![' '] + "default"@;
    lemma_split_push(t5, ' ', x);
    let t6 = t5 + seq![' '] + x;
    assert(t6 =~= s + " root handle 1: htb default "@ + x) by {
        reveal_strlit(" root handle 1: htb default ");
        reveal_strlit("1:");
        reveal_strlit("default");
        reveal_strlit("handle");
        reveal_strlit("htb");
        reveal_strlit("root");
    }
}

#[verifier::spinoff_prover]
#[verifier::rlimit(60)]
proof fn lemma_words_17(s: Seq<char>, x: Seq<char>, y: Seq<char>, z: Seq<char>)
    requires
        plain(x),
        plain(y),
        plain(z),
    ensures
        split(s + " parent 1: classid 1:1 htb rate "@ + x + "mbit ceil "@ + y + "mbit burst 64k quantum "@ + z, ' ') == split(s, ' ').push("parent"@).push("1:"@).push("classid"@).push("1:1"@).push("htb"@).push("rate"@).push(x + "mbit"@).push("ceil"@).push(y + "mbit"@).push("burst"@).push("64k"@).push("quantum"@).push(z),
{
    assert(plain("parent"@)) by {
        reveal_strlit("parent");
    }
    assert(plain("1:"@)) by {
        reveal_strlit("1:");
    }
    assert(plain("classid"@)) by {
        reveal_strlit("classid");
    }
    assert(plain("1:1"@)) by {
        reveal_strlit("1:1");
    }
    assert(plain("htb"@)) by {
        reveal_strlit("htb");
    }
    assert(plain("rate"@)) by {
        reveal_strlit("rate");
    }
    assert(plain(x + "mbit"@)) by {
        reveal_strlit("mbit");
    }
    assert(plain("ceil"@)) by {
        reveal_strlit("ceil");
    }
    assert(plain(y + "mbit"@)) by {
        reveal_strlit("mbit");
    }
    assert(plain("burst"@)) by {
        reveal_strlit("burst");
    }
    assert(plain("64k"@)) by {
        reveal_strlit("64k");
    }
    assert(plain("quantum"@)) by {
        reveal_strlit("quantum");
    }
    let t0 = s;
    lemma_split_push(t0, ' ', "parent"@);
    let t1 = t0 + seq![' '] + "parent"@;
    lemma_split_push(t1, ' ', "1:"@);
    let t2 = t1 + seq![' '] + "1:"@;
    lemma_split_push(t2, ' ', "classid"@);
    let t3 = t2 + seq![' '] + "classid"@;
    lemma_split_push(t3, ' ', "1:1"@);
    let t4 = t3 + seq![' '] + "1:1"@;
    lemma_split_push(t4, ' ', "htb"@);
    let t5 = t4 + seq![' '] + "htb"@;
    lemma_split_push(t5, ' ', "rate"@);
    let t6 = t5 + seq![' '] + "rate"@;
    lemma_split_push(t6, ' ', x + "mbit"@);
    let t7 = t6 + seq![' '] + (x + "mbit"@);
    lemma_split_push(t7, ' ', "ceil"@);
    let t8 = t7 + seq![' '] + "ceil"@;
    lemma_split_push(t8, ' ', y + "mbit"@);
    let t9 = t8 + seq![' '] + (y + "mbit"@);
    lemma_split_push(t9, ' ', "burst"@);
    let t10 = t9 + seq![' '] + "burst"@;
    lemma_split_push(t10, ' ', "64k"@);
    let t11 = t10 + seq![' '] + "64k"@;
    lemma_split_push(t11, ' ', "quantum"@);
    let t12 = t11 + seq![' '] + "quantum"@;
    lemma_split_push(t12, ' ', z);
    let t13 = t12 + seq![' '] + z;
    assert(t13 =~= s + " parent 1: classid 1:1 htb rate "@ + x + "mbit ceil "@ + y + "mbit burst 64k quantum "@ + z) by {
        reveal_strlit(" parent 1: classid 1:1 htb rate ");
        reveal_strlit("1:");
        reveal_strlit("1:1");
        reveal_strlit("64k");
        reveal_strlit("burst");
        reveal_strlit("ceil");
        reveal_strlit("classid");
        reveal_strlit("htb");
        reveal_strlit("mbit");
        reveal_strlit("mbit burst 64k quantum ");
        reveal_strlit("mbit ceil ");
        reveal_strlit("parent");
        reveal_strlit("quantum");
        reveal_strlit("rate");
    }
}

proof fn lemma_class_words(d: DerivationV, b: BandV)
    requires
        plain(d.dev),
    ensures
        split(class_command(d, b), ' ') == seq![
            "tc"@,
            "class"@,
            "add"@,
            "dev"@,
            d.dev,
            "parent"@,
            "1:1"@,
            "classid"@,
            "1:"@ + dec(b.minor),
            "htb"@,
            "rate"@,
            rate_word(b.eff),
            "ceil"@,
            dec(d.l) + "mbit"@,
            "prio"@,
            dec(b.prio as nat),
            "burst"@,
            "64k"@,
            "quantum"@,
            dec(quantum_of(b.eff)),
        ],
{
    lemma_words_0(d.dev);
    let p0 = "tc class add dev "@ + d.dev;
    lemma_plain_dec(b.minor);
    lemma_words_1(p0, dec(b.minor));
    let p1 = p0 + " parent 1:1 classid 1:"@ + dec(b.minor);
    lemma_plain_rate(b.eff);
    lemma_words_2(p1, rate_word(b.eff));
    let p2 = p1 + " htb rate "@ + rate_word(b.eff);
    lemma_plain_dec(d.l);
    lemma_plain_dec(b.prio as nat);
    lemma_words_3(p2, dec(d.l), dec(b.prio as nat));
    let p3 = p2 + " ceil "@ + dec(d.l) + "mbit prio "@ + dec(b.prio as nat);
    lemma_plain_dec(quantum_of(b.eff));
    lemma_words_4(p3, dec(quantum_of(b.eff)));
    let p4 = p3 + " burst 64k quantum "@ + dec(quantum_of(b.eff));
    assert(class_command(d, b) == p4);
}

proof fn lemma_leaf_words(d: DerivationV, b: BandV)
    requires
        plain(d.dev),
    ensures
        split(leaf_command(d, b), ' ') == seq![
            "tc"@,
            "qdisc"@,
            "add"@,
            "dev"@,
            d.dev,
            "parent"@,
            "1:"@ + dec(b.minor),
            "handle"@,
            dec(b.minor) + ":"@,
            "fq_codel"@,
        ],
{
    lemma_words_5(d.dev);
    let p0 = "tc qdisc add dev "@ + d.dev;
    lemma_plain_dec(b.minor);
    lemma_words_6(p0, dec(b.minor));
    let p1 = p0 + " parent 1:"@ + dec(b.minor);
    lemma_plain_dec(b.minor);
    lemma_words_7(p1, dec(b.minor));
    let p2 = p1 + " handle "@ + dec(b.minor) + ": fq_codel"@;
    assert(leaf_command(d, b) == p2);
}

proof fn lemma_untagged_words(d: DerivationV, b: BandV, n: nat)
    requires
        plain(d.dev),
        b.class == BandClass::Untagged,
    ensures
        split(filter_command(d, b, n), ' ') == seq![
            "tc"@,
            "filter"@,
            "add"@,
            "dev"@,
            d.dev,
            "parent"@,
            "1:"@,
            "protocol"@,
            "ip"@,
            "prio"@,
            dec(n),
            "flower"@,
            "flowid"@,
            "1:"@ + dec(b.minor),
        ],
{
    lemma_words_8(d.dev);
    let p0 = "tc filter add dev "@ + d.dev;
    lemma_plain_dec(n);
    lemma_words_9(p0, dec(n));
    let p1 = p0 + " parent 1: protocol ip prio "@ + dec(n);
    lemma_plain_dec(b.minor);
    lemma_words_10(p1, dec(b.minor));
    let p2 = p1 + " flower flowid 1:"@ + dec(b.minor);
    assert(filter_command(d, b, n) == p2);
}

proof fn lemma_tagged_words(d: DerivationV, b: BandV, n: nat, p: Dscp)
    requires
        plain(d.dev),
        b.class == BandClass::Dscp(p),
    ensures
        split(filter_command(d, b, n), ' ') == seq![
            "tc"@,
            "filter"@,
            "add"@,
            "dev"@,
            d.dev,
            "parent"@,
            "1:"@,
            "protocol"@,
            "802.1Q"@,
            "prio"@,
            dec(n),
            "flower"@,
            "vlan_ethtype"@,
            "ip"@,
            "ip_tos"@,
            tos_text(p),
            "flowid"@,
            "1:"@ + dec(b.minor),
        ],
{
    lemma_words_8(d.dev);
    let p0 = "tc filter add dev "@ + d.dev;
    lemma_plain_dec(n);
    lemma_words_11(p0, dec(n));
    let p1 = p0 + " parent 1: protocol 802.1Q prio "@ + dec(n);
    lemma_plain_tos(p);
    lemma_words_12(p1, tos_text(p));
    let p2 = p1 + " flower vlan_ethtype ip ip_tos "@ + tos_text(p);
    lemma_plain_dec(b.minor);
    lemma_words_13(p2, dec(b.minor));
    let p3 = p2 + " flowid 1:"@ + dec(b.minor);
    assert(filter_command(d, b, n) == p3);
}

proof fn lemma_del_words(d: DerivationV)
    requires
        plain(d.dev),
    ensures
        split(root_commands(d)[0].0, ' ') == seq![
            "tc"@,
            "qdisc"@,
            "del"@,
            "dev"@,
            d.dev,
            "root"@,
        ],
{
    lemma_words_14(d.dev);
    let p0 = "tc qdisc del dev "@ + d.dev;
    lemma_words_15(p0);
    let p1 = p0 + " root"@;
    assert(root_commands(d)[0].0 == p1);
}

proof fn lemma_root_words(d: DerivationV)
    requires
        plain(d.dev),
    ensures
        split(root_commands(d)[1].0, ' ') == seq![
            "tc"@,
            "qdisc"@,
            "add"@,
            "dev"@,
            d.dev,
            "root"@,
            "handle"@,
            "1:"@,
            "htb"@,
            "default"@,
            dec(d.default_minor),
        ],
{
    lemma_words_5(d.dev);
    let p0 = "tc qdisc add dev "@ + d.dev;
    lemma_plain_dec(d.default_minor);
    lemma_words_16(p0, dec(d.default_minor));
    let p1 = p0 + " root handle 1: htb default "@ + dec(d.default_minor);
    assert(root_commands(d)[1].0 == p1);
}

proof fn lemma_top_words(d: DerivationV)
    requires
        plain(d.dev),
    ensures
        split(root_commands(d)[2].0, ' ') == seq![
            "tc"@,
            "class"@,
            "add"@,
            "dev"@,
            d.dev,
            "parent"@,
            "1:"@,
            "classid"@,
            "1:1"@,
            "htb"@,
            "rate"@,
            dec(d.l) + "mbit"@,
            "ceil"@,
            dec(d.l) + "mbit"@,
            "burst"@,
            "64k"@,
            "quantum"@,
            dec(quantum_of(d.l)),
        ],
{
    lemma_words_0(d.dev);
    let p0 = "tc class add dev "@ + d.dev;
    lemma_plain_dec(d.l);
    lemma_plain_dec(d.l);
    lemma_plain_dec(quantum_of(d.l));
    lemma_words_17(p0, dec(d.l), dec(d.l), dec(quantum_of(d.l)));
    let p1 = p0 + " parent 1: classid 1:1 htb rate "@ + dec(d.l) + "mbit ceil "@ + dec(d.l) + "mbit burst 64k quantum "@ + dec(quantum_of(d.l));
    assert(root_commands(d)[2].0 == p1);
}

// ---- where the commands stand ----

proof fn lemma_class_place(d: DerivationV, n: int, i: int)
    requires
        0 <= i < n <= d.bands.len(),
    ensures
        class_commands(d, n).len() == n,
        leaf_commands(d, n).len() == n,
        class_commands(d, n)[i] == (class_command(d, d.bands[i]), false),
        leaf_commands(d, n)[i] == (leaf_command(d, d.bands[i]), false),
    decreases n,
{
    lemma_commands_len(d, n);
    if i < n - 1 {
        lemma_class_place(d, n - 1, i);
    } else {
        lemma_commands_len(d, n - 1);
    }
}

proof fn lemma_commands_len(d: DerivationV, n: int)
    requires
        0 <= n <= d.bands.len(),
    ensures
        class_commands(d, n).len() == n,
        leaf_commands(d, n).len() == n,
        filter_commands(d, n).len() == filters(d.bands, n),
    decreases n,
{
    if n > 0 {
        lemma_commands_len(d, n - 1);
    }
}

proof fn lemma_filter_place(d: DerivationV, n: int, i: int)
    requires
        0 <= i < n <= d.bands.len(),
        !d.bands[i].is_default,
    ensures
        1 <= filters(d.bands, i + 1) <= filters(d.bands, n),
        filter_commands(d, n)[filters(d.bands, i + 1) - 1] == (
            filter_command(d, d.bands[i], filters(d.bands, i + 1)),
            false,
        ),
    decreases n,
{
    lemma_commands_len(d, n - 1);
    lemma_commands_len(d, n);
    if i < n - 1 {
        lemma_filter_place(d, n - 1, i);
    }
}

// ---- the laws ----

/// The rate that a class is given: whole megabits, and the smallest there is for none.
pub open spec fn rate_given(mbps: nat) -> Seq<char> {
    if mbps == 0 {
        "1kbit"@
    } else {
        dec(mbps) + "mbit"@
    }
}

/// The program begins by removing what was there, which may fail, and puts up a root whose
/// default is the default band and whose one class has the whole link as its rate and its
/// ceiling.
#[verifier::rlimit(60)]
pub proof fn lemma_the_root_of_the_program(d: DerivationV)
    requires
        plain(d.dev),
    ensures
        ({
            let a = argv_of(tc_commands(d));
            let link = dec(d.l) + "mbit"@;
            &&& a.len() == 3 + 2 * d.bands.len() + filters(d.bands, d.bands.len() as int)
            &&& a[0] == (seq!["tc"@, "qdisc"@, "del"@, "dev"@, d.dev, "root"@], true)
            &&& a[1] == (
                seq![
                    "tc"@,
                    "qdisc"@,
                    "add"@,
                    "dev"@,
                    d.dev,
                    "root"@,
                    "handle"@,
                    "1:"@,
                    "htb"@,
                    "default"@,
                    dec(d.default_minor),
                ],
                false,
            )
            &&& a[2].0.take(14) == seq![
                "tc"@,
                "class"@,
                "add"@,
                "dev"@,
                d.dev,
                "parent"@,
                "1:"@,
                "classid"@,
                "1:1"@,
                "htb"@,
                "rate"@,
                link,
                "ceil"@,
                link,
            ]
            &&& !a[2].1
        }),
{
    let n = d.bands.len() as int;
    lemma_commands_len(d, n);
    lemma_del_words(d);
    lemma_root_words(d);
    lemma_top_words(d);
    let c = tc_commands(d);
    assert(c[0] == root_commands(d)[0]);
    assert(c[1] == root_commands(d)[1]);
    assert(c[2] == root_commands(d)[2]);
    let a = argv_of(c);
    assert(a[2].0.take(14) =~= seq![
        "tc"@,
        "class"@,
        "add"@,
        "dev"@,
        d.dev,
        "parent"@,
        "1:"@,
        "classid"@,
        "1:1"@,
        "htb"@,
        "rate"@,
        dec(d.l) + "mbit"@,
        "ceil"@,
        dec(d.l) + "mbit"@,
    ]);
}

/// Every band has a class under the root's, with its effective rate as its guarantee and the
/// whole link as its ceiling, so that what is idle is lent; with its priority, and a quantum by
/// its rate. And it has a queue of its own under that class.
pub proof fn lemma_a_class_for_every_band(d: DerivationV, i: int)
    requires
        plain(d.dev),
        0 <= i < d.bands.len(),
    ensures
        ({
            let a = argv_of(tc_commands(d));
            let b = d.bands[i];
            let class = "1:"@ + dec(b.minor);
            let c = a[3 + i].0;
            &&& !a[3 + i].1
            &&& c.len() == 20
            &&& c.take(10) == seq![
                "tc"@,
                "class"@,
                "add"@,
                "dev"@,
                d.dev,
                "parent"@,
                "1:1"@,
                "classid"@,
                class,
                "htb"@,
            ]
            &&& c[10] == "rate"@ && c[11] == rate_given(b.eff)
            &&& c[12] == "ceil"@ && c[13] == dec(d.l) + "mbit"@
            &&& c[14] == "prio"@ && c[15] == dec(b.prio as nat)
            &&& c[16] == "burst"@ && c[17] == "64k"@
            &&& c[18] == "quantum"@ && c[19] == dec(
                if b.eff >= 1000 {
                    60000
                } else {
                    1514
                },
            )
            &&& a[3 + d.bands.len() + i] == (
                seq![
                    "tc"@,
                    "qdisc"@,
                    "add"@,
                    "dev"@,
                    d.dev,
                    "parent"@,
                    class,
                    "handle"@,
                    dec(b.minor) + ":"@,
                    "fq_codel"@,
                ],
                false,
            )
        }),
{
    let n = d.bands.len() as int;
    let b = d.bands[i];
    lemma_commands_len(d, n);
    lemma_class_place(d, n, i);
    lemma_class_words(d, b);
    lemma_leaf_words(d, b);
    let c = tc_commands(d);
    assert(c[3 + i] == (class_command(d, b), false));
    assert(c[3 + n + i] == (leaf_command(d, b), false));
    let a = argv_of(c);
    assert(a[3 + i].0.take(10) =~= seq![
        "tc"@,
        "class"@,
        "add"@,
        "dev"@,
        d.dev,
        "parent"@,
        "1:1"@,
        "classid"@,
        "1:"@ + dec(b.minor),
        "htb"@,
    ]);
}

/// Every band but the default has a filter that leads to its class, numbered in their order: on
/// the code point inside the tag for a zone, and on what has no tag for the administration.
pub proof fn lemma_a_filter_for_every_other_band(d: DerivationV, i: int)
    requires
        plain(d.dev),
        0 <= i < d.bands.len(),
        !d.bands[i].is_default,
    ensures
        filters(d.bands, 0) == 0,
        filters(d.bands, i + 1) == filters(d.bands, i) + 1,
        ({
            let a = argv_of(tc_commands(d));
            let b = d.bands[i];
            let k = filters(d.bands, i + 1);
            let f = a[3 + 2 * d.bands.len() + k - 1];
            let head = seq!["tc"@, "filter"@, "add"@, "dev"@, d.dev, "parent"@, "1:"@];
            &&& !f.1
            &&& match b.class {
                BandClass::Untagged => f.0 == head + seq![
                    "protocol"@,
                    "ip"@,
                    "prio"@,
                    dec(k),
                    "flower"@,
                    "flowid"@,
                    "1:"@ + dec(b.minor),
                ],
                BandClass::Dscp(p) => f.0 == head + seq![
                    "protocol"@,
                    "802.1Q"@,
                    "prio"@,
                    dec(k),
                    "flower"@,
                    "vlan_ethtype"@,
                    "ip"@,
                    "ip_tos"@,
                    match p {
                        Dscp::Cs0 => "0x00"@,
                        Dscp::Cs2 => "0x40"@,
                        Dscp::Cs6 => "0xc0"@,
                    },
                    "flowid"@,
                    "1:"@ + dec(b.minor),
                ],
            }
        }),
{
    let n = d.bands.len() as int;
    let b = d.bands[i];
    lemma_commands_len(d, n);
    lemma_filter_place(d, n, i);
    let k = filters(d.bands, i + 1);
    let c = tc_commands(d);
    assert(c[3 + 2 * n + k - 1] == (filter_command(d, b, k), false));
    let a = argv_of(c);
    let f = a[3 + 2 * n + k - 1];
    let head = seq!["tc"@, "filter"@, "add"@, "dev"@, d.dev, "parent"@, "1:"@];
    match b.class {
        BandClass::Untagged => {
            lemma_untagged_words(d, b, k);
            assert(f.0 =~= head + seq![
                "protocol"@,
                "ip"@,
                "prio"@,
                dec(k),
                "flower"@,
                "flowid"@,
                "1:"@ + dec(b.minor),
            ]);
        },
        BandClass::Dscp(p) => {
            lemma_tagged_words(d, b, k, p);
            assert(f.0 =~= head + seq![
                "protocol"@,
                "802.1Q"@,
                "prio"@,
                dec(k),
                "flower"@,
                "vlan_ethtype"@,
                "ip"@,
                "ip_tos"@,
                tos_text(p),
                "flowid"@,
                "1:"@ + dec(b.minor),
            ]);
        },
    }
}

/// What is recorded of a band is its class and the rate as the kernel prints it: in gigabits where
/// that is a whole number, else in megabits, and the smallest there is for none.
pub proof fn lemma_what_is_recorded_of_a_band(b: Seq<BandV>, i: int)
    requires
        0 <= i < b.len(),
    ensures
        classes_of(b).len() == b.len(),
        classes_of(b)[i].0 == "1:"@ + dec(b[i].minor),
        b[i].eff == 0 ==> classes_of(b)[i].1 == "1Kbit"@,
        forall|g: nat| g > 0 && b[i].eff == g * 1000 ==> classes_of(b)[i].1 == #[trigger] dec(g)
            + "Gbit"@,
        b[i].eff > 0 && b[i].eff % 1000 != 0 ==> classes_of(b)[i].1 == dec(b[i].eff) + "Mbit"@,
        expect_text(b, i + 1) == expect_text(b, i) + ("1:"@ + dec(b[i].minor) + " "@ + dec(b[i].eff)
            + "\n"@),
        expect_text(b, 0).len() == 0,
{
    assert forall|g: nat| g > 0 && b[i].eff == g * 1000 implies classes_of(b)[i].1
        == #[trigger] dec(g) + "Gbit"@ by {
        assert(b[i].eff / 1000 == g);
        assert(b[i].eff % 1000 == 0);
    }
}

} // verus!
