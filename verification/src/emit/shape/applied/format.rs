//! The record of what was applied, line by line.

use vstd::prelude::*;

use crate::emit::shape::applied::{
    bad_class, class_words, line_of, lines_refusal, record_refusal, record_text, rest_of, spaced,
    wire_body, wires_map, AppliedV, LineV,
};
use crate::text::lines::{begins, lines};
use crate::text::reading::concat;
use crate::text::{dec, parse_uint, trim};

verus! {

/// What is written of a wire: its classes with their rates, that it has no carrier, or what went
/// wrong, on one line.
pub proof fn lemma_what_is_written_of_a_wire(
    dev: Seq<char>,
    c: Seq<(Seq<char>, Seq<char>)>,
    m: Seq<char>,
)
    ensures
        wire_body(dev, AppliedV::Shaped(c)) == "dev "@ + dev + " "@ + ("shaped"@ + concat(
            Seq::new(c.len(), |i: int| " "@ + c[i].0 + "="@ + c[i].1),
            c.len() as int,
        )),
        wire_body(dev, AppliedV::NoCarrier) == "dev "@ + dev + " "@ + "no-carrier"@,
        wire_body(dev, AppliedV::Failed(m)) == "dev "@ + dev + " "@ + ("failed "@ + spaced(m)),
        spaced(m).len() == m.len(),
        forall|i: int|
            0 <= i < m.len() ==> #[trigger] spaced(m)[i] == if m[i] == '\n' {
                ' '
            } else {
                m[i]
            },
{
    lemma_classes(c, c.len() as int);
}

proof fn lemma_classes(c: Seq<(Seq<char>, Seq<char>)>, n: int)
    requires
        0 <= n <= c.len(),
    ensures
        class_words(c, n) == concat(Seq::new(c.len(), |i: int| " "@ + c[i].0 + "="@ + c[i].1), n),
    decreases n,
{
    if n > 0 {
        lemma_classes(c, n - 1);
    }
}

/// A record is its head, the tick that wrote it, and a line for every wire.
pub proof fn lemma_what_a_record_is(
    tick: nat,
    devs: Seq<Seq<char>>,
    wires: Seq<AppliedV>,
    n: int,
)
    requires
        0 <= n <= devs.len(),
        devs.len() == wires.len(),
    ensures
        record_text(tick, devs, wires, n) == "cfab-shape-applied 1\n"@ + ("tick "@ + dec(tick)
            + "\n"@) + concat(
            Seq::new(devs.len(), |i: int| wire_body(devs[i], wires[i]) + "\n"@),
            n,
        ),
    decreases n,
{
    let head = "cfab-shape-applied 1\n"@ + ("tick "@ + dec(tick) + "\n"@);
    let s = Seq::new(devs.len(), |i: int| wire_body(devs[i], wires[i]) + "\n"@);
    if n > 0 {
        lemma_what_a_record_is(tick, devs, wires, n - 1);
        assert(head + concat(s, n - 1) + s[n - 1] =~= head + (concat(s, n - 1) + s[n - 1]));
    } else {
        assert(head + concat(s, 0) =~= head);
    }
}

proof fn lemma_refused_at(l: Seq<Seq<char>>, i: int, k: int)
    requires
        0 <= i <= k <= l.len(),
        forall|j: int| i <= j < k ==> !(line_of(#[trigger] l[j]) is Bad),
        k < l.len() ==> line_of(l[k]) is Bad,
    ensures
        lines_refusal(l, i) == if k < l.len() {
            Some(line_of(l[k])->Bad_0)
        } else {
            None
        },
    decreases k - i,
{
    if i < k {
        assert(!(line_of(l[i]) is Bad));
        lemma_refused_at(l, i + 1, k);
    }
}

/// A record is refused for its head first, for its tick next, and then for the first line that is
/// not of the format.
pub proof fn lemma_why_a_record_is_refused(text: Seq<char>, k: int)
    requires
        2 <= k,
        k <= lines(text).len() || lines(text).len() < 2,
        forall|j: int| 2 <= j < k && j < lines(text).len() ==> !(line_of(#[trigger] lines(text)[j])
            is Bad),
        k < lines(text).len() ==> line_of(lines(text)[k]) is Bad,
    ensures
        ({
            let l = lines(text);
            let head = l.len() > 0 && l[0] == "cfab-shape-applied 1"@;
            let tick = l.len() > 1 && begins(l[1], "tick "@) && parse_uint(
                trim(l[1].skip("tick "@.len() as int)),
                u64::MAX as nat,
            ) is Some;
            &&& !head ==> record_refusal(text) == Some("shape record: bad header"@)
            &&& head && !tick ==> record_refusal(text) == Some("shape record: bad tick line"@)
            &&& head && tick && k < l.len() ==> record_refusal(text) == Some(
                line_of(l[k])->Bad_0,
            )
            &&& head && tick && k == l.len() ==> record_refusal(text) is None
        }),
{
    let l = lines(text);
    if l.len() >= 2 {
        lemma_refused_at(l, 2, k);
    }
}

/// What a line that is not of the format is refused with.
pub proof fn lemma_what_a_bad_line_is_told(line: Seq<char>, dev: Seq<char>, r: Seq<char>)
    ensures
        trim(line).len() > 0 && !begins(line, "dev "@) ==> line_of(line) == LineV::Bad(
            "shape record: bad line '"@ + line + "'"@,
        ),
        trim(line).len() == 0 ==> line_of(line) is Blank,
        r != "no-carrier"@ && !begins(r, "failed "@) && !begins(r, "shaped"@) ==> rest_of(
            line,
            dev,
            r,
        ) == LineV::Bad("shape record: bad line '"@ + line + "'"@),
{
}

proof fn lemma_bad_at(w: Seq<Seq<char>>, i: int, k: int)
    requires
        0 <= i <= k <= w.len(),
        forall|j: int| i <= j < k ==> (#[trigger] w[j]).contains('='),
        k < w.len() ==> !w[k].contains('='),
    ensures
        bad_class(w, i) == if k < w.len() {
            Some(w[k])
        } else {
            None
        },
    decreases k - i,
{
    if i < w.len() {
        crate::text::lemma_find(w[i], '=', 0);
        let f = crate::text::find(w[i], '=', 0);
        if f < w[i].len() {
            assert(w[i].contains(w[i][f]));
        }
        if i < k {
            assert(w[i].contains('='));
            let p = choose|p: int| 0 <= p < w[i].len() && w[i][p] == '=';
            assert(!(p < f));
            lemma_bad_at(w, i + 1, k);
        }
    }
}

/// The first word without an equals sign is the class that is complained of.
pub proof fn lemma_which_class_is_bad(w: Seq<Seq<char>>, k: int)
    requires
        0 <= k <= w.len(),
        forall|j: int| 0 <= j < k ==> (#[trigger] w[j]).contains('='),
        k < w.len() ==> !w[k].contains('='),
    ensures
        k < w.len() ==> bad_class(w, 0) == Some(w[k]),
        k == w.len() ==> bad_class(w, 0) is None,
{
    lemma_bad_at(w, 0, k);
}

/// Where a wire is recorded more than once, the last line of it counts.
pub proof fn lemma_the_last_line_of_a_wire_counts(
    devs: Seq<Seq<char>>,
    wires: Seq<AppliedV>,
    n: int,
    k: int,
)
    requires
        0 <= k < n <= devs.len(),
        devs.len() == wires.len(),
        forall|j: int| k < j < n ==> #[trigger] devs[j] != devs[k],
    ensures
        wires_map(devs, wires, n).dom().contains(devs[k]),
        wires_map(devs, wires, n)[devs[k]] == wires[k],
    decreases n,
{
    if k < n - 1 {
        lemma_the_last_line_of_a_wire_counts(devs, wires, n - 1, k);
    }
}

} // verus!
