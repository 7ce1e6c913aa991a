//! What cutting, trimming and ordering texts comes to.

use vstd::prelude::*;

use crate::text::{
    back_space, dup, find, is_space, lemma_find, repeats, rfind, rsplit_once, skip_space, split,
    split_from, split_once, trim,
};
use crate::textmap::{lt_from, text_lt};

verus! {

/// Nothing but white space.
pub open spec fn blank(s: Seq<char>) -> bool {
    forall|i: int| 0 <= i < s.len() ==> is_space(#[trigger] s[i])
}

proof fn lemma_skipped(s: Seq<char>, i: int)
    requires
        0 <= i <= s.len(),
    ensures
        i <= skip_space(s, i) <= s.len(),
        forall|j: int| i <= j < skip_space(s, i) ==> is_space(#[trigger] s[j]),
        skip_space(s, i) < s.len() ==> !is_space(s[skip_space(s, i)]),
    decreases s.len() - i,
{
    if i < s.len() && is_space(s[i]) {
        lemma_skipped(s, i + 1);
    }
}

proof fn lemma_backed(s: Seq<char>, a: int, j: int)
    requires
        0 <= a <= j <= s.len(),
    ensures
        a <= back_space(s, a, j) <= j,
        forall|k: int| back_space(s, a, j) <= k < j ==> is_space(#[trigger] s[k]),
        back_space(s, a, j) > a ==> !is_space(s[back_space(s, a, j) - 1]),
    decreases j - a,
{
    if j > a && is_space(s[j - 1]) {
        lemma_backed(s, a, j - 1);
    }
}

/// To trim is to take the white space off both ends, and nothing else.
pub proof fn lemma_trimmed(s: Seq<char>)
    ensures
        exists|a: Seq<char>, b: Seq<char>|
            s == #[trigger] (a + trim(s) + b) && blank(a) && blank(b),
        trim(s).len() > 0 ==> !is_space(trim(s)[0]) && !is_space(trim(s).last()),
{
    let a = skip_space(s, 0);
    lemma_skipped(s, 0);
    let e = back_space(s, a, s.len() as int);
    lemma_backed(s, a, s.len() as int);
    assert(s =~= s.take(a) + trim(s) + s.skip(e));
    assert(blank(s.take(a)));
    assert(blank(s.skip(e)));
}

/// What has no white space at its ends is not touched.
pub proof fn lemma_trim_of_solid(a: Seq<char>, s: Seq<char>, b: Seq<char>)
    requires
        blank(a),
        blank(b),
        s.len() > 0,
        !is_space(s[0]),
        !is_space(s.last()),
    ensures
        trim(a + s + b) == s,
{
    let t = a + s + b;
    lemma_skipped(t, 0);
    let k = skip_space(t, 0);
    assert(t[a.len() as int] == s[0]);
    assert(k >= a.len()) by {
        if k < a.len() {
            assert(t[k] == a[k]);
        }
    }
    assert(k == a.len());
    lemma_backed(t, k, t.len() as int);
    let e = back_space(t, k, t.len() as int);
    let last = a.len() + s.len() - 1;
    assert(t[last] == s.last());
    assert(e <= last + 1) by {
        if e > last + 1 {
            assert(t[e - 1] == b[e - 1 - a.len() - s.len()]);
        }
    }
    assert(t.subrange(k, e) =~= s);
}

proof fn lemma_found(s: Seq<char>, c: char, i: int, k: int)
    requires
        0 <= i <= k < s.len(),
        s[k] == c,
        forall|j: int| i <= j < k ==> s[j] != c,
    ensures
        find(s, c, i) == k,
    decreases k - i,
{
    if i < k {
        lemma_found(s, c, i + 1, k);
    }
}

/// A text is cut once at the first place that holds the character, and not at all where none does.
pub proof fn lemma_cut_at_the_first(a: Seq<char>, c: char, b: Seq<char>)
    requires
        !a.contains(c),
    ensures
        split_once(a + seq![c] + b, c) == Some((a, b)),
        split_once(a, c) is None,
        split(a + seq![c] + b, c)[0] == a,
        split(a, c) == seq![a],
{
    let s = a + seq![c] + b;
    let k = a.len() as int;
    assert(s[k] == c);
    assert forall|j: int| 0 <= j < k implies s[j] != c by {
        assert(a.contains(a[j]));
    }
    lemma_found(s, c, 0, k);
    assert(s.subrange(0, k) =~= a);
    assert(s.subrange(k + 1, s.len() as int) =~= b);
    lemma_find(a, c, 0);
    assert(find(a, c, 0) == a.len());
    assert(a.subrange(0, a.len() as int) =~= a);
    assert(split_from(s, c, 0) == seq![s.subrange(0, k)] + split_from(s, c, k + 1));
}

proof fn lemma_rfound(s: Seq<char>, c: char, j: int)
    requires
        0 <= j <= s.len(),
    ensures
        -1 <= rfind(s, c, j) < j,
        rfind(s, c, j) >= 0 ==> s[rfind(s, c, j)] == c,
        forall|k: int| rfind(s, c, j) < k < j ==> s[k] != c,
    decreases j,
{
    if j > 0 && s[j - 1] != c {
        lemma_rfound(s, c, j - 1);
    }
}

/// Cut from behind, a text is cut at the last place that holds the character.
pub proof fn lemma_cut_at_the_last(a: Seq<char>, c: char, b: Seq<char>)
    requires
        !b.contains(c),
    ensures
        rsplit_once(a + seq![c] + b, c) == Some((a, b)),
        rsplit_once(b, c) is None,
{
    let s = a + seq![c] + b;
    lemma_rfound(s, c, s.len() as int);
    let k = rfind(s, c, s.len() as int);
    assert(s[a.len() as int] == c);
    assert(k <= a.len()) by {
        if k > a.len() {
            assert(b.contains(b[k - a.len() - 1]));
        }
    }
    assert(k == a.len());
    assert(s.subrange(0, k) =~= a);
    assert(s.subrange(k + 1, s.len() as int) =~= b);
    lemma_rfound(b, c, b.len() as int);
    if rfind(b, c, b.len() as int) >= 0 {
        assert(b.contains(b[rfind(b, c, b.len() as int)]));
    }
}

/// One text sorts before another where it is a start of it, or has the smaller character at the
/// first place where they differ.
pub open spec fn before(a: Seq<char>, b: Seq<char>) -> bool {
    ||| a.len() < b.len() && b.take(a.len() as int) == a
    ||| exists|k: int|
        0 <= k < a.len() && k < b.len() && #[trigger] a[k] < b[k] && a.take(k) == b.take(k)
}

proof fn lemma_lt_from(a: Seq<char>, b: Seq<char>, i: int)
    requires
        0 <= i <= a.len(),
        i <= b.len(),
        a.take(i) == b.take(i),
    ensures
        lt_from(a, b, i) <==> before(a, b),
    decreases b.len() - i,
{
    assert forall|j: int| 0 <= j < i implies a[j] == b[j] by {
        assert(a[j] == a.take(i)[j]);
        assert(b[j] == b.take(i)[j]);
    }
    if i >= b.len() {
        if exists|k: int|
            0 <= k < a.len() && k < b.len() && #[trigger] a[k] < b[k] && a.take(k) == b.take(k) {
            let k = choose|k: int|
                0 <= k < a.len() && k < b.len() && #[trigger] a[k] < b[k] && a.take(k) == b.take(k);
            assert(a[k] == b[k]);
        }
    } else if i >= a.len() {
        assert(b.take(a.len() as int) =~= a);
    } else if a[i] == b[i] {
        assert(a.take(i + 1) =~= b.take(i + 1));
        lemma_lt_from(a, b, i + 1);
    } else {
        if a[i] < b[i] {
            assert(before(a, b));
        }
        if before(a, b) {
            if a.len() < b.len() && b.take(a.len() as int) == a {
                assert(a[i] == b.take(a.len() as int)[i]);
            } else {
                let k = choose|k: int|
                    0 <= k < a.len() && k < b.len() && #[trigger] a[k] < b[k] && a.take(k) == b.take(
                        k,
                    );
                if k > i {
                    assert(a.take(k)[i] == b.take(k)[i]);
                }
                assert(k == i);
            }
        }
    }
}

/// The order of the keys is that of their characters, from the left.
pub proof fn lemma_the_order_of_texts(a: Seq<char>, b: Seq<char>)
    ensures
        text_lt(a, b) <==> before(a, b),
{
    assert(a.take(0) =~= b.take(0));
    lemma_lt_from(a, b, 0);
}

proof fn lemma_first_twin(items: Seq<Seq<char>>, i: int, k: int)
    requires
        0 <= i <= k < items.len(),
        repeats(items, k),
        forall|j: int| i <= j < k ==> !repeats(items, j),
    ensures
        crate::text::dup_from(items, i) == Some(items[k]),
    decreases k - i,
{
    if i < k {
        lemma_first_twin(items, i + 1, k);
    }
}

/// What is said twice is the first item that an earlier one is equal to.
pub proof fn lemma_the_first_twin(items: Seq<Seq<char>>, j: int, k: int)
    requires
        0 <= j < k < items.len(),
        items[j] == items[k],
        forall|a: int, b: int| 0 <= a < b < k ==> #[trigger] items[a] != #[trigger] items[b],
    ensures
        dup(items) == Some(items[k]),
{
    assert(repeats(items, k));
    lemma_first_twin(items, 0, k);
}

/// The first `n` texts, one behind the other.
pub open spec fn concat(s: Seq<Seq<char>>, n: int) -> Seq<char>
    decreases n,
{
    if n <= 0 {
        seq![]
    } else {
        concat(s, n - 1) + s[n - 1]
    }
}

} // verus!
