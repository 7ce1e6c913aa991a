//! Laws of the bands of a wire.

use vstd::prelude::*;

use crate::derive::MemberViewV;
use crate::emit::shape::{
    band_at, band_list, band_lt, band_order, class_of, insert_band, sort_bands, BandClass,
};
use crate::model::Dscp;
use crate::textmap::{lemma_text_lt_total, lemma_text_lt_trans};

verus! {

/// No entry comes before one that stands ahead of it.
pub open spec fn bands_sorted(s: Seq<(u32, Seq<char>)>) -> bool {
    forall|i: int, j: int| 0 <= i < j < s.len() ==> !band_lt(#[trigger] s[j], #[trigger] s[i])
}

proof fn lemma_band_lt_trans(a: (u32, Seq<char>), b: (u32, Seq<char>), c: (u32, Seq<char>))
    requires
        band_lt(a, b),
        band_lt(b, c),
    ensures
        band_lt(a, c),
{
    if a.0 == b.0 && b.0 == c.0 {
        lemma_text_lt_trans(a.1, b.1, c.1);
    }
}

proof fn lemma_band_lt_strict(a: (u32, Seq<char>), b: (u32, Seq<char>))
    requires
        band_lt(a, b),
    ensures
        !band_lt(b, a),
{
    lemma_text_lt_total(a.1, b.1);
}

proof fn lemma_insert_band(s: Seq<(u32, Seq<char>)>, x: (u32, Seq<char>), i: int)
    requires
        bands_sorted(s),
        0 <= i <= s.len(),
        forall|k: int| 0 <= k < i ==> !band_lt(x, #[trigger] s[k]),
    ensures
        bands_sorted(insert_band(s, x, i)),
        insert_band(s, x, i).to_multiset() == s.to_multiset().insert(x),
    decreases s.len() - i,
{
    broadcast use vstd::seq_lib::group_to_multiset_ensures;

    let r = insert_band(s, x, i);
    if i >= s.len() {
        assert(r == s.push(x));
    } else if band_lt(x, s[i]) {
        assert(r.remove(i) =~= s);
        assert(r.to_multiset() =~= s.to_multiset().insert(x));
        assert forall|a: int, b: int| 0 <= a < b < r.len() implies !band_lt(
            #[trigger] r[b],
            #[trigger] r[a],
        ) by {
            if a == i {
                let y = s[b - 1];
                if band_lt(y, x) {
                    lemma_band_lt_trans(y, x, s[i]);
                    if b - 1 > i {
                        assert(!band_lt(s[b - 1], s[i]));
                    } else {
                        lemma_band_lt_strict(x, s[i]);
                    }
                }
            } else if b < i {
                assert(r[a] == s[a] && r[b] == s[b]);
            } else if b == i {
                assert(r[a] == s[a]);
            } else if a < i {
                assert(r[a] == s[a] && r[b] == s[b - 1]);
            } else {
                assert(r[a] == s[a - 1] && r[b] == s[b - 1]);
            }
        }
    } else {
        lemma_insert_band(s, x, i + 1);
    }
}

proof fn lemma_sort_bands(s: Seq<(u32, Seq<char>)>, n: int)
    requires
        0 <= n <= s.len(),
    ensures
        bands_sorted(sort_bands(s, n)),
        sort_bands(s, n).to_multiset() == s.take(n).to_multiset(),
    decreases n,
{
    broadcast use vstd::seq_lib::group_to_multiset_ensures;

    if n > 0 {
        lemma_sort_bands(s, n - 1);
        lemma_insert_band(sort_bands(s, n - 1), s[n - 1], 0);
        assert(s.take(n) =~= s.take(n - 1).push(s[n - 1]));
    } else {
        assert(s.take(0) =~= sort_bands(s, n));
    }
}

/// The bands of a wire stand by their number, and by their label where numbers tie; they are
/// those of its zones and of administration, each as often as it is listed.
pub proof fn lemma_bands_are_sorted(v: MemberViewV, dev: Seq<char>)
    ensures
        bands_sorted(band_order(v, dev)),
        band_order(v, dev).to_multiset() == band_list(v, dev).to_multiset(),
{
    let s = band_list(v, dev);
    lemma_sort_bands(s, s.len() as int);
    assert(s.take(s.len() as int) =~= s);
}

/// A bulk zone has its declared floor on one wire at most. On every other it has the token.
pub proof fn lemma_bulk_floor_on_one_wire(
    v: MemberViewV,
    up: Seq<Seq<char>>,
    label: Seq<char>,
    band: u32,
    a: (Seq<char>, int),
    b: (Seq<char>, int),
)
    requires
        class_of(v, label) == BandClass::Dscp(Dscp::Cs0),
        a.0 != b.0,
    ensures
        band_at(v, a.0, up, (band, label), a.1).floor == 1 || band_at(
            v,
            b.0,
            up,
            (band, label),
            b.1,
        ).floor == 1,
{
}

} // verus!
