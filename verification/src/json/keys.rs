//! What is found under a key.

use vstd::prelude::*;

use crate::json::{same_value, JsonV};

verus! {

proof fn lemma_place_at(e: Seq<(Seq<char>, JsonV)>, k: int, i: int)
    requires
        0 <= i <= k < e.len(),
        forall|j: int| 0 <= j < k ==> (#[trigger] e[j]).0 != e[k].0,
    ensures
        JsonV::place(e, e[k].0, i) == k,
    decreases k - i,
{
    if i < k {
        lemma_place_at(e, k, i + 1);
    }
}

/// The value of an entry is found under its key, where no earlier entry has that key.
pub proof fn lemma_found_under_its_key(e: Seq<(Seq<char>, JsonV)>, k: int)
    requires
        0 <= k < e.len(),
        forall|j: int| 0 <= j < k ==> (#[trigger] e[j]).0 != e[k].0,
    ensures
        JsonV::Obj(e).at(e[k].0) == e[k].1,
        JsonV::Obj(e).has(e[k].0),
{
    lemma_place_at(e, k, 0);
}

/// Where a key is looked for: at the first entry that has it, and nowhere where none has.
pub proof fn lemma_place(e: Seq<(Seq<char>, JsonV)>, key: Seq<char>, i: int)
    requires
        0 <= i <= e.len(),
    ensures
        i <= JsonV::place(e, key, i) <= e.len(),
        JsonV::place(e, key, i) < e.len() ==> e[JsonV::place(e, key, i)].0 == key,
        forall|j: int| i <= j < JsonV::place(e, key, i) ==> (#[trigger] e[j]).0 != key,
    decreases e.len() - i,
{
    if i < e.len() && e[i].0 != key {
        lemma_place(e, key, i + 1);
    }
}

/// A value that is put under a key is found there, and what stands under another key is not
/// touched.
pub proof fn lemma_put_and_found(o: JsonV, key: Seq<char>, val: JsonV, other: Seq<char>)
    requires
        o is Obj,
    ensures
        o.set(key, val).at(key) == val,
        o.set(key, val).has(key),
        other != key ==> o.set(key, val).at(other) == o.at(other),
        other != key ==> o.set(key, val).has(other) == o.has(other),
        !o.has(key) ==> o.with(key, val).at(key) == val,
        other != key ==> o.with(key, val).at(other) == o.at(other),
{
    let e = o->Obj_0;
    let s = o.set(key, val)->Obj_0;
    let w = o.with(key, val)->Obj_0;
    lemma_place(e, key, 0);
    lemma_place(s, key, 0);
    lemma_place(w, key, 0);
    lemma_place(e, other, 0);
    lemma_place(s, other, 0);
    lemma_place(w, other, 0);
    let k = JsonV::place(e, key, 0);
    let a = JsonV::place(s, key, 0);
    assert(s[k] == (key, val));
    assert(a == k) by {
        if a < k {
            assert(e[a].0 == key);
        }
    }
    if other != key {
        let x = JsonV::place(e, other, 0);
        let y = JsonV::place(s, other, 0);
        let z = JsonV::place(w, other, 0);
        assert forall|j: int| 0 <= j < e.len() implies (s[j].0 == other <==> (#[trigger] e[j]).0
            == other) && (e[j].0 == other ==> s[j] == e[j]) && w[j] == e[j] by {}
        if x < e.len() {
            assert(s[x].0 == other);
            assert(w[x].0 == other);
            assert(!(y < x)) by {
                if y < x {
                    assert(e[y].0 != other);
                }
            }
            assert(!(z < x)) by {
                if z < x {
                    assert(e[z].0 != other);
                }
            }
            assert(x == y && x == z);
        } else {
            if y < s.len() {
                assert(y < e.len());
                assert(e[y].0 != other);
            }
            if z < w.len() {
                assert(z < e.len());
                assert(e[z].0 != other);
            }
        }
    }
    if !o.has(key) {
        assert(w[e.len() as int] == (key, val));
        let b = JsonV::place(w, key, 0);
        if b < e.len() {
            assert(e[b].0 != key);
        }
    }
}

/// Two texts, two numbers or two truths are the same where they are equal, and nothing is the same
/// as what is of another kind; two lists are the same item by item.
pub proof fn lemma_what_is_the_same(a: Seq<char>, b: Seq<char>, v: Seq<JsonV>, w: Seq<JsonV>)
    ensures
        same_value(JsonV::Str(a), JsonV::Str(b)) <==> a == b,
        !same_value(JsonV::Str(a), JsonV::Null),
        same_value(JsonV::Null, JsonV::Null),
        same_value(JsonV::Arr(v), JsonV::Arr(w)) <==> v.len() == w.len() && forall|i: int|
            0 <= i < v.len() ==> same_value(#[trigger] v[i], w[i]),
{
}

} // verus!
