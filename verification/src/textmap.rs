//! A map from texts to values that is walked in the order of its keys.

use vstd::prelude::*;

use crate::text::{chars_of, str_eq};

verus! {

/// Does `a` sort before `b`, from position `i` on? The order of the code points.
pub open spec fn lt_from(a: Seq<char>, b: Seq<char>, i: int) -> bool
    decreases b.len() - i,
{
    if i >= b.len() {
        false
    } else if i >= a.len() {
        true
    } else if a[i] == b[i] {
        lt_from(a, b, i + 1)
    } else {
        a[i] < b[i]
    }
}

/// Does `a` sort before `b`?
pub open spec fn text_lt(a: Seq<char>, b: Seq<char>) -> bool {
    lt_from(a, b, 0)
}

proof fn lemma_lt_from_total(a: Seq<char>, b: Seq<char>, i: int)
    requires
        0 <= i <= a.len(),
        i <= b.len(),
        forall|j: int| 0 <= j < i ==> a[j] == b[j],
    ensures
        lt_from(a, b, i) || lt_from(b, a, i) || a == b,
        !(lt_from(a, b, i) && lt_from(b, a, i)),
        a == b ==> !lt_from(a, b, i),
    decreases b.len() - i,
{
    if i < a.len() && i < b.len() && a[i] == b[i] {
        lemma_lt_from_total(a, b, i + 1);
    } else if i >= a.len() && i >= b.len() {
        assert(a =~= b);
    }
}

/// Of two different texts exactly one sorts before the other.
pub proof fn lemma_text_lt_total(a: Seq<char>, b: Seq<char>)
    ensures
        text_lt(a, b) || text_lt(b, a) || a == b,
        !(text_lt(a, b) && text_lt(b, a)),
        a == b ==> !text_lt(a, b),
{
    lemma_lt_from_total(a, b, 0);
}

proof fn lemma_lt_from_trans(a: Seq<char>, b: Seq<char>, c: Seq<char>, i: int)
    requires
        0 <= i,
        lt_from(a, b, i),
        lt_from(b, c, i),
    ensures
        lt_from(a, c, i),
    decreases c.len() - i,
{
    if i < a.len() && i < b.len() && i < c.len() && a[i] == b[i] && b[i] == c[i] {
        lemma_lt_from_trans(a, b, c, i + 1);
    }
}

pub proof fn lemma_text_lt_trans(a: Seq<char>, b: Seq<char>, c: Seq<char>)
    requires
        text_lt(a, b),
        text_lt(b, c),
    ensures
        text_lt(a, c),
{
    lemma_lt_from_trans(a, b, c, 0);
}

pub fn sorts_before(a: &str, b: &str) -> (r: bool)
    ensures
        r == text_lt(a@, b@),
{
    let x = chars_of(a);
    let y = chars_of(b);
    let mut i: usize = 0;
    while i < y.len()
        invariant
            x@ == a@,
            y@ == b@,
            i <= y@.len(),
            i <= x@.len(),
            text_lt(a@, b@) == lt_from(a@, b@, i as int),
        decreases y@.len() - i,
    {
        if i >= x.len() {
            return true;
        }
        if x[i] != y[i] {
            return x[i] < y[i];
        }
        i = i + 1;
    }
    false
}

/// The entries of a map, in the order of their keys. No key occurs twice.
#[derive(Debug, PartialEq, Eq)]
pub struct TextMap<V> {
    entries: Vec<(String, V)>,
}

impl<V> TextMap<V> {
    /// The keys, in order.
    pub closed spec fn keys(self) -> Seq<Seq<char>> {
        Seq::new(self.entries@.len(), |i: int| self.entries@[i].0@)
    }

    /// The values, in the order of their keys.
    pub closed spec fn values(self) -> Seq<V> {
        Seq::new(self.entries@.len(), |i: int| self.entries@[i].1)
    }

    /// Every key sorts before those behind it, and each has a value.
    pub open spec fn wf(self) -> bool {
        &&& self.keys().len() == self.values().len()
        &&& forall|i: int, j: int|
            0 <= i < j < self.keys().len() ==> text_lt(#[trigger] self.keys()[i], #[trigger] self.keys()[j])
    }

    pub proof fn lemma_len(self)
        ensures
            self.keys().len() == self.values().len(),
    {
    }

    /// Where `k` stands, if it is a key.
    pub open spec fn at(self, k: Seq<char>, i: int) -> bool {
        0 <= i < self.keys().len() && self.keys()[i] == k
    }

    pub open spec fn has(self, k: Seq<char>) -> bool {
        exists|i: int| #[trigger] self.at(k, i)
    }

    /// The value of the key `k`.
    pub open spec fn value_of(self, k: Seq<char>) -> V {
        self.values()[choose|i: int| #[trigger] self.at(k, i)]
    }

    pub fn new() -> (r: TextMap<V>)
        ensures
            r.wf(),
            r.keys() == Seq::<Seq<char>>::empty(),
            r.values() == Seq::<V>::empty(),
    {
        let r = TextMap { entries: Vec::new() };
        assert(r.keys() =~= Seq::<Seq<char>>::empty());
        assert(r.values() =~= Seq::<V>::empty());
        r
    }

    pub fn len(&self) -> (r: usize)
        ensures
            r == self.keys().len(),
    {
        self.entries.len()
    }

    pub fn is_empty(&self) -> (r: bool)
        ensures
            r == (self.keys().len() == 0),
    {
        self.entries.len() == 0
    }

    pub fn key_at(&self, i: usize) -> (r: &String)
        requires
            i < self.keys().len(),
        ensures
            r@ == self.keys()[i as int],
    {
        &self.entries[i].0
    }

    pub fn value_at(&self, i: usize) -> (r: &V)
        requires
            i < self.keys().len(),
        ensures
            *r == self.values()[i as int],
    {
        &self.entries[i].1
    }

    /// The first place whose key does not sort before `k`.
    fn place(&self, k: &str) -> (r: usize)
        requires
            self.wf(),
        ensures
            r <= self.keys().len(),
            forall|j: int| 0 <= j < r ==> text_lt(#[trigger] self.keys()[j], k@),
            r < self.keys().len() ==> !text_lt(self.keys()[r as int], k@),
    {
        let mut i: usize = 0;
        while i < self.entries.len()
            invariant
                i <= self.entries@.len(),
                self.keys().len() == self.entries@.len(),
                forall|j: int| 0 <= j < i ==> text_lt(#[trigger] self.keys()[j], k@),
            decreases self.entries@.len() - i,
        {
            if !sorts_before(self.entries[i].0.as_str(), k) {
                return i;
            }
            i = i + 1;
        }
        i
    }

    /// Which place holds the key `k`?
    pub fn find(&self, k: &str) -> (r: Option<usize>)
        requires
            self.wf(),
        ensures
            match r {
                Some(i) => self.at(k@, i as int),
                None => !self.has(k@),
            },
    {
        let i = self.place(k);
        if i < self.entries.len() && str_eq(self.entries[i].0.as_str(), k) {
            return Some(i);
        }
        proof {
            if self.has(k@) {
                let j = choose|j: int| #[trigger] self.at(k@, j);
                lemma_text_lt_total(k@, k@);
                if j > i {
                    lemma_text_lt_total(self.keys()[i as int], k@);
                    assert(text_lt(self.keys()[i as int], self.keys()[j]));
                }
            }
        }
        None
    }

    pub fn get(&self, k: &str) -> (r: Option<&V>)
        requires
            self.wf(),
        ensures
            match r {
                Some(v) => self.has(k@) && *v == self.value_of(k@),
                None => !self.has(k@),
            },
    {
        match self.find(k) {
            Some(i) => {
                proof {
                    self.lemma_at_unique(k@, i as int);
                }
                Some(&self.entries[i].1)
            },
            None => None,
        }
    }

    /// A key stands in one place only.
    pub proof fn lemma_at_unique(self, k: Seq<char>, i: int)
        requires
            self.wf(),
            self.at(k, i),
        ensures
            self.has(k),
            self.value_of(k) == self.values()[i],
            forall|j: int| #[trigger] self.at(k, j) ==> j == i,
    {
        assert forall|j: int| #[trigger] self.at(k, j) implies j == i by {
            lemma_text_lt_total(k, k);
            if j < i {
                assert(text_lt(self.keys()[j], self.keys()[i]));
            } else if i < j {
                assert(text_lt(self.keys()[i], self.keys()[j]));
            }
        }
    }

    /// Give the key `k` the value `v`: where it is a key already, its value is replaced, else
    /// it takes its place in the order.
    pub fn insert(&mut self, k: String, v: V)
        requires
            old(self).wf(),
        ensures
            final(self).wf(),
            final(self).has(k@),
            final(self).value_of(k@) == v,
            forall|x: Seq<char>|
                x != k@ ==> #[trigger] final(self).has(x) == old(self).has(x),
            forall|x: Seq<char>|
                x != k@ && old(self).has(x) ==> #[trigger] final(self).value_of(x)
                    == old(self).value_of(x),
            old(self).has(k@) ==> final(self).keys() == old(self).keys(),
    {
        let ghost before = *self;
        let i = self.place(k.as_str());
        if i < self.entries.len() && str_eq(self.entries[i].0.as_str(), k.as_str()) {
            assert(before.at(k@, i as int));
            self.entries[i] = (k, v);
            proof {
                assert(self.keys() =~= before.keys());
                assert(self.values() =~= before.values().update(i as int, v));
                assert(self.at(k@, i as int));
                self.lemma_at_unique(k@, i as int);
                assert forall|x: Seq<char>| x != k@ implies #[trigger] self.has(x) == before.has(
                    x,
                ) by {
                    if before.has(x) {
                        let j = choose|j: int| #[trigger] before.at(x, j);
                        assert(self.at(x, j));
                    }
                    if self.has(x) {
                        let j = choose|j: int| #[trigger] self.at(x, j);
                        assert(before.at(x, j));
                    }
                }
                assert forall|x: Seq<char>| x != k@ && before.has(x) implies #[trigger] self.value_of(
                    x,
                ) == before.value_of(x) by {
                    let j = choose|j: int| #[trigger] before.at(x, j);
                    assert(self.at(x, j));
                    self.lemma_at_unique(x, j);
                    before.lemma_at_unique(x, j);
                }
            }
        } else {
            let ghost key = k@;
            self.entries.insert(i, (k, v));
            proof {
                before.lemma_len();
                assert(self.keys() =~= before.keys().insert(i as int, key));
                assert(self.values() =~= before.values().insert(i as int, v));
                if i < before.keys().len() {
                    lemma_text_lt_total(before.keys()[i as int], key);
                }
                assert forall|a: int, b: int| 0 <= a < b < self.keys().len() implies text_lt(
                    #[trigger] self.keys()[a],
                    #[trigger] self.keys()[b],
                ) by {
                    if b == i {
                        assert(self.keys()[a] == before.keys()[a]);
                    } else if a == i {
                        assert(self.keys()[b] == before.keys()[b - 1]);
                        if b - 1 > i {
                            lemma_text_lt_trans(
                                key,
                                before.keys()[i as int],
                                before.keys()[b - 1],
                            );
                        }
                    } else {
                        let a0 = if a < i {
                            a
                        } else {
                            a - 1
                        };
                        let b0 = if b < i {
                            b
                        } else {
                            b - 1
                        };
                        assert(self.keys()[a] == before.keys()[a0]);
                        assert(self.keys()[b] == before.keys()[b0]);
                    }
                }
                assert(self.wf());
                assert(self.at(key, i as int));
                self.lemma_at_unique(key, i as int);
                assert(!before.has(key)) by {
                    if before.has(key) {
                        let j = choose|j: int| #[trigger] before.at(key, j);
                        lemma_text_lt_total(key, key);
                        if j > i {
                            assert(text_lt(before.keys()[i as int], before.keys()[j]));
                        }
                    }
                }
                assert forall|x: Seq<char>| x != key implies #[trigger] self.has(x) == before.has(
                    x,
                ) by {
                    if before.has(x) {
                        let j = choose|j: int| #[trigger] before.at(x, j);
                        let j2 = if j < i {
                            j
                        } else {
                            j + 1
                        };
                        assert(self.at(x, j2));
                    }
                    if self.has(x) {
                        let j = choose|j: int| #[trigger] self.at(x, j);
                        let j2 = if j < i {
                            j
                        } else {
                            j - 1
                        };
                        assert(before.at(x, j2));
                    }
                }
                assert forall|x: Seq<char>| x != key && before.has(x) implies #[trigger] self.value_of(
                    x,
                ) == before.value_of(x) by {
                    let j = choose|j: int| #[trigger] before.at(x, j);
                    let j2 = if j < i {
                        j
                    } else {
                        j + 1
                    };
                    assert(self.at(x, j2));
                    self.lemma_at_unique(x, j2);
                    before.lemma_at_unique(x, j);
                }
            }
        }
    }
}

} // verus!
