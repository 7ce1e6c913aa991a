//! JSON values: the model of one, and how it is read and built.

use vstd::prelude::*;

pub mod keys;
pub mod read;

use crate::text::{str_eq, texts};

verus! {

/// A JSON value. A number is a natural one, a negative one, or any other, which is kept as it is
/// spelled.
#[derive(Debug)]
pub enum Json {
    Null,
    Bool(bool),
    Uint(u64),
    Int(i64),
    Real(String),
    Str(String),
    Arr(Vec<Json>),
    Obj(Vec<(String, Json)>),
}

/// What a JSON value is.
pub enum JsonV {
    Null,
    Bool(bool),
    Uint(u64),
    Int(i64),
    Real(Seq<char>),
    Str(Seq<char>),
    Arr(Seq<JsonV>),
    Obj(Seq<(Seq<char>, JsonV)>),
}

impl Json {
    pub open spec fn model(self) -> JsonV
        decreases self,
    {
        match self {
            Json::Null => JsonV::Null,
            Json::Bool(b) => JsonV::Bool(b),
            Json::Uint(n) => JsonV::Uint(n),
            Json::Int(n) => JsonV::Int(n),
            Json::Real(s) => JsonV::Real(s@),
            Json::Str(s) => JsonV::Str(s@),
            Json::Arr(v) => JsonV::Arr(
                Seq::new(
                    v@.len(),
                    |i: int|
                        if 0 <= i < v@.len() {
                            v@[i].model()
                        } else {
                            JsonV::Null
                        },
                ),
            ),
            Json::Obj(v) => JsonV::Obj(
                Seq::new(
                    v@.len(),
                    |i: int|
                        if 0 <= i < v@.len() {
                            (v@[i].0@, v@[i].1.model())
                        } else {
                            (seq![], JsonV::Null)
                        },
                ),
            ),
        }
    }
}

impl View for Json {
    type V = JsonV;

    open spec fn view(&self) -> JsonV {
        self.model()
    }
}

/// The values of a list.
pub open spec fn models(v: Seq<Json>) -> Seq<JsonV> {
    Seq::new(v.len(), |i: int| v[i].model())
}

/// The entries of an object.
pub open spec fn entries(v: Seq<(String, Json)>) -> Seq<(Seq<char>, JsonV)> {
    Seq::new(v.len(), |i: int| (v[i].0@, v[i].1.model()))
}

/// A list is the list of its values.
pub broadcast proof fn lemma_arr(v: Vec<Json>)
    ensures
        #[trigger] Json::Arr(v).model() == JsonV::Arr(models(v@)),
{
    assert(Json::Arr(v).model()->Arr_0 =~= models(v@));
}

/// An object is the list of its entries.
pub broadcast proof fn lemma_obj(v: Vec<(String, Json)>)
    ensures
        #[trigger] Json::Obj(v).model() == JsonV::Obj(entries(v@)),
{
    assert(Json::Obj(v).model()->Obj_0 =~= entries(v@));
}

pub broadcast proof fn lemma_models_push(v: Seq<Json>, j: Json)
    ensures
        #[trigger] models(v.push(j)) == models(v).push(j.model()),
{
    assert(models(v.push(j)) =~= models(v).push(j.model()));
}

pub proof fn lemma_entries_push(v: Seq<(String, Json)>, k: String, j: Json)
    ensures
        entries(v.push((k, j))) == entries(v).push((k@, j.model())),
{
    assert(entries(v.push((k, j))) =~= entries(v).push((k@, j.model())));
}

// ---- building ----

impl JsonV {
    /// An object without entries.
    pub open spec fn empty() -> JsonV {
        JsonV::Obj(seq![])
    }

    /// The object with one more entry.
    pub open spec fn with(self, key: Seq<char>, val: JsonV) -> JsonV {
        match self {
            JsonV::Obj(e) => JsonV::Obj(e.push((key, val))),
            _ => self,
        }
    }

    /// The first entry from `i` on of this key, or the number of entries.
    pub open spec fn place(e: Seq<(Seq<char>, JsonV)>, key: Seq<char>, i: int) -> int
        decreases e.len() - i,
    {
        if i >= e.len() {
            e.len() as int
        } else if e[i].0 == key {
            i
        } else {
            JsonV::place(e, key, i + 1)
        }
    }

    /// The value under a key, which is null where there is none.
    pub open spec fn at(self, key: Seq<char>) -> JsonV {
        match self {
            JsonV::Obj(e) => {
                let k = JsonV::place(e, key, 0);
                if k < e.len() {
                    e[k].1
                } else {
                    JsonV::Null
                }
            },
            _ => JsonV::Null,
        }
    }

    /// Is there a value under this key?
    pub open spec fn has(self, key: Seq<char>) -> bool {
        self is Obj && JsonV::place(self->Obj_0, key, 0) < self->Obj_0.len()
    }

    /// The object with this value under this key: the entry of that key is replaced where there
    /// is one, and one is added at the end where there is none.
    pub open spec fn set(self, key: Seq<char>, val: JsonV) -> JsonV {
        match self {
            JsonV::Obj(e) => {
                let k = JsonV::place(e, key, 0);
                if k < e.len() {
                    JsonV::Obj(e.update(k, (key, val)))
                } else {
                    JsonV::Obj(e.push((key, val)))
                }
            },
            _ => self,
        }
    }

    /// The values of a list, and none where it is not one.
    pub open spec fn items(self) -> Seq<JsonV> {
        match self {
            JsonV::Arr(v) => v,
            _ => seq![],
        }
    }

    /// The text of a string, where it is one.
    pub open spec fn text(self) -> Option<Seq<char>> {
        match self {
            JsonV::Str(s) => Some(s),
            _ => None,
        }
    }
}

/// Is this a zero? It is spelled with its sign.
pub open spec fn zero(s: Seq<char>) -> bool {
    s == "0.0"@ || s == "-0.0"@
}

/// Are two values the same? The two zeros are, and so are two objects with the same values under
/// the same keys, in whatever order.
pub open spec fn same_value(a: JsonV, b: JsonV) -> bool
    decreases a,
{
    match (a, b) {
        (JsonV::Real(s), JsonV::Real(t)) => s == t || (zero(s) && zero(t)),
        (JsonV::Arr(v), JsonV::Arr(w)) => v.len() == w.len() && forall|i: int|
            0 <= i < v.len() ==> same_value(#[trigger] v[i], w[i]),
        (JsonV::Obj(v), JsonV::Obj(w)) => v.len() == w.len() && forall|i: int|
            0 <= i < v.len() ==> b.has((#[trigger] v[i]).0) && same_value(v[i].1, b.at(v[i].0)),
        _ => a == b,
    }
}

/// A list of strings.
pub open spec fn strings(s: Seq<Seq<char>>) -> JsonV {
    JsonV::Arr(Seq::new(s.len(), |i: int| JsonV::Str(s[i])))
}

impl Json {
    /// An object without entries.
    pub fn empty() -> (r: Json)
        ensures
            r@ == JsonV::empty(),
    {
        let r = Json::Obj(Vec::new());
        assert(r@->Obj_0 =~= seq![]);
        r
    }

    /// The object with one more entry.
    pub fn with(self, key: &str, val: Json) -> (r: Json)
        ensures
            r@ == self@.with(key@, val@),
    {
        broadcast use lemma_obj;

        match self {
            Json::Obj(mut e) => {
                let k = String::from_str(key);
                proof {
                    lemma_entries_push(e@, k, val);
                }
                e.push((k, val));
                Json::Obj(e)
            },
            other => other,
        }
    }

    /// Put a value under a key.
    pub fn set(self, key: &str, val: Json) -> (r: Json)
        ensures
            r@ == self@.set(key@, val@),
    {
        broadcast use lemma_obj;

        match self {
            Json::Obj(mut e) => {
                let ghost e0 = e@;
                let k = Json::find(&e, key);
                let t = String::from_str(key);
                if k < e.len() {
                    e.set(k, (t, val));
                    assert(entries(e@) =~= entries(e0).update(k as int, (key@, val@)));
                } else {
                    proof {
                        lemma_entries_push(e@, t, val);
                    }
                    e.push((t, val));
                }
                Json::Obj(e)
            },
            other => other,
        }
    }

    pub fn str(s: &str) -> (r: Json)
        ensures
            r@ == JsonV::Str(s@),
    {
        Json::Str(String::from_str(s))
    }

    /// A list of strings.
    pub fn strings(s: &Vec<String>) -> (r: Json)
        ensures
            r@ == strings(texts(s@)),
    {
        broadcast use lemma_arr;

        let mut v: Vec<Json> = Vec::new();
        let mut i: usize = 0;
        while i < s.len()
            invariant
                i <= s@.len(),
                v@.len() == i,
                forall|j: int| 0 <= j < i ==> (#[trigger] v@[j]).model() == JsonV::Str(s@[j]@),
            decreases s@.len() - i,
        {
            v.push(Json::str(s[i].as_str()));
            i = i + 1;
        }
        assert(models(v@) =~= strings(texts(s@))->Arr_0);
        Json::Arr(v)
    }

    fn find(e: &Vec<(String, Json)>, key: &str) -> (r: usize)
        ensures
            r as int == JsonV::place(entries(e@), key@, 0),
            r <= e@.len(),
    {
        let mut i: usize = 0;
        while i < e.len()
            invariant
                i <= e@.len(),
                JsonV::place(entries(e@), key@, 0) == JsonV::place(entries(e@), key@, i as int),
            decreases e@.len() - i,
        {
            if str_eq(e[i].0.as_str(), key) {
                return i;
            }
            i = i + 1;
        }
        i
    }

    /// The value under a key, if there is one.
    pub fn get(&self, key: &str) -> (r: Option<&Json>)
        ensures
            match r {
                Some(j) => self@.has(key@) && j@ == self@.at(key@),
                None => !self@.has(key@) && self@.at(key@) == JsonV::Null,
            },
    {
        broadcast use lemma_obj;

        match self {
            Json::Obj(e) => {
                let k = Json::find(e, key);
                if k < e.len() {
                    Some(&e[k].1)
                } else {
                    None
                }
            },
            _ => None,
        }
    }

    /// A copy of the value.
    pub fn copy(&self) -> (r: Json)
        ensures
            r@ == self@,
        decreases self,
    {
        broadcast use {lemma_arr, lemma_obj};

        match self {
            Json::Null => Json::Null,
            Json::Bool(b) => Json::Bool(*b),
            Json::Uint(n) => Json::Uint(*n),
            Json::Int(n) => Json::Int(*n),
            Json::Real(s) => Json::Real(s.clone()),
            Json::Str(s) => Json::Str(s.clone()),
            Json::Arr(v) => {
                let mut out: Vec<Json> = Vec::new();
                let mut i: usize = 0;
                while i < v.len()
                    invariant
                        i <= v@.len(),
                        *self == Json::Arr(*v),
                        self@ == JsonV::Arr(models(v@)),
                        out@.len() == i,
                        forall|j: int| 0 <= j < i ==> (#[trigger] out@[j]).model() == v@[j].model(),
                    decreases v@.len() - i,
                {
                    assert(decreases_to!(*self => self->Arr_0));
                    assert(decreases_to!(*v => v@));
                    assert(decreases_to!(v@ => v@[i as int]));
                    let c = v[i].copy();
                    out.push(c);
                    i = i + 1;
                }
                assert(models(out@) =~= models(v@));
                Json::Arr(out)
            },
            Json::Obj(v) => {
                let mut out: Vec<(String, Json)> = Vec::new();
                let mut i: usize = 0;
                while i < v.len()
                    invariant
                        i <= v@.len(),
                        *self == Json::Obj(*v),
                        self@ == JsonV::Obj(entries(v@)),
                        out@.len() == i,
                        forall|j: int|
                            0 <= j < i ==> (#[trigger] out@[j]).1.model() == v@[j].1.model()
                                && out@[j].0@ == v@[j].0@,
                    decreases v@.len() - i,
                {
                    assert(decreases_to!(*self => self->Obj_0));
                    assert(decreases_to!(*v => v@));
                    assert(decreases_to!(v@ => v@[i as int]));
                    assert(decreases_to!(v@[i as int] => v@[i as int].1));
                    let c = v[i].1.copy();
                    out.push((v[i].0.clone(), c));
                    i = i + 1;
                }
                assert(entries(out@) =~= entries(v@));
                Json::Obj(out)
            },
        }
    }

    /// The value under a key, which is null where there is none.
    pub fn at(&self, key: &str) -> (r: Json)
        ensures
            r@ == self@.at(key@),
    {
        match self.get(key) {
            Some(j) => j.copy(),
            None => Json::Null,
        }
    }

    /// Is the value this string?
    pub fn is_str(&self, s: &str) -> (r: bool)
        ensures
            r == (self@ == JsonV::Str(s@)),
    {
        match self {
            Json::Str(t) => str_eq(t.as_str(), s),
            _ => false,
        }
    }

    /// The text of a string, where it is one.
    pub fn as_str<'a>(&'a self) -> (r: Option<&'a str>)
        ensures
            match r {
                Some(t) => self@.text() == Some(t@),
                None => self@.text() is None,
            },
    {
        match self {
            Json::Str(t) => Some(t.as_str()),
            _ => None,
        }
    }

    /// The number, where it is a natural one.
    pub fn as_u64(&self) -> (r: Option<u64>)
        ensures
            match r {
                Some(n) => self@ == JsonV::Uint(n),
                None => !(self@ is Uint),
            },
    {
        match self {
            Json::Uint(n) => Some(*n),
            _ => None,
        }
    }

    /// Are the two values the same?
    pub fn same(&self, other: &Json) -> (r: bool)
        ensures
            r == same_value(self@, other@),
        decreases self,
    {
        broadcast use {lemma_arr, lemma_obj};

        match (self, other) {
            (Json::Null, Json::Null) => true,
            (Json::Bool(a), Json::Bool(b)) => *a == *b,
            (Json::Uint(a), Json::Uint(b)) => *a == *b,
            (Json::Int(a), Json::Int(b)) => *a == *b,
            (Json::Real(a), Json::Real(b)) => str_eq(a.as_str(), b.as_str()) || (is_zero(a.as_str())
                && is_zero(b.as_str())),
            (Json::Str(a), Json::Str(b)) => str_eq(a.as_str(), b.as_str()),
            (Json::Arr(v), Json::Arr(w)) => {
                if v.len() != w.len() {
                    return false;
                }
                let mut i: usize = 0;
                while i < v.len()
                    invariant
                        i <= v@.len(),
                        v@.len() == w@.len(),
                        *self == Json::Arr(*v),
                        self@ == JsonV::Arr(models(v@)),
                        other@ == JsonV::Arr(models(w@)),
                        forall|j: int|
                            0 <= j < i ==> same_value(#[trigger] models(v@)[j], models(w@)[j]),
                    decreases v@.len() - i,
                {
                    assert(decreases_to!(*self => self->Arr_0));
                    assert(decreases_to!(*v => v@));
                    assert(decreases_to!(v@ => v@[i as int]));
                    if !v[i].same(&w[i]) {
                        assert(!same_value(models(v@)[i as int], models(w@)[i as int]));
                        return false;
                    }
                    i = i + 1;
                }
                true
            },
            (Json::Obj(v), Json::Obj(w)) => {
                if v.len() != w.len() {
                    return false;
                }
                let mut i: usize = 0;
                while i < v.len()
                    invariant
                        i <= v@.len(),
                        v@.len() == w@.len(),
                        *self == Json::Obj(*v),
                        self@ == JsonV::Obj(entries(v@)),
                        other@ == JsonV::Obj(entries(w@)),
                        forall|j: int|
                            0 <= j < i ==> other@.has((#[trigger] entries(v@)[j]).0) && same_value(
                                entries(v@)[j].1,
                                other@.at(entries(v@)[j].0),
                            ),
                    decreases v@.len() - i,
                {
                    assert(decreases_to!(*self => self->Obj_0));
                    assert(decreases_to!(*v => v@));
                    assert(decreases_to!(v@ => v@[i as int]));
                    assert(decreases_to!(v@[i as int] => v@[i as int].1));
                    assert(entries(v@)[i as int] == (v@[i as int].0@, v@[i as int].1@));
                    match other.get(v[i].0.as_str()) {
                        Some(x) => {
                            if !v[i].1.same(x) {
                                return false;
                            }
                        },
                        None => {
                            return false;
                        },
                    }
                    i = i + 1;
                }
                true
            },
            _ => false,
        }
    }
}

fn is_zero(s: &str) -> (r: bool)
    ensures
        r == zero(s@),
{
    str_eq(s, "0.0") || str_eq(s, "-0.0")
}

} // verus!
