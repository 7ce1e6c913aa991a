//! Reading JSON text, which `serde_json` does.

use vstd::prelude::*;

use crate::json::{entries, lemma_arr, lemma_obj, models, Json, JsonV};

verus! {

/// `serde_json::Value`: a parsed document.
#[verifier::external_type_specification]
#[verifier::external_body]
pub struct ExValue(serde_json::Value);

/// `serde_json::Number`: a number of a parsed document.
#[verifier::external_type_specification]
#[verifier::external_body]
pub struct ExNumber(serde_json::Number);

/// What a `serde_json::Value` holds.
pub uninterp spec fn json_of(v: serde_json::Value) -> JsonV;

/// What a `serde_json::Number` is.
pub uninterp spec fn number_of(n: serde_json::Number) -> JsonV;

/// What `serde_json::from_str` makes of a text: the document, or nothing where it is none.
pub uninterp spec fn json_parsed(text: Seq<char>) -> Option<JsonV>;

/// One level of a parsed document.
enum Node {
    Null,
    Bool(bool),
    Num(serde_json::Number),
    Str(String),
    Arr(Vec<serde_json::Value>),
    Obj(Vec<(String, serde_json::Value)>),
}

pub open spec fn values_of(v: Seq<serde_json::Value>) -> Seq<JsonV> {
    Seq::new(v.len(), |i: int| json_of(v[i]))
}

pub open spec fn pairs_of(v: Seq<(String, serde_json::Value)>) -> Seq<(Seq<char>, JsonV)> {
    Seq::new(v.len(), |i: int| (v[i].0@, json_of(v[i].1)))
}

/// `serde_json::from_str`, for a `Value`. The result depends on the text alone, and is named by
/// `json_parsed`: the document's contents where the text is one, and nothing where it is not.
#[verifier::external_body]
fn read_value(text: &str) -> (r: Option<serde_json::Value>)
    ensures
        match r {
            Some(v) => json_parsed(text@) == Some(json_of(v)),
            None => json_parsed(text@) is None,
        },
{
    serde_json::from_str(text).ok()
}

/// The variants of `serde_json::Value`, told apart: each holds what the value is made of, and an
/// object's entries come in the order in which its map walks them.
#[verifier::external_body]
fn open_value(v: serde_json::Value) -> (r: Node)
    ensures
        match r {
            Node::Null => json_of(v) == JsonV::Null,
            Node::Bool(b) => json_of(v) == JsonV::Bool(b),
            Node::Num(n) => json_of(v) == number_of(n),
            Node::Str(s) => json_of(v) == JsonV::Str(s@),
            Node::Arr(a) => json_of(v) == JsonV::Arr(values_of(a@)),
            Node::Obj(m) => json_of(v) == JsonV::Obj(pairs_of(m@)),
        },
{
    match v {
        serde_json::Value::Null => Node::Null,
        serde_json::Value::Bool(b) => Node::Bool(b),
        serde_json::Value::Number(n) => Node::Num(n),
        serde_json::Value::String(s) => Node::Str(s),
        serde_json::Value::Array(a) => Node::Arr(a),
        serde_json::Value::Object(m) => Node::Obj(m.into_iter().collect()),
    }
}

/// `serde_json::Number::as_u64`: the number where it is a natural one, and nothing where it is
/// negative or no integer.
#[verifier::external_body]
fn number_u64(n: &serde_json::Number) -> (r: Option<u64>)
    ensures
        match r {
            Some(u) => number_of(*n) == JsonV::Uint(u),
            None => number_of(*n) is Int || number_of(*n) is Real,
        },
{
    n.as_u64()
}

/// `serde_json::Number::as_i64`: the number where it is an integer that fits.
#[verifier::external_body]
fn number_i64(n: &serde_json::Number) -> (r: Option<i64>)
    ensures
        number_of(*n) is Int ==> r is Some && number_of(*n) == JsonV::Int(r->0),
        number_of(*n) is Real ==> r is None,
{
    n.as_i64()
}

/// The `Display` of `serde_json::Number`: how the number is spelled.
#[verifier::external_body]
fn number_text(n: &serde_json::Number) -> (r: String)
    ensures
        number_of(*n) is Real ==> number_of(*n) == JsonV::Real(r@),
{
    format!("{}", n)
}

fn take_number(n: serde_json::Number) -> (r: Json)
    ensures
        r@ == number_of(n),
{
    match number_u64(&n) {
        Some(u) => Json::Uint(u),
        None => match number_i64(&n) {
            Some(i) => Json::Int(i),
            None => Json::Real(number_text(&n)),
        },
    }
}

fn take_value(v: serde_json::Value) -> (r: Json)
    ensures
        r@ == json_of(v),
    decreases json_of(v),
{
    broadcast use {lemma_arr, lemma_obj};

    let ghost whole = json_of(v);
    match open_value(v) {
        Node::Null => Json::Null,
        Node::Bool(b) => Json::Bool(b),
        Node::Num(n) => take_number(n),
        Node::Str(s) => Json::Str(s),
        Node::Arr(a) => {
            let ghost want = values_of(a@);
            let mut rest = a;
            let mut back: Vec<Json> = Vec::new();
            while rest.len() > 0
                invariant
                    whole == json_of(v),
                    whole == JsonV::Arr(want),
                    want.len() == rest@.len() + back@.len(),
                    forall|j: int| 0 <= j < rest@.len() ==> json_of(#[trigger] rest@[j]) == want[j],
                    forall|j: int|
                        0 <= j < back@.len() ==> (#[trigger] back@[j]).model() == want[want.len() - 1
                            - j],
                decreases rest@.len(),
            {
                let n = rest.len() - 1;
                assert(json_of(rest@[n as int]) == want[n as int]);
                assert(decreases_to!(whole => whole->Arr_0));
                assert(decreases_to!(want => want[n as int]));
                match rest.pop() {
                    Some(x) => {
                        back.push(take_value(x));
                    },
                    None => {},
                }
            }
            let mut out: Vec<Json> = Vec::new();
            while back.len() > 0
                invariant
                    want.len() == out@.len() + back@.len(),
                    forall|j: int| 0 <= j < out@.len() ==> (#[trigger] out@[j]).model() == want[j],
                    forall|j: int|
                        0 <= j < back@.len() ==> (#[trigger] back@[j]).model() == want[want.len() - 1
                            - j],
                decreases back@.len(),
            {
                match back.pop() {
                    Some(x) => {
                        out.push(x);
                    },
                    None => {},
                }
            }
            assert(models(out@) =~= want);
            Json::Arr(out)
        },
        Node::Obj(m) => {
            let ghost want = pairs_of(m@);
            let mut rest = m;
            let mut back: Vec<(String, Json)> = Vec::new();
            while rest.len() > 0
                invariant
                    whole == json_of(v),
                    whole == JsonV::Obj(want),
                    want.len() == rest@.len() + back@.len(),
                    forall|j: int|
                        0 <= j < rest@.len() ==> json_of((#[trigger] rest@[j]).1) == want[j].1
                            && rest@[j].0@ == want[j].0,
                    forall|j: int|
                        0 <= j < back@.len() ==> (#[trigger] back@[j]).1.model()
                            == want[want.len() - 1 - j].1 && back@[j].0@ == want[want.len() - 1
                            - j].0,
                decreases rest@.len(),
            {
                let n = rest.len() - 1;
                assert(json_of(rest@[n as int].1) == want[n as int].1);
                assert(decreases_to!(whole => whole->Obj_0));
                assert(decreases_to!(want => want[n as int]));
                assert(decreases_to!(want[n as int] => want[n as int].1));
                match rest.pop() {
                    Some((k, x)) => {
                        back.push((k, take_value(x)));
                    },
                    None => {},
                }
            }
            let mut out: Vec<(String, Json)> = Vec::new();
            while back.len() > 0
                invariant
                    want.len() == out@.len() + back@.len(),
                    forall|j: int|
                        0 <= j < out@.len() ==> (#[trigger] out@[j]).1.model() == want[j].1
                            && out@[j].0@ == want[j].0,
                    forall|j: int|
                        0 <= j < back@.len() ==> (#[trigger] back@[j]).1.model()
                            == want[want.len() - 1 - j].1 && back@[j].0@ == want[want.len() - 1
                            - j].0,
                decreases back@.len(),
            {
                match back.pop() {
                    Some(x) => {
                        out.push(x);
                    },
                    None => {},
                }
            }
            assert(entries(out@) =~= want);
            Json::Obj(out)
        },
    }
}

impl Json {
    /// The document that a text is, if it is one.
    pub fn parse(text: &str) -> (r: Option<Json>)
        ensures
            match r {
                Some(j) => json_parsed(text@) == Some(j@),
                None => json_parsed(text@) is None,
            },
    {
        match read_value(text) {
            Some(v) => Some(take_value(v)),
            None => None,
        }
    }
}

} // verus!
