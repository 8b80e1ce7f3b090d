//! JSON values as the library holds them, their mathematical model, and the two
//! calls into `serde_json` (reading a JSON text, pretty-printing a value).
use vstd::prelude::*;

use crate::text::str_eq;

verus! {

/// A JSON value. Numbers are held as `serde_json` gives them, untouched.
#[derive(Debug)]
pub enum JsonValue {
    Null,
    Bool(bool),
    Number(serde_json::Number),
    Str(String),
    Array(Vec<JsonValue>),
    Object(Vec<(String, JsonValue)>),
}

/// The mathematical model of a JSON value.
pub enum JsonModel {
    Null,
    Bool(bool),
    Number(serde_json::Number),
    Str(Seq<char>),
    Array(Seq<JsonModel>),
    Object(Seq<(Seq<char>, JsonModel)>),
}

/// The model of a JSON value.
pub open spec fn json_model(v: JsonValue) -> JsonModel
    decreases v, 0nat,
{
    match v {
        JsonValue::Null => JsonModel::Null,
        JsonValue::Bool(b) => JsonModel::Bool(b),
        JsonValue::Number(n) => JsonModel::Number(n),
        JsonValue::Str(s) => JsonModel::Str(s@),
        JsonValue::Array(a) => JsonModel::Array(json_models(a@)),
        JsonValue::Object(o) => JsonModel::Object(json_entry_models(o@)),
    }
}

/// The models of a sequence of JSON values, in order.
pub open spec fn json_models(s: Seq<JsonValue>) -> Seq<JsonModel>
    decreases s, s.len(),
{
    if s.len() == 0 {
        Seq::empty()
    } else {
        json_models(s.drop_last()).push(json_model(s.last()))
    }
}

/// The models of the members of a JSON object, in order.
pub open spec fn json_entry_models(s: Seq<(String, JsonValue)>) -> Seq<(Seq<char>, JsonModel)>
    decreases s, s.len(),
{
    if s.len() == 0 {
        Seq::empty()
    } else {
        json_entry_models(s.drop_last()).push((s.last().0@, json_model(s.last().1)))
    }
}

impl View for JsonValue {
    type V = JsonModel;

    open spec fn view(&self) -> JsonModel {
        json_model(*self)
    }
}

/// The value of the first member named `key`.
pub open spec fn entry_lookup(es: Seq<(Seq<char>, JsonModel)>, key: Seq<char>) -> Option<JsonModel>
    decreases es.len(),
{
    if es.len() == 0 {
        None
    } else if es[0].0 == key {
        Some(es[0].1)
    } else {
        entry_lookup(es.drop_first(), key)
    }
}

/// What `Value::get(key)` finds: the member `key` of an object, nothing for other values.
pub open spec fn spec_get(m: JsonModel, key: Seq<char>) -> Option<JsonModel> {
    match m {
        JsonModel::Object(es) => entry_lookup(es, key),
        _ => None,
    }
}

/// The text of a JSON string, nothing for other values.
pub open spec fn spec_as_str(m: Option<JsonModel>) -> Option<Seq<char>> {
    match m {
        Some(JsonModel::Str(s)) => Some(s),
        _ => None,
    }
}

/// The member `key` of `m` when it is a JSON string.
pub open spec fn get_str(m: JsonModel, key: Seq<char>) -> Option<Seq<char>> {
    spec_as_str(spec_get(m, key))
}

/// The member `key` of `m` when it is a JSON boolean.
pub open spec fn get_bool(m: JsonModel, key: Seq<char>) -> Option<bool> {
    match spec_get(m, key) {
        Some(JsonModel::Bool(b)) => Some(b),
        _ => None,
    }
}

/// The value that the JSON text `text` denotes, if it is valid JSON; what
/// `serde_json::from_str::<serde_json::Value>` computes.
pub uninterp spec fn spec_json_parse(text: Seq<char>) -> Option<JsonModel>;

/// The text that `serde_json::to_string_pretty` gives for a value.
pub uninterp spec fn spec_json_pretty(v: JsonModel) -> Seq<char>;

pub proof fn lemma_json_models_index(s: Seq<JsonValue>)
    ensures
        json_models(s).len() == s.len(),
        forall|i: int| 0 <= i < s.len() ==> #[trigger] json_models(s)[i] == json_model(s[i]),
    decreases s.len(),
{
    if s.len() > 0 {
        lemma_json_models_index(s.drop_last());
    }
}

pub proof fn lemma_entry_models_index(s: Seq<(String, JsonValue)>)
    ensures
        json_entry_models(s).len() == s.len(),
        forall|i: int|
            0 <= i < s.len() ==> #[trigger] json_entry_models(s)[i] == (s[i].0@, json_model(s[i].1)),
    decreases s.len(),
{
    if s.len() > 0 {
        lemma_entry_models_index(s.drop_last());
    }
}

impl JsonValue {
    /// The member `key` of an object (`None` for other values or when it is absent).
    pub fn get(&self, key: &str) -> (r: Option<&JsonValue>)
        ensures
            match r {
                Some(x) => spec_get(self@, key@) == Some(x@),
                None => spec_get(self@, key@) is None,
            },
    {
        match self {
            JsonValue::Object(es) => {
                let ghost ms = json_entry_models(es@);
                proof {
                    lemma_entry_models_index(es@);
                    assert(self@ == JsonModel::Object(ms));
                    assert(ms.skip(0) =~= ms);
                }
                let mut i: usize = 0;
                while i < es.len()
                    invariant
                        i <= es@.len(),
                        ms == json_entry_models(es@),
                        ms.len() == es@.len(),
                        forall|j: int|
                            0 <= j < es@.len() ==> #[trigger] ms[j] == (es@[j].0@, json_model(
                                es@[j].1,
                            )),
                        entry_lookup(ms, key@) == entry_lookup(ms.skip(i as int), key@),
                        self@ == JsonModel::Object(ms),
                    decreases es.len() - i,
                {
                    let found = str_eq(es[i].0.as_str(), key);
                    proof {
                        assert(ms.skip(i as int)[0] == ms[i as int]);
                        assert(ms.skip(i as int).drop_first() =~= ms.skip(i + 1));
                    }
                    if found {
                        return Some(&es[i].1);
                    }
                    i = i + 1;
                }
                None
            },
            _ => None,
        }
    }

    /// The text of a JSON string.
    pub fn as_str(&self) -> (r: Option<&String>)
        ensures
            match r {
                Some(s) => self@ == JsonModel::Str(s@),
                None => !(self@ is Str),
            },
    {
        match self {
            JsonValue::Str(s) => Some(s),
            _ => None,
        }
    }

    /// The value of a JSON boolean.
    pub fn as_bool(&self) -> (r: Option<bool>)
        ensures
            match r {
                Some(b) => self@ == JsonModel::Bool(b),
                None => !(self@ is Bool),
            },
    {
        match self {
            JsonValue::Bool(b) => Some(*b),
            _ => None,
        }
    }

    /// The elements of a JSON array.
    pub fn as_array(&self) -> (r: Option<&Vec<JsonValue>>)
        ensures
            match r {
                Some(a) => self@ == JsonModel::Array(json_models(a@)),
                None => !(self@ is Array),
            },
    {
        match self {
            JsonValue::Array(a) => Some(a),
            _ => None,
        }
    }

    /// A copy of the value.
    #[verifier::loop_isolation(false)]
    pub fn deep_copy(&self) -> (r: JsonValue)
        ensures
            r@ == self@,
        decreases self,
    {
        match self {
            JsonValue::Null => JsonValue::Null,
            JsonValue::Bool(b) => JsonValue::Bool(*b),
            JsonValue::Number(n) => JsonValue::Number(number_clone(n)),
            JsonValue::Str(s) => JsonValue::Str(s.clone()),
            JsonValue::Array(a) => JsonValue::Array(copy_values(a)),
            JsonValue::Object(o) => {
                let mut out: Vec<(String, JsonValue)> = Vec::new();
                let mut i: usize = 0;
                while i < o.len()
                    invariant
                        i <= o.len(),
                        json_entry_models(out@) == json_entry_models(o@.take(i as int)),
                    decreases o.len() - i,
                {
                    proof {
                        assert(decreases_to!(*o => o[i as int]));
                    }
                    let c = o[i].1.deep_copy();
                    let k = o[i].0.clone();
                    let ghost prev = out@;
                    out.push((k, c));
                    proof {
                        assert(o@.take(i + 1).drop_last() == o@.take(i as int));
                        assert(out@.drop_last() == prev);
                    }
                    i = i + 1;
                }
                proof {
                    assert(o@.take(o@.len() as int) == o@);
                }
                JsonValue::Object(out)
            },
        }
    }
}

/// Copies of the values of `a`, in order.
#[verifier::loop_isolation(false)]
pub fn copy_values(a: &Vec<JsonValue>) -> (r: Vec<JsonValue>)
    ensures
        json_models(r@) == json_models(a@),
    decreases a,
{
    let mut out: Vec<JsonValue> = Vec::new();
    let mut i: usize = 0;
    while i < a.len()
        invariant
            i <= a.len(),
            json_models(out@) == json_models(a@.take(i as int)),
        decreases a.len() - i,
    {
        proof {
            assert(decreases_to!(*a => a[i as int]));
        }
        let c = a[i].deep_copy();
        let ghost prev = out@;
        out.push(c);
        proof {
            assert(a@.take(i + 1).drop_last() == a@.take(i as int));
            assert(out@.drop_last() == prev);
        }
        i = i + 1;
    }
    proof {
        assert(a@.take(a@.len() as int) == a@);
    }
    out
}

#[verifier::external_type_specification]
#[verifier::external_body]
pub struct ExSerdeJsonValue(serde_json::Value);

#[verifier::external_type_specification]
#[verifier::external_body]
pub struct ExSerdeJsonNumber(serde_json::Number);

/// `<serde_json::Number as Clone>::clone` (derived over a `Copy` field): the copy is
/// the same number.
#[verifier::external_body]
fn number_clone(n: &serde_json::Number) -> (r: serde_json::Number)
    ensures
        r == *n,
{
    n.clone()
}

/// Turns a `serde_json::Value` into a `JsonValue`, node for node, members in the
/// map's order.
#[verifier::external_body]
fn from_serde(v: serde_json::Value) -> JsonValue {
    match v {
        serde_json::Value::Null => JsonValue::Null,
        serde_json::Value::Bool(b) => JsonValue::Bool(b),
        serde_json::Value::Number(n) => JsonValue::Number(n),
        serde_json::Value::String(s) => JsonValue::Str(s),
        serde_json::Value::Array(a) => JsonValue::Array(a.into_iter().map(from_serde).collect()),
        serde_json::Value::Object(m) => JsonValue::Object(
            m.into_iter().map(|(k, x)| (k, from_serde(x))).collect(),
        ),
    }
}

/// Turns a `JsonValue` into a `serde_json::Value`, node for node (a repeated
/// member name keeps its last value, as `serde_json::Map::insert` does).
#[verifier::external_body]
fn to_serde(v: &JsonValue) -> serde_json::Value {
    match v {
        JsonValue::Null => serde_json::Value::Null,
        JsonValue::Bool(b) => serde_json::Value::Bool(*b),
        JsonValue::Number(n) => serde_json::Value::Number(n.clone()),
        JsonValue::Str(s) => serde_json::Value::String(s.clone()),
        JsonValue::Array(a) => serde_json::Value::Array(a.iter().map(to_serde).collect()),
        JsonValue::Object(es) => serde_json::Value::Object(
            es.iter().map(|(k, x)| (k.clone(), to_serde(x))).collect(),
        ),
    }
}

/// `serde_json::from_str::<serde_json::Value>`: reads one JSON text. Claimed: the
/// result is the named value `spec_json_parse` of the text, and `None` exactly
/// where that name is `None` (the text is no valid JSON).
#[verifier::external_body]
pub(crate) fn json_parse(text: &str) -> (r: Option<JsonValue>)
    ensures
        match r {
            Some(v) => spec_json_parse(text@) == Some(v@),
            None => spec_json_parse(text@) is None,
        },
{
    match serde_json::from_str::<serde_json::Value>(text) {
        Ok(v) => Some(from_serde(v)),
        Err(_) => None,
    }
}

/// `serde_json::to_string_pretty`: the indented JSON text of a value. Claimed: the
/// text is the named `spec_json_pretty` of the value's model (serialising a
/// `serde_json::Value` does not fail, so the fallback to `""` is never taken).
#[verifier::external_body]
pub(crate) fn json_pretty(v: &JsonValue) -> (r: String)
    ensures
        r@ == spec_json_pretty(v@),
{
    serde_json::to_string_pretty(&to_serde(v)).unwrap_or_default()
}

} // verus!
