use vstd::prelude::*;

use crate::keyed::{find_key, key_seq, lookup};

verus! {

/// A JSON value.
#[derive(Debug)]
pub enum Json {
    Null,
    Bool(bool),
    /// A number that fits `i64`.
    Int(i64),
    /// Any other number, as its JSON text.
    Num(String),
    Str(String),
    Array(Vec<Json>),
    /// Members in order; keys are unique.
    Object(Vec<(String, Json)>),
}

/// A JSON value, as plain values.
pub enum JsonView {
    Null,
    Bool(bool),
    Int(i64),
    Num(Seq<char>),
    Str(Seq<char>),
    Array(Seq<JsonView>),
    Object(Seq<(Seq<char>, JsonView)>),
}

/// The plain value a JSON value holds.
pub open spec fn json_view(j: Json) -> JsonView
    decreases j,
{
    match j {
        Json::Null => JsonView::Null,
        Json::Bool(b) => JsonView::Bool(b),
        Json::Int(i) => JsonView::Int(i),
        Json::Num(s) => JsonView::Num(s@),
        Json::Str(s) => JsonView::Str(s@),
        Json::Array(v) => JsonView::Array(
            Seq::new(
                v@.len(),
                |i: int|
                    if 0 <= i < v@.len() {
                        json_view(v@[i])
                    } else {
                        JsonView::Null
                    },
            ),
        ),
        Json::Object(m) => JsonView::Object(
            Seq::new(
                m@.len(),
                |i: int|
                    if 0 <= i < m@.len() {
                        (m@[i].0@, json_view(m@[i].1))
                    } else {
                        (Seq::empty(), JsonView::Null)
                    },
            ),
        ),
    }
}

impl View for Json {
    type V = JsonView;

    open spec fn view(&self) -> JsonView {
        json_view(*self)
    }
}

/// A copy of a JSON value.
pub fn copy_json(value: &Json) -> (r: Json)
    ensures
        r@ == value@,
    decreases value,
{
    match value {
        Json::Null => Json::Null,
        Json::Bool(b) => Json::Bool(*b),
        Json::Int(i) => Json::Int(*i),
        Json::Num(s) => Json::Num(s.clone()),
        Json::Str(s) => Json::Str(s.clone()),
        Json::Array(v) => {
            let mut out: Vec<Json> = Vec::new();
            let mut i: usize = 0;
            while i < v.len()
                invariant
                    *value == Json::Array(*v),
                    0 <= i <= v@.len(),
                    out@.len() == i,
                    forall|k: int| 0 <= k < i ==> (#[trigger] out@[k])@ == v@[k]@,
                decreases v@.len() - i,
            {
                proof {
                    let ghost whole = Json::Array(*v);
                    assert(decreases_to!(whole => whole->Array_0));
                    assert(decreases_to!(*v => v@));
                    assert(decreases_to!(v@ => v@[i as int]));
                }
                out.push(copy_json(&v[i]));
                i += 1;
            }
            proof {
                Json::lemma_array_view(*v);
                Json::lemma_array_view(out);
                assert(out@.map_values(|x: Json| x@) =~= v@.map_values(|x: Json| x@));
            }
            Json::Array(out)
        },
        Json::Object(m) => {
            let mut out: Vec<(String, Json)> = Vec::new();
            let mut i: usize = 0;
            while i < m.len()
                invariant
                    *value == Json::Object(*m),
                    0 <= i <= m@.len(),
                    out@.len() == i,
                    forall|k: int|
                        0 <= k < i ==> (#[trigger] out@[k]).0@ == m@[k].0@ && out@[k].1@
                            == m@[k].1@,
                decreases m@.len() - i,
            {
                proof {
                    let ghost whole = Json::Object(*m);
                    assert(decreases_to!(whole => whole->Object_0));
                    assert(decreases_to!(*m => m@));
                    assert(decreases_to!(m@ => m@[i as int]));
                    assert(decreases_to!(m@[i as int] => m@[i as int].1));
                }
                out.push((m[i].0.clone(), copy_json(&m[i].1)));
                i += 1;
            }
            proof {
                Json::lemma_object_view(*m);
                Json::lemma_object_view(out);
                assert(members_view(out@) =~= members_view(m@));
            }
            Json::Object(out)
        },
    }
}

/// serde_json's JSON value, which the parser below hands over.
#[verifier::external_type_specification]
#[verifier::external_body]
pub struct ExJsonValue(serde_json::Value);

/// What `serde_json::from_str` reads from a text, as a plain value.
pub uninterp spec fn parsed_json(s: Seq<char>) -> Option<JsonView>;

/// Relies on the variants of `serde_json::Value` and on
/// `serde_json::Number::as_i64`: carries a value of serde_json's model over to
/// this library's, variant by variant; a number goes to `Int` when serde_json gives it as `i64`, else to
/// `Num` with the text serde_json prints for it.
#[verifier::external_body]
fn json_from_value(v: serde_json::Value) -> Json {
    match v {
        serde_json::Value::Null => Json::Null,
        serde_json::Value::Bool(b) => Json::Bool(b),
        serde_json::Value::Number(n) => n.as_i64().map_or_else(|| Json::Num(n.to_string()), Json::Int),
        serde_json::Value::String(s) => Json::Str(s),
        serde_json::Value::Array(a) => Json::Array(a.into_iter().map(json_from_value).collect()),
        serde_json::Value::Object(o) => Json::Object(o.into_iter().map(|(k, x)| (k, json_from_value(x))).collect()),
    }
}

/// Relies on `serde_json::from_str`: the value a JSON text holds, which
/// depends on the text alone; nothing when the text is not JSON.
#[verifier::external_body]
pub(crate) fn parse_json(s: &str) -> (r: Option<Json>)
    ensures
        r is None ==> parsed_json(s@) is None,
        r matches Some(j) ==> parsed_json(s@) == Some(j@),
{
    serde_json::from_str::<serde_json::Value>(s).ok().map(json_from_value)
}

/// The member `k` of an object; nothing for other values.
pub open spec fn member(j: JsonView, k: Seq<char>) -> Option<JsonView> {
    match j {
        JsonView::Object(m) => lookup(m, k),
        _ => None,
    }
}

/// The members of an object, as plain values.
pub open spec fn members_view(m: Seq<(String, Json)>) -> Seq<(Seq<char>, JsonView)> {
    m.map_values(|e: (String, Json)| (e.0@, e.1@))
}

impl Json {
    pub proof fn lemma_object_view(m: Vec<(String, Json)>)
        ensures
            Json::Object(m)@ == JsonView::Object(members_view(m@)),
            members_view(m@).map_values(|e: (Seq<char>, JsonView)| e.0) == key_seq(m@),
    {
        assert(JsonView::Object(members_view(m@)) == Json::Object(m)@) by {
            let jv = Json::Object(m)@;
            assert(jv is Object);
            let v = jv->Object_0;
            assert(v.len() == m@.len());
            assert forall|i: int| 0 <= i < m@.len() implies v[i] == (m@[i].0@, m@[i].1@) by {}
            assert(v =~= members_view(m@));
        }
        assert(members_view(m@).map_values(|e: (Seq<char>, JsonView)| e.0) =~= key_seq(m@));
    }

    pub proof fn lemma_array_view(v: Vec<Json>)
        ensures
            Json::Array(v)@ == JsonView::Array(v@.map_values(|x: Json| x@)),
    {
        let jv = Json::Array(v)@;
        assert(jv is Array);
        let w = jv->Array_0;
        assert(w.len() == v@.len());
        assert forall|i: int| 0 <= i < v@.len() implies w[i] == v@[i]@ by {}
        assert(w =~= v@.map_values(|x: Json| x@));
    }

    /// A copy of this value.
    pub fn duplicate(&self) -> (r: Json)
        ensures
            r@ == self@,
    {
        copy_json(self)
    }

    /// The member `key` of an object.
    pub fn get(&self, key: &str) -> (r: Option<&Json>)
        ensures
            r is None ==> member(self@, key@) is None,
            r matches Some(v) ==> member(self@, key@) == Some(v@),
    {
        match self {
            Json::Object(m) => {
                proof {
                    Json::lemma_object_view(*m);
                }
                match find_key(m, key) {
                    Some(i) => Some(&m[i].1),
                    None => None,
                }
            },
            _ => None,
        }
    }

    /// The text of a string value.
    pub fn as_str(&self) -> (r: Option<&String>)
        ensures
            r is None ==> !(self@ is Str),
            r matches Some(s) ==> self@ == JsonView::Str(s@),
    {
        match self {
            Json::Str(s) => Some(s),
            _ => None,
        }
    }

    /// The value of a boolean.
    pub fn as_bool(&self) -> (r: Option<bool>)
        ensures
            r is None ==> !(self@ is Bool),
            r matches Some(b) ==> self@ == JsonView::Bool(b),
    {
        match self {
            Json::Bool(b) => Some(*b),
            _ => None,
        }
    }
}

} // verus!
