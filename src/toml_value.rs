use vstd::prelude::*;

use crate::json::{members_view, Json, JsonView};
use crate::keyed::{find_key, key_seq, upsert};

verus! {

/// A TOML value.
#[derive(Debug)]
pub enum TomlValue {
    Str(String),
    Integer(i64),
    /// A float, as its decimal text.
    Float(String),
    Boolean(bool),
    /// A date-time, as its TOML text.
    Datetime(String),
    Array(Vec<TomlValue>),
    /// Entries in order; keys are unique.
    Table(Vec<(String, TomlValue)>),
}

/// A TOML value, as plain values.
pub enum TomlView {
    Str(Seq<char>),
    Integer(i64),
    Float(Seq<char>),
    Boolean(bool),
    Datetime(Seq<char>),
    Array(Seq<TomlView>),
    Table(Seq<(Seq<char>, TomlView)>),
}

/// The plain value a TOML value holds.
pub open spec fn toml_view(t: TomlValue) -> TomlView
    decreases t,
{
    match t {
        TomlValue::Str(s) => TomlView::Str(s@),
        TomlValue::Integer(i) => TomlView::Integer(i),
        TomlValue::Float(s) => TomlView::Float(s@),
        TomlValue::Boolean(b) => TomlView::Boolean(b),
        TomlValue::Datetime(s) => TomlView::Datetime(s@),
        TomlValue::Array(v) => TomlView::Array(
            Seq::new(
                v@.len(),
                |i: int|
                    if 0 <= i < v@.len() {
                        toml_view(v@[i])
                    } else {
                        TomlView::Boolean(false)
                    },
            ),
        ),
        TomlValue::Table(m) => TomlView::Table(
            Seq::new(
                m@.len(),
                |i: int|
                    if 0 <= i < m@.len() {
                        (m@[i].0@, toml_view(m@[i].1))
                    } else {
                        (Seq::empty(), TomlView::Boolean(false))
                    },
            ),
        ),
    }
}

impl View for TomlValue {
    type V = TomlView;

    open spec fn view(&self) -> TomlView {
        toml_view(*self)
    }
}

/// The entries of a table, as plain values.
pub open spec fn table_view(m: Seq<(String, TomlValue)>) -> Seq<(Seq<char>, TomlView)> {
    m.map_values(|e: (String, TomlValue)| (e.0@, e.1@))
}

/// The TOML value a JSON value becomes: `null` becomes the empty string,
/// numbers become integers when they fit `i64` and floats otherwise, lists
/// and objects are converted member by member.
pub open spec fn toml_of_json(j: JsonView) -> TomlView
    decreases j,
{
    match j {
        JsonView::Null => TomlView::Str(Seq::empty()),
        JsonView::Bool(b) => TomlView::Boolean(b),
        JsonView::Int(i) => TomlView::Integer(i),
        JsonView::Num(s) => TomlView::Float(s),
        JsonView::Str(s) => TomlView::Str(s),
        JsonView::Array(v) => TomlView::Array(
            Seq::new(
                v.len(),
                |i: int|
                    if 0 <= i < v.len() {
                        toml_of_json(v[i])
                    } else {
                        TomlView::Boolean(false)
                    },
            ),
        ),
        JsonView::Object(m) => TomlView::Table(
            Seq::new(
                m.len(),
                |i: int|
                    if 0 <= i < m.len() {
                        (m[i].0, toml_of_json(m[i].1))
                    } else {
                        (Seq::empty(), TomlView::Boolean(false))
                    },
            ),
        ),
    }
}

/// `tbl` with every member of `obj` set in turn, converted to TOML.
pub open spec fn merged_table(tbl: Seq<(Seq<char>, TomlView)>, obj: Seq<(Seq<char>, JsonView)>) -> Seq<
    (Seq<char>, TomlView),
>
    decreases obj.len(),
{
    if obj.len() == 0 {
        tbl
    } else {
        upsert(merged_table(tbl, obj.drop_last()), obj.last().0, toml_of_json(obj.last().1))
    }
}

/// Converts a JSON value to TOML, member by member.
pub fn json_to_toml_value(v: &Json) -> (r: Option<TomlValue>)
    ensures
        r matches Some(t) && t@ == toml_of_json(v@),
    decreases v,
{
    Some(
        match v {
            Json::Null => TomlValue::Str(String::new()),
            Json::Bool(b) => TomlValue::Boolean(*b),
            Json::Int(i) => TomlValue::Integer(*i),
            Json::Num(s) => TomlValue::Float(s.clone()),
            Json::Str(s) => TomlValue::Str(s.clone()),
            Json::Array(a) => {
                proof {
                    Json::lemma_array_view(*a);
                }
                let mut out: Vec<TomlValue> = Vec::new();
                let mut i: usize = 0;
                while i < a.len()
                    invariant
                        *v == Json::Array(*a),
                        0 <= i <= a@.len(),
                        out@.len() == i,
                        forall|k: int| 0 <= k < i ==> (#[trigger] out@[k])@ == toml_of_json(a@[k]@),
                    decreases a@.len() - i,
                {
                    proof {
                        let ghost whole = Json::Array(*a);
                        assert(decreases_to!(whole => whole->Array_0));
                        assert(decreases_to!(*a => a@));
                        assert(decreases_to!(a@ => a@[i as int]));
                    }
                    match json_to_toml_value(&a[i]) {
                        Some(t) => out.push(t),
                        None => {},
                    }
                    i += 1;
                }
                let r = TomlValue::Array(out);
                proof {
                    let tv = r@;
                    assert(tv is Array);
                    assert(tv->Array_0 =~= toml_of_json(v@)->Array_0);
                }
                r
            },
            Json::Object(o) => {
                proof {
                    Json::lemma_object_view(*o);
                }
                let mut out: Vec<(String, TomlValue)> = Vec::new();
                let mut i: usize = 0;
                while i < o.len()
                    invariant
                        *v == Json::Object(*o),
                        0 <= i <= o@.len(),
                        out@.len() == i,
                        forall|k: int|
                            0 <= k < i ==> (#[trigger] out@[k]).0@ == o@[k].0@ && out@[k].1@
                                == toml_of_json(o@[k].1@),
                    decreases o@.len() - i,
                {
                    proof {
                        let ghost whole = Json::Object(*o);
                        assert(decreases_to!(whole => whole->Object_0));
                        assert(decreases_to!(*o => o@));
                        assert(decreases_to!(o@ => o@[i as int]));
                        assert(decreases_to!(o@[i as int] => o@[i as int].1));
                    }
                    match json_to_toml_value(&o[i].1) {
                        Some(t) => out.push((o[i].0.clone(), t)),
                        None => {},
                    }
                    i += 1;
                }
                let r = TomlValue::Table(out);
                proof {
                    let tv = r@;
                    assert(tv is Table);
                    assert(tv->Table_0 =~= toml_of_json(v@)->Table_0);
                }
                r
            },
        },
    )
}

/// Sets key `k` of a table to `v`, in place when the key is there, at the end
/// otherwise.
pub fn table_insert(tbl: &mut Vec<(String, TomlValue)>, k: String, v: TomlValue)
    ensures
        table_view(final(tbl)@) == upsert(table_view(old(tbl)@), k@, v@),
{
    let ghost keys = table_view(old(tbl)@).map_values(|e: (Seq<char>, TomlView)| e.0);
    assert(keys =~= key_seq(old(tbl)@));
    match find_key(tbl, k.as_str()) {
        Some(i) => {
            let ghost before = tbl@;
            tbl.set(i, (k, v));
            assert(table_view(tbl@) =~= table_view(before).update(i as int, (k@, v@)));
        },
        None => {
            let ghost before = tbl@;
            tbl.push((k, v));
            assert(table_view(tbl@) =~= table_view(before).push((k@, v@)));
        },
    }
}

/// Sets every member of a JSON object, converted to TOML, in a table; keys
/// already there are overwritten.
pub fn merge_json_object_into_toml_table(json_obj: &Vec<(String, Json)>, toml_tbl: &mut Vec<(String, TomlValue)>)
    ensures
        table_view(final(toml_tbl)@) == merged_table(table_view(old(toml_tbl)@), members_view(json_obj@)),
{
    let ghost start = table_view(toml_tbl@);
    let ghost obj = members_view(json_obj@);
    let mut i: usize = 0;
    assert(obj.take(0) =~= Seq::<(Seq<char>, JsonView)>::empty());
    while i < json_obj.len()
        invariant
            0 <= i <= json_obj@.len(),
            obj == members_view(json_obj@),
            table_view(toml_tbl@) == merged_table(start, obj.take(i as int)),
        decreases json_obj@.len() - i,
    {
        assert(obj.take(i + 1).drop_last() =~= obj.take(i as int));
        match json_to_toml_value(&json_obj[i].1) {
            Some(tv) => table_insert(toml_tbl, json_obj[i].0.clone(), tv),
            None => {},
        }
        i += 1;
    }
    assert(obj.take(obj.len() as int) =~= obj);
}

} // verus!
