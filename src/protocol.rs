use vstd::prelude::*;

use crate::json::{member, members_view, Json, JsonView};
use crate::keyed::{first_key_at, lemma_key_pos, lemma_key_pos_none};
use crate::text::text_eq;

verus! {

broadcast use vstd::string::group_string_axioms;

/// The protocol version this library speaks.
pub const PROTOCOL_VERSION: u8 = 1;

/// The kind of a message.
#[derive(Debug, Clone, Copy, PartialEq, Eq, Structural)]
pub enum Kind {
    Req,
    Res,
    Event,
}

/// The frame of every message between host and engine.
#[derive(Debug)]
pub struct Envelope {
    pub v: u8,
    pub kind: Kind,
    /// The operation or event name (`type` on the wire).
    pub typ: String,
    /// The correlation id; present on requests and responses.
    pub id: Option<String>,
    pub payload: Option<Json>,
}

/// An envelope, as plain values.
pub struct EnvelopeView {
    pub v: u8,
    pub kind: Kind,
    pub typ: Seq<char>,
    pub id: Option<Seq<char>>,
    pub payload: Option<JsonView>,
}

impl View for Envelope {
    type V = EnvelopeView;

    open spec fn view(&self) -> EnvelopeView {
        EnvelopeView {
            v: self.v,
            kind: self.kind,
            typ: self.typ@,
            id: match self.id {
                Some(s) => Some(s@),
                None => None,
            },
            payload: match self.payload {
                Some(p) => Some(p@),
                None => None,
            },
        }
    }
}

/// The wire name of a kind.
pub open spec fn kind_name(k: Kind) -> Seq<char> {
    match k {
        Kind::Req => "req"@,
        Kind::Res => "res"@,
        Kind::Event => "event"@,
    }
}

/// The kind a wire name stands for.
pub open spec fn kind_of_name(s: Seq<char>) -> Option<Kind> {
    if s == "req"@ {
        Some(Kind::Req)
    } else if s == "res"@ {
        Some(Kind::Res)
    } else if s == "event"@ {
        Some(Kind::Event)
    } else {
        None
    }
}

/// The JSON object an envelope is sent as: `v`, `kind`, `type`, then `id` and
/// `payload` where present.
pub open spec fn envelope_json(e: EnvelopeView) -> JsonView {
    let base = seq![
        ("v"@, JsonView::Int(e.v as i64)),
        ("kind"@, JsonView::Str(kind_name(e.kind))),
        ("type"@, JsonView::Str(e.typ)),
    ];
    let with_id = match e.id {
        Some(id) => base.push(("id"@, JsonView::Str(id))),
        None => base,
    };
    let all = match e.payload {
        Some(p) => with_id.push(("payload"@, p)),
        None => with_id,
    };
    JsonView::Object(all)
}

/// An optional member: absent and `null` both read as nothing.
pub open spec fn optional_member(j: JsonView, k: Seq<char>) -> Option<JsonView> {
    match member(j, k) {
        Some(JsonView::Null) => None,
        other => other,
    }
}

/// The envelope a JSON value holds: an object with an integer `v` in `0..=255`,
/// a known `kind`, a string `type`, an optional string `id` and an optional
/// `payload`. Other members are ignored.
pub open spec fn envelope_of_json(j: JsonView) -> Option<EnvelopeView> {
    match (member(j, "v"@), member(j, "kind"@), member(j, "type"@)) {
        (Some(JsonView::Int(v)), Some(JsonView::Str(k)), Some(JsonView::Str(t))) => {
            if 0 <= v <= 255 && kind_of_name(k) is Some {
                match optional_member(j, "id"@) {
                    None => Some(
                        EnvelopeView {
                            v: v as u8,
                            kind: kind_of_name(k)->0,
                            typ: t,
                            id: None,
                            payload: optional_member(j, "payload"@),
                        },
                    ),
                    Some(JsonView::Str(id)) => Some(
                        EnvelopeView {
                            v: v as u8,
                            kind: kind_of_name(k)->0,
                            typ: t,
                            id: Some(id),
                            payload: optional_member(j, "payload"@),
                        },
                    ),
                    Some(_) => None,
                }
            } else {
                None
            }
        },
        _ => None,
    }
}

/// The wire name of a kind.
pub fn kind_text(k: Kind) -> (r: &'static str)
    ensures
        r@ == kind_name(k),
{
    match k {
        Kind::Req => "req",
        Kind::Res => "res",
        Kind::Event => "event",
    }
}

/// The kind a wire name stands for.
pub fn kind_from_text(s: &str) -> (r: Option<Kind>)
    ensures
        r == kind_of_name(s@),
{
    if text_eq(s, "req") {
        Some(Kind::Req)
    } else if text_eq(s, "res") {
        Some(Kind::Res)
    } else if text_eq(s, "event") {
        Some(Kind::Event)
    } else {
        None
    }
}

proof fn lemma_member_at(m: Seq<(Seq<char>, JsonView)>, k: Seq<char>, i: int)
    requires
        0 <= i < m.len(),
        m[i].0 == k,
        forall|j: int| 0 <= j < i ==> m[j].0 != k,
    ensures
        member(JsonView::Object(m), k) == Some(m[i].1),
{
    let keys = m.map_values(|e: (Seq<char>, JsonView)| e.0);
    assert(first_key_at(keys, k, i));
    lemma_key_pos(keys, k, i);
}

proof fn lemma_member_absent(m: Seq<(Seq<char>, JsonView)>, k: Seq<char>)
    requires
        forall|j: int| 0 <= j < m.len() ==> m[j].0 != k,
    ensures
        member(JsonView::Object(m), k) is None,
{
    let keys = m.map_values(|e: (Seq<char>, JsonView)| e.0);
    assert forall|j: int| 0 <= j < keys.len() implies keys[j] != k by {}
    lemma_key_pos_none(keys, k);
}

/// Sending an envelope as JSON and reading it back gives the same envelope,
/// provided its payload, if any, is not `null` (which reads back as no payload).
pub proof fn lemma_envelope_round_trip(e: EnvelopeView)
    requires
        e.payload != Some(JsonView::Null),
    ensures
        envelope_of_json(envelope_json(e)) == Some(e),
{
    reveal_strlit("v");
    reveal_strlit("kind");
    reveal_strlit("type");
    reveal_strlit("id");
    reveal_strlit("payload");
    reveal_strlit("req");
    reveal_strlit("res");
    reveal_strlit("event");
    assert("v"@.len() == 1 && "kind"@.len() == 4 && "type"@.len() == 4 && "id"@.len() == 2);
    assert("payload"@.len() == 7);
    assert("kind"@[0] != "type"@[0]);
    assert("req"@.len() == 3 && "res"@.len() == 3 && "event"@.len() == 5);
    assert("req"@[2] != "res"@[2]);
    let j = envelope_json(e);
    let m = j->Object_0;
    lemma_member_at(m, "v"@, 0);
    lemma_member_at(m, "kind"@, 1);
    lemma_member_at(m, "type"@, 2);
    assert(kind_of_name(kind_name(e.kind)) == Some(e.kind));
    match e.id {
        Some(id) => {
            lemma_member_at(m, "id"@, 3);
            match e.payload {
                Some(p) => lemma_member_at(m, "payload"@, 4),
                None => lemma_member_absent(m, "payload"@),
            }
        },
        None => {
            lemma_member_absent(m, "id"@);
            match e.payload {
                Some(p) => lemma_member_at(m, "payload"@, 3),
                None => lemma_member_absent(m, "payload"@),
            }
        },
    }
}

/// A writer of newline-delimited messages: one message per line.
pub struct Ndjson<W> {
    writer: W,
}

impl<W> Ndjson<W> {
    pub fn new(writer: W) -> (r: Self)
        ensures
            r.writer() == writer,
    {
        Ndjson { writer }
    }

    pub closed spec fn writer(&self) -> W {
        self.writer
    }

    /// The underlying writer.
    pub fn get_mut(&mut self) -> &mut W {
        &mut self.writer
    }
}

/// The text of one message line: the message and a line feed.
pub fn frame_line(text: &str) -> (r: String)
    ensures
        r@ == text@.push('\n'),
{
    let r = crate::text::join(text, "\n");
    proof {
        reveal_strlit("\n");
        assert(r@ =~= text@.push('\n'));
    }
    r
}

impl Envelope {
    /// The JSON object this envelope is sent as.
    pub fn to_json(&self) -> (r: Json)
        ensures
            r@ == envelope_json(self@),
    {
        let mut m: Vec<(String, Json)> = Vec::new();
        m.push(("v".to_owned(), Json::Int(self.v as i64)));
        m.push(("kind".to_owned(), Json::Str(kind_text(self.kind).to_owned())));
        m.push(("type".to_owned(), Json::Str(self.typ.clone())));
        let ghost base = members_view(m@);
        match &self.id {
            Some(id) => m.push(("id".to_owned(), Json::Str(id.clone()))),
            None => {},
        }
        let ghost with_id = members_view(m@);
        match &self.payload {
            Some(p) => m.push(("payload".to_owned(), p.duplicate())),
            None => {},
        }
        proof {
            Json::lemma_object_view(m);
            let e = self@;
            let b = seq![
                ("v"@, JsonView::Int(e.v as i64)),
                ("kind"@, JsonView::Str(kind_name(e.kind))),
                ("type"@, JsonView::Str(e.typ)),
            ];
            assert(base =~= b);
            assert(members_view(m@) =~= envelope_json(e)->Object_0);
        }
        Json::Object(m)
    }

    /// The envelope a JSON value holds, if it holds one.
    pub fn from_json(j: &Json) -> (r: Option<Envelope>)
        ensures
            r is None ==> envelope_of_json(j@) is None,
            r matches Some(e) ==> envelope_of_json(j@) == Some(e@),
    {
        let v = match j.get("v") {
            Some(Json::Int(v)) => *v,
            _ => return None,
        };
        let kind_name = match j.get("kind") {
            Some(Json::Str(k)) => k,
            _ => return None,
        };
        let typ = match j.get("type") {
            Some(Json::Str(t)) => t.clone(),
            _ => return None,
        };
        if v < 0 || v > 255 {
            return None;
        }
        let kind = match kind_from_text(kind_name.as_str()) {
            Some(k) => k,
            None => return None,
        };
        let id = match j.get("id") {
            None => None,
            Some(Json::Null) => None,
            Some(Json::Str(s)) => Some(s.clone()),
            Some(_) => return None,
        };
        let payload = match j.get("payload") {
            None => None,
            Some(Json::Null) => None,
            Some(p) => Some(p.duplicate()),
        };
        Some(Envelope { v: v as u8, kind, typ, id, payload })
    }

    /// An event: no id.
    pub fn event(typ: &str, payload: Json) -> (r: Self)
        ensures
            r@ == (EnvelopeView {
                v: 1,
                kind: Kind::Event,
                typ: typ@,
                id: None,
                payload: Some(payload@),
            }),
    {
        Envelope {
            v: PROTOCOL_VERSION,
            kind: Kind::Event,
            typ: typ.to_owned(),
            id: None,
            payload: Some(payload),
        }
    }

    /// A response to the request with id `id`.
    pub fn res(typ: &str, id: &str, payload: Json) -> (r: Self)
        ensures
            r@ == (EnvelopeView {
                v: 1,
                kind: Kind::Res,
                typ: typ@,
                id: Some(id@),
                payload: Some(payload@),
            }),
    {
        Envelope {
            v: PROTOCOL_VERSION,
            kind: Kind::Res,
            typ: typ.to_owned(),
            id: Some(id.to_owned()),
            payload: Some(payload),
        }
    }

    /// A request with id `id`.
    pub fn req(typ: &str, id: &str, payload: Json) -> (r: Self)
        ensures
            r@ == (EnvelopeView {
                v: 1,
                kind: Kind::Req,
                typ: typ@,
                id: Some(id@),
                payload: Some(payload@),
            }),
    {
        Envelope {
            v: PROTOCOL_VERSION,
            kind: Kind::Req,
            typ: typ.to_owned(),
            id: Some(id.to_owned()),
            payload: Some(payload),
        }
    }
}

} // verus!
