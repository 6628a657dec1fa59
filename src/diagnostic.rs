use vstd::prelude::*;

use crate::json::{member, members_view, Json, JsonView};
use crate::position::{Position, Range};
use crate::protocol::optional_member;

verus! {

/// A replacement of the text in `range`.
#[derive(Debug, Clone)]
pub struct Fix {
    pub range: Range,
    pub text: String,
}

/// A suggested fix, with a title.
#[derive(Debug, Clone)]
pub struct SuggestFix {
    pub title: String,
    pub fix: Option<Fix>,
}

/// One reported issue.
#[derive(Debug, Clone)]
pub struct Diagnostic {
    pub rule_id: String,
    pub message: String,
    /// `"error"`, `"warn"` or `"info"`.
    pub severity: String,
    pub range: Range,
    pub code: Option<String>,
    pub suggest: Option<Vec<SuggestFix>>,
    pub docs_url: Option<String>,
}

pub struct FixView {
    pub range: Range,
    pub text: Seq<char>,
}

pub struct SuggestFixView {
    pub title: Seq<char>,
    pub fix: Option<FixView>,
}

pub struct DiagnosticView {
    pub rule_id: Seq<char>,
    pub message: Seq<char>,
    pub severity: Seq<char>,
    pub range: Range,
    pub code: Option<Seq<char>>,
    pub suggest: Option<Seq<SuggestFixView>>,
    pub docs_url: Option<Seq<char>>,
}

/// The text of an optional string.
pub open spec fn opt_text(s: Option<String>) -> Option<Seq<char>> {
    match s {
        Some(t) => Some(t@),
        None => None,
    }
}

impl View for Fix {
    type V = FixView;

    open spec fn view(&self) -> FixView {
        FixView { range: self.range, text: self.text@ }
    }
}

impl View for SuggestFix {
    type V = SuggestFixView;

    open spec fn view(&self) -> SuggestFixView {
        SuggestFixView {
            title: self.title@,
            fix: match self.fix {
                Some(f) => Some(f@),
                None => None,
            },
        }
    }
}

impl View for Diagnostic {
    type V = DiagnosticView;

    open spec fn view(&self) -> DiagnosticView {
        DiagnosticView {
            rule_id: self.rule_id@,
            message: self.message@,
            severity: self.severity@,
            range: self.range,
            code: opt_text(self.code),
            suggest: match self.suggest {
                Some(v) => Some(v@.map_values(|s: SuggestFix| s@)),
                None => None,
            },
            docs_url: opt_text(self.docs_url),
        }
    }
}

/// The views of a sequence of diagnostics.
pub open spec fn diagnostic_views(v: Seq<Diagnostic>) -> Seq<DiagnosticView> {
    v.map_values(|d: Diagnostic| d@)
}

pub open spec fn position_json(p: Position) -> JsonView {
    JsonView::Object(
        seq![("line"@, JsonView::Int(p.line as i64)), ("character"@, JsonView::Int(p.character as i64))],
    )
}

pub open spec fn range_json(r: Range) -> JsonView {
    JsonView::Object(seq![("start"@, position_json(r.start)), ("end"@, position_json(r.end))])
}

pub open spec fn fix_json(f: FixView) -> JsonView {
    JsonView::Object(seq![("range"@, range_json(f.range)), ("text"@, JsonView::Str(f.text))])
}

pub open spec fn suggest_fix_json(s: SuggestFixView) -> JsonView {
    let base = seq![("title"@, JsonView::Str(s.title))];
    JsonView::Object(
        match s.fix {
            Some(f) => base.push(("fix"@, fix_json(f))),
            None => base,
        },
    )
}

/// Appends an optional string member when it is present.
pub open spec fn with_opt_text(m: Seq<(Seq<char>, JsonView)>, k: Seq<char>, v: Option<Seq<char>>) -> Seq<
    (Seq<char>, JsonView),
> {
    match v {
        Some(t) => m.push((k, JsonView::Str(t))),
        None => m,
    }
}

/// The JSON object a diagnostic is sent as; absent optional fields are left out.
pub open spec fn diagnostic_json(d: DiagnosticView) -> JsonView {
    let base = seq![
        ("rule_id"@, JsonView::Str(d.rule_id)),
        ("message"@, JsonView::Str(d.message)),
        ("severity"@, JsonView::Str(d.severity)),
        ("range"@, range_json(d.range)),
    ];
    let with_code = with_opt_text(base, "code"@, d.code);
    let with_suggest = match d.suggest {
        Some(s) => with_code.push(
            ("suggest"@, JsonView::Array(s.map_values(|x: SuggestFixView| suggest_fix_json(x)))),
        ),
        None => with_code,
    };
    JsonView::Object(with_opt_text(with_suggest, "docs_url"@, d.docs_url))
}

/// A `u32` read from a JSON integer.
pub open spec fn u32_of(j: Option<JsonView>) -> Option<u32> {
    match j {
        Some(JsonView::Int(i)) => if 0 <= i <= u32::MAX {
            Some(i as u32)
        } else {
            None
        },
        _ => None,
    }
}

pub open spec fn position_of(j: JsonView) -> Option<Position> {
    match (u32_of(member(j, "line"@)), u32_of(member(j, "character"@))) {
        (Some(l), Some(c)) => Some(Position { line: l, character: c }),
        _ => None,
    }
}

pub open spec fn range_of(j: JsonView) -> Option<Range> {
    match (member(j, "start"@), member(j, "end"@)) {
        (Some(s), Some(e)) => match (position_of(s), position_of(e)) {
            (Some(a), Some(b)) => Some(Range { start: a, end: b }),
            _ => None,
        },
        _ => None,
    }
}

/// A required string member.
pub open spec fn text_member(j: JsonView, k: Seq<char>) -> Option<Seq<char>> {
    match member(j, k) {
        Some(JsonView::Str(s)) => Some(s),
        _ => None,
    }
}

/// An optional string member: `Some(None)` when absent or `null`, nothing when
/// it holds another kind of value.
pub open spec fn opt_text_member(j: JsonView, k: Seq<char>) -> Option<Option<Seq<char>>> {
    match optional_member(j, k) {
        None => Some(None),
        Some(JsonView::Str(s)) => Some(Some(s)),
        Some(_) => None,
    }
}

pub open spec fn fix_of(j: JsonView) -> Option<FixView> {
    match (member(j, "range"@), text_member(j, "text"@)) {
        (Some(r), Some(t)) => match range_of(r) {
            Some(range) => Some(FixView { range, text: t }),
            None => None,
        },
        _ => None,
    }
}

pub open spec fn suggest_fix_of(j: JsonView) -> Option<SuggestFixView> {
    match text_member(j, "title"@) {
        Some(t) => match optional_member(j, "fix"@) {
            None => Some(SuggestFixView { title: t, fix: None }),
            Some(f) => match fix_of(f) {
                Some(fx) => Some(SuggestFixView { title: t, fix: Some(fx) }),
                None => None,
            },
        },
        None => None,
    }
}

/// Reads every element of a list with `f`; nothing if one of them fails.
pub open spec fn all_of<T>(v: Seq<JsonView>, f: spec_fn(JsonView) -> Option<T>) -> Option<Seq<T>>
    decreases v.len(),
{
    if v.len() == 0 {
        Some(Seq::empty())
    } else {
        match (all_of(v.drop_last(), f), f(v.last())) {
            (Some(init), Some(x)) => Some(init.push(x)),
            _ => None,
        }
    }
}

/// The optional list of suggested fixes.
pub open spec fn suggest_of(j: JsonView) -> Option<Option<Seq<SuggestFixView>>> {
    match optional_member(j, "suggest"@) {
        None => Some(None),
        Some(JsonView::Array(v)) => match all_of(v, |x: JsonView| suggest_fix_of(x)) {
            Some(s) => Some(Some(s)),
            None => None,
        },
        Some(_) => None,
    }
}

/// The diagnostic a JSON object holds: string `rule_id`, `message` and
/// `severity`, a `range`, and the optional `code`, `suggest` and `docs_url`.
pub open spec fn diagnostic_of(j: JsonView) -> Option<DiagnosticView> {
    match (text_member(j, "rule_id"@), text_member(j, "message"@), text_member(j, "severity"@)) {
        (Some(rule_id), Some(message), Some(severity)) => match member(j, "range"@) {
            Some(r) => match (
                range_of(r),
                opt_text_member(j, "code"@),
                suggest_of(j),
                opt_text_member(j, "docs_url"@),
            ) {
                (Some(range), Some(code), Some(suggest), Some(docs_url)) => Some(
                    DiagnosticView { rule_id, message, severity, range, code, suggest, docs_url },
                ),
                _ => None,
            },
            None => None,
        },
        _ => None,
    }
}

/// An integer member read as `u32`.
fn u32_member(j: &Json, k: &str) -> (r: Option<u32>)
    ensures
        r == u32_of(member(j@, k@)),
{
    match j.get(k) {
        Some(Json::Int(i)) => if 0 <= *i && *i <= 4294967295 {
            Some(*i as u32)
        } else {
            None
        },
        _ => None,
    }
}

/// A required string member.
fn string_member(j: &Json, k: &str) -> (r: Option<String>)
    ensures
        r is None ==> text_member(j@, k@) is None,
        r matches Some(s) ==> text_member(j@, k@) == Some(s@),
{
    match j.get(k) {
        Some(Json::Str(s)) => Some(s.clone()),
        _ => None,
    }
}

/// An optional string member; nothing when it holds another kind of value.
fn opt_string_member(j: &Json, k: &str) -> (r: Option<Option<String>>)
    ensures
        r is None ==> opt_text_member(j@, k@) is None,
        r matches Some(o) ==> opt_text_member(j@, k@) == Some(opt_text(o)),
{
    match j.get(k) {
        None => Some(None),
        Some(Json::Null) => Some(None),
        Some(Json::Str(s)) => Some(Some(s.clone())),
        Some(_) => None,
    }
}

/// A member `(k, v)` of an object under construction.
fn entry(k: &str, v: Json) -> (r: (String, Json))
    ensures
        r.0@ == k@,
        r.1@ == v@,
{
    (k.to_owned(), v)
}

impl Position {
    pub fn to_json(&self) -> (r: Json)
        ensures
            r@ == position_json(*self),
    {
        let m = vec![entry("line", Json::Int(self.line as i64)), entry("character", Json::Int(self.character as i64))];
        proof {
            Json::lemma_object_view(m);
            assert(members_view(m@) =~= position_json(*self)->Object_0);
        }
        Json::Object(m)
    }

    pub fn from_json(j: &Json) -> (r: Option<Position>)
        ensures
            r == position_of(j@),
    {
        match (u32_member(j, "line"), u32_member(j, "character")) {
            (Some(line), Some(character)) => Some(Position { line, character }),
            _ => None,
        }
    }
}

impl Range {
    pub fn to_json(&self) -> (r: Json)
        ensures
            r@ == range_json(*self),
    {
        let m = vec![entry("start", self.start.to_json()), entry("end", self.end.to_json())];
        proof {
            Json::lemma_object_view(m);
            assert(members_view(m@) =~= range_json(*self)->Object_0);
        }
        Json::Object(m)
    }

    pub fn from_json(j: &Json) -> (r: Option<Range>)
        ensures
            r == range_of(j@),
    {
        match (j.get("start"), j.get("end")) {
            (Some(s), Some(e)) => match (Position::from_json(s), Position::from_json(e)) {
                (Some(start), Some(end)) => Some(Range { start, end }),
                _ => None,
            },
            _ => None,
        }
    }
}

impl Fix {
    pub fn to_json(&self) -> (r: Json)
        ensures
            r@ == fix_json(self@),
    {
        let m = vec![entry("range", self.range.to_json()), entry("text", Json::Str(self.text.clone()))];
        proof {
            Json::lemma_object_view(m);
            assert(members_view(m@) =~= fix_json(self@)->Object_0);
        }
        Json::Object(m)
    }

    pub fn from_json(j: &Json) -> (r: Option<Fix>)
        ensures
            r is None ==> fix_of(j@) is None,
            r matches Some(f) ==> fix_of(j@) == Some(f@),
    {
        match (j.get("range"), string_member(j, "text")) {
            (Some(r), Some(text)) => match Range::from_json(r) {
                Some(range) => Some(Fix { range, text }),
                None => None,
            },
            _ => None,
        }
    }
}

impl SuggestFix {
    pub fn to_json(&self) -> (r: Json)
        ensures
            r@ == suggest_fix_json(self@),
    {
        let mut m = vec![entry("title", Json::Str(self.title.clone()))];
        let ghost base = members_view(m@);
        match &self.fix {
            Some(f) => m.push(entry("fix", f.to_json())),
            None => {},
        }
        proof {
            Json::lemma_object_view(m);
            assert(base =~= seq![("title"@, JsonView::Str(self.title@))]);
            assert(members_view(m@) =~= suggest_fix_json(self@)->Object_0);
        }
        Json::Object(m)
    }

    pub fn from_json(j: &Json) -> (r: Option<SuggestFix>)
        ensures
            r is None ==> suggest_fix_of(j@) is None,
            r matches Some(f) ==> suggest_fix_of(j@) == Some(f@),
    {
        let title = match string_member(j, "title") {
            Some(t) => t,
            None => return None,
        };
        match j.get("fix") {
            None => Some(SuggestFix { title, fix: None }),
            Some(Json::Null) => Some(SuggestFix { title, fix: None }),
            Some(f) => match Fix::from_json(f) {
                Some(fx) => Some(SuggestFix { title, fix: Some(fx) }),
                None => None,
            },
        }
    }
}

impl Diagnostic {
    /// The JSON object this diagnostic is sent as.
    pub fn to_json(&self) -> (r: Json)
        ensures
            r@ == diagnostic_json(self@),
    {
        let mut m = vec![
            entry("rule_id", Json::Str(self.rule_id.clone())),
            entry("message", Json::Str(self.message.clone())),
            entry("severity", Json::Str(self.severity.clone())),
            entry("range", self.range.to_json()),
        ];
        let ghost d = self@;
        let ghost base = members_view(m@);
        assert(base =~= seq![
            ("rule_id"@, JsonView::Str(d.rule_id)),
            ("message"@, JsonView::Str(d.message)),
            ("severity"@, JsonView::Str(d.severity)),
            ("range"@, range_json(d.range)),
        ]);
        match &self.code {
            Some(c) => m.push(entry("code", Json::Str(c.clone()))),
            None => {},
        }
        let ghost with_code = members_view(m@);
        assert(with_code =~= with_opt_text(base, "code"@, d.code));
        match &self.suggest {
            Some(list) => {
                let mut items: Vec<Json> = Vec::new();
                let mut i: usize = 0;
                while i < list.len()
                    invariant
                        0 <= i <= list@.len(),
                        items@.len() == i,
                        forall|k: int| 0 <= k < i ==> (#[trigger] items@[k])@ == suggest_fix_json(list@[k]@),
                    decreases list@.len() - i,
                {
                    items.push(list[i].to_json());
                    i += 1;
                }
                proof {
                    Json::lemma_array_view(items);
                    assert(items@.map_values(|x: Json| x@) =~= list@.map_values(|s: SuggestFix| s@).map_values(
                        |x: SuggestFixView| suggest_fix_json(x),
                    ));
                }
                let ghost before = m@;
                m.push(entry("suggest", Json::Array(items)));
                assert(members_view(m@) =~= members_view(before).push(
                    ("suggest"@, JsonView::Array(list@.map_values(|s: SuggestFix| s@).map_values(
                        |x: SuggestFixView| suggest_fix_json(x),
                    ))),
                ));
            },
            None => {},
        }
        let ghost with_suggest = members_view(m@);
        assert(with_suggest == match d.suggest {
            Some(s) => with_code.push(
                ("suggest"@, JsonView::Array(s.map_values(|x: SuggestFixView| suggest_fix_json(x)))),
            ),
            None => with_code,
        });
        match &self.docs_url {
            Some(u) => m.push(entry("docs_url", Json::Str(u.clone()))),
            None => {},
        }
        proof {
            Json::lemma_object_view(m);
            assert(members_view(m@) =~= with_opt_text(with_suggest, "docs_url"@, d.docs_url));
        }
        Json::Object(m)
    }

    /// The diagnostic a JSON object holds, if it holds one.
    pub fn from_json(j: &Json) -> (r: Option<Diagnostic>)
        ensures
            r is None ==> diagnostic_of(j@) is None,
            r matches Some(d) ==> diagnostic_of(j@) == Some(d@),
    {
        let rule_id = match string_member(j, "rule_id") {
            Some(s) => s,
            None => return None,
        };
        let message = match string_member(j, "message") {
            Some(s) => s,
            None => return None,
        };
        let severity = match string_member(j, "severity") {
            Some(s) => s,
            None => return None,
        };
        let range = match j.get("range") {
            Some(r) => match Range::from_json(r) {
                Some(r) => r,
                None => return None,
            },
            None => return None,
        };
        let code = match opt_string_member(j, "code") {
            Some(c) => c,
            None => return None,
        };
        let suggest = match suggest_from_json(j) {
            Some(s) => s,
            None => return None,
        };
        let docs_url = match opt_string_member(j, "docs_url") {
            Some(u) => u,
            None => return None,
        };
        Some(Diagnostic { rule_id, message, severity, range, code, suggest, docs_url })
    }
}

/// The optional list of suggested fixes of a diagnostic object.
fn suggest_from_json(j: &Json) -> (r: Option<Option<Vec<SuggestFix>>>)
    ensures
        r is None ==> suggest_of(j@) is None,
        r matches Some(o) ==> suggest_of(j@) == Some(
            match o {
                Some(v) => Some(v@.map_values(|s: SuggestFix| s@)),
                None => None,
            },
        ),
{
    let v = match j.get("suggest") {
        None => return Some(None),
        Some(Json::Null) => return Some(None),
        Some(Json::Array(v)) => v,
        Some(_) => return None,
    };
    proof {
        Json::lemma_array_view(*v);
    }
    let ghost vs = v@.map_values(|x: Json| x@);
    let ghost f = |x: JsonView| suggest_fix_of(x);
    let mut out: Vec<SuggestFix> = Vec::new();
    let mut i: usize = 0;
    assert(vs.take(0) =~= Seq::<JsonView>::empty());
    assert(out@.map_values(|s: SuggestFix| s@) =~= Seq::<SuggestFixView>::empty());
    while i < v.len()
        invariant
            0 <= i <= v@.len(),
            vs == v@.map_values(|x: Json| x@),
            f == (|x: JsonView| suggest_fix_of(x)),
            optional_member(j@, "suggest"@) == Some(JsonView::Array(vs)),
            all_of(vs.take(i as int), f) == Some(out@.map_values(|s: SuggestFix| s@)),
        decreases v@.len() - i,
    {
        assert(vs.take(i + 1).drop_last() =~= vs.take(i as int));
        match SuggestFix::from_json(&v[i]) {
            Some(x) => {
                let ghost before = out@;
                out.push(x);
                assert(out@.map_values(|s: SuggestFix| s@) =~= before.map_values(|s: SuggestFix| s@).push(x@));
            },
            None => {
                assert(all_of(vs.take(i + 1), f) is None);
                assert forall|n: int| i + 1 <= n <= vs.len() implies all_of(vs.take(n), f) is None by {
                    lemma_all_of_fails(vs, f, i + 1, n);
                }
                assert(vs.take(vs.len() as int) =~= vs);
                assert(all_of(vs.take(vs.len() as int), f) is None);
                assert(all_of(vs, f) is None);
                assert(all_of(vs, |x: JsonView| suggest_fix_of(x)) is None);
                return None;
            },
        }
        i += 1;
    }
    assert(vs.take(vs.len() as int) =~= vs);
    Some(Some(out))
}

proof fn lemma_all_of_fails<T>(vs: Seq<JsonView>, f: spec_fn(JsonView) -> Option<T>, a: int, n: int)
    requires
        0 <= a <= n <= vs.len(),
        all_of(vs.take(a), f) is None,
    ensures
        all_of(vs.take(n), f) is None,
    decreases n - a,
{
    if n > a {
        lemma_all_of_fails(vs, f, a, n - 1);
        assert(vs.take(n).drop_last() =~= vs.take(n - 1));
    }
}

/// The diagnostics a JSON list holds; nothing when it is not a list or one
/// element is not a diagnostic.
pub open spec fn diagnostics_of(j: JsonView) -> Option<Seq<DiagnosticView>> {
    match j {
        JsonView::Array(v) => all_of(v, |x: JsonView| diagnostic_of(x)),
        _ => None,
    }
}

/// Reads a JSON list of diagnostics.
pub fn diagnostics_from_json(j: &Json) -> (r: Option<Vec<Diagnostic>>)
    ensures
        r is None ==> diagnostics_of(j@) is None,
        r matches Some(v) ==> diagnostics_of(j@) == Some(diagnostic_views(v@)),
{
    let v = match j {
        Json::Array(v) => v,
        _ => return None,
    };
    proof {
        Json::lemma_array_view(*v);
    }
    let ghost vs = v@.map_values(|x: Json| x@);
    let ghost f = |x: JsonView| diagnostic_of(x);
    let mut out: Vec<Diagnostic> = Vec::new();
    let mut i: usize = 0;
    assert(vs.take(0) =~= Seq::<JsonView>::empty());
    assert(diagnostic_views(out@) =~= Seq::<DiagnosticView>::empty());
    while i < v.len()
        invariant
            0 <= i <= v@.len(),
            vs == v@.map_values(|x: Json| x@),
            f == (|x: JsonView| diagnostic_of(x)),
            j@ == JsonView::Array(vs),
            all_of(vs.take(i as int), f) == Some(diagnostic_views(out@)),
        decreases v@.len() - i,
    {
        assert(vs.take(i + 1).drop_last() =~= vs.take(i as int));
        match Diagnostic::from_json(&v[i]) {
            Some(x) => {
                let ghost before = out@;
                out.push(x);
                assert(diagnostic_views(out@) =~= diagnostic_views(before).push(x@));
            },
            None => {
                assert forall|n: int| i + 1 <= n <= vs.len() implies all_of(vs.take(n), f) is None by {
                    lemma_all_of_fails(vs, f, i + 1, n);
                }
                assert(vs.take(vs.len() as int) =~= vs);
                assert(all_of(vs.take(vs.len() as int), f) is None);
                assert(all_of(vs, f) is None);
                assert(all_of(vs, |x: JsonView| diagnostic_of(x)) is None);
                return None;
            },
        }
        i += 1;
    }
    assert(vs.take(vs.len() as int) =~= vs);
    Some(out)
}

/// The JSON list a sequence of diagnostics is sent as.
pub fn diagnostics_to_json(v: &Vec<Diagnostic>) -> (r: Json)
    ensures
        r@ == JsonView::Array(diagnostic_views(v@).map_values(|d: DiagnosticView| diagnostic_json(d))),
{
    let mut items: Vec<Json> = Vec::new();
    let mut i: usize = 0;
    while i < v.len()
        invariant
            0 <= i <= v@.len(),
            items@.len() == i,
            forall|k: int| 0 <= k < i ==> (#[trigger] items@[k])@ == diagnostic_json(v@[k]@),
        decreases v@.len() - i,
    {
        items.push(v[i].to_json());
        i += 1;
    }
    proof {
        Json::lemma_array_view(items);
        assert(items@.map_values(|x: Json| x@) =~= diagnostic_views(v@).map_values(
            |d: DiagnosticView| diagnostic_json(d),
        ));
    }
    Json::Array(items)
}

} // verus!
