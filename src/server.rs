use vstd::prelude::*;

use crate::annotation::{annotation_views, annotations_of, Annotation, AnnotationParser, AnnotationView};
use crate::capabilities::{ConfigSetting, ConfigType, PreprocessingContext, RulesetCapabilities, object};
use crate::diagnostic::{diagnostic_json, diagnostic_views, diagnostics_to_json, Diagnostic, DiagnosticView};
use crate::engine::{
    copy_members, engine_config_of, merge_engine_config, merged_config, new_object, rule_options, rule_options_of,
    EngineConfig, EngineConfigView,
};
use crate::json::{member, members_view, parse_json, parsed_json, Json, JsonView};
use crate::protocol::{envelope_of_json, Envelope, EnvelopeView, Kind};
use crate::ruleset::{
    flatten, masked, options_view, run_outcome, run_ruleset_with_annotations, Rule, RuleInfo, Ruleset,
    RulesetOptions,
};
use crate::text::{join, text_eq, texts};

verus! {

broadcast use vstd::string::group_string_axioms;

/// What an engine offers to the server: its default configuration, its
/// rulesets, its capabilities and its preprocessing.
pub trait EngineOptions {
    type RuleImpl: Rule;

    fn get_default_config(&self) -> EngineConfig;

    fn load_ruleset(&self, id: &str) -> Result<Ruleset<Self::RuleImpl>, String>;

    fn get_capabilities(&self) -> RulesetCapabilities;

    fn preprocess_files(&self, file_uris: &Vec<String>) -> Result<PreprocessingContext, String>;

    /// The ids of every ruleset this engine can load.
    fn list_rulesets(&self) -> Vec<String>;
}

/// Where an engine server stands.
#[derive(Debug, Clone, Copy, PartialEq, Eq, Structural)]
pub enum ServerState {
    Uninitialized,
    Initialized,
    /// After `shutdown`: no request is answered any more.
    Shutdown,
}

/// A loaded ruleset and the options of its enabled rules.
pub struct Loaded<R> {
    pub ruleset: Ruleset<R>,
    pub config: Vec<(String, Json)>,
}

/// The engine side of the protocol: takes one message at a time and gives
/// the messages to send back, in order.
pub struct EngineServer<O: EngineOptions> {
    state: ServerState,
    cfg: EngineConfig,
    loaded: Vec<(String, Loaded<O::RuleImpl>)>,
    opts: O,
}

/// The operations the server answers.
pub open spec fn known_type(t: Seq<char>) -> bool {
    ||| t == "initialize"@
    ||| t == "shutdown"@
    ||| t == "getDefaultConfig"@
    ||| t == "getCapabilities"@
    ||| t == "preprocessFiles"@
    ||| t == "analyzeFile"@
}

/// The id a request is answered under: its own, or empty when it has none.
pub open spec fn request_id(e: EnvelopeView) -> Seq<char> {
    match e.id {
        Some(i) => i,
        None => Seq::empty(),
    }
}

/// The views of a sequence of envelopes.
pub open spec fn envelope_views(v: Seq<Envelope>) -> Seq<EnvelopeView> {
    v.map_values(|e: Envelope| e@)
}

/// Every message is an event.
pub open spec fn events_only(out: Seq<EnvelopeView>) -> bool {
    forall|i: int| 0 <= i < out.len() ==> (#[trigger] out[i]).kind == Kind::Event
}

/// `out` answers request `(typ, id)`: it ends with the one response, of that
/// type and id, and all before it are events.
pub open spec fn answers(out: Seq<EnvelopeView>, typ: Seq<char>, id: Seq<char>) -> bool {
    &&& out.len() >= 1
    &&& out.last().kind == Kind::Res
    &&& out.last().typ == typ
    &&& out.last().id == Some(id)
    &&& events_only(out.drop_last())
}

/// `{"ok": true}`.
pub open spec fn ok_json() -> JsonView {
    JsonView::Object(seq![("ok"@, JsonView::Bool(true))])
}

/// `{"ok": false, "error": msg}`.
pub open spec fn error_json(msg: Seq<char>) -> JsonView {
    JsonView::Object(seq![("ok"@, JsonView::Bool(false)), ("error"@, JsonView::Str(msg))])
}

pub fn ok_payload() -> (r: Json)
    ensures
        r@ == ok_json(),
{
    let m = vec![("ok".to_owned(), Json::Bool(true))];
    let r = object(m);
    assert(members_view(m@) =~= seq![("ok"@, JsonView::Bool(true))]);
    r
}

pub fn error_payload(msg: &str) -> (r: Json)
    ensures
        r@ == error_json(msg@),
{
    let m = vec![("ok".to_owned(), Json::Bool(false)), ("error".to_owned(), Json::Str(msg.to_owned()))];
    let r = object(m);
    assert(members_view(m@) =~= seq![("ok"@, JsonView::Bool(false)), ("error"@, JsonView::Str(msg@))]);
    r
}

/// `{"level": level, "message": message}`.
pub open spec fn log_json(level: Seq<char>, message: Seq<char>) -> JsonView {
    JsonView::Object(seq![("level"@, JsonView::Str(level)), ("message"@, JsonView::Str(message))])
}

/// A `log` event at level `level`.
pub fn log_event(level: &str, message: &str) -> (r: Envelope)
    ensures
        r@ == (EnvelopeView {
            v: 1,
            kind: Kind::Event,
            typ: "log"@,
            id: None,
            payload: Some(log_json(level@, message@)),
        }),
{
    let m = vec![
        ("level".to_owned(), Json::Str(level.to_owned())),
        ("message".to_owned(), Json::Str(message.to_owned())),
    ];
    let o = object(m);
    assert(members_view(m@) =~= log_json(level@, message@)->Object_0);
    Envelope::event("log", o)
}

/// A string member of a payload; empty when it is missing or not a string.
fn payload_text(payload: &Json, k: &str) -> (r: String)
    ensures
        r@ == text_or_empty(payload@, k@),
{
    match payload.get(k) {
        Some(Json::Str(s)) => s.clone(),
        _ => String::new(),
    }
}

/// The strings among a list of JSON values, in order.
pub open spec fn strings_among(v: Seq<JsonView>) -> Seq<Seq<char>>
    decreases v.len(),
{
    if v.len() == 0 {
        Seq::empty()
    } else {
        let r = strings_among(v.drop_last());
        match v.last() {
            JsonView::Str(s) => r.push(s),
            _ => r,
        }
    }
}

/// The strings of the list member `k` of a payload; non-strings are skipped,
/// and a missing or non-list member gives none.
fn payload_strings(payload: &Json, k: &str) -> (r: Vec<String>)
    ensures
        texts(r@) == match member(payload@, k@) {
            Some(JsonView::Array(v)) => strings_among(v),
            _ => Seq::empty(),
        },
{
    let mut out: Vec<String> = Vec::new();
    assert(texts(out@) =~= Seq::<Seq<char>>::empty());
    if let Some(Json::Array(items)) = payload.get(k) {
        proof {
            Json::lemma_array_view(*items);
        }
        let ghost vs = items@.map_values(|x: Json| x@);
        let mut i: usize = 0;
        assert(vs.take(0) =~= Seq::<JsonView>::empty());
        while i < items.len()
            invariant
                0 <= i <= items@.len(),
                vs == items@.map_values(|x: Json| x@),
                texts(out@) == strings_among(vs.take(i as int)),
            decreases items@.len() - i,
        {
            assert(vs.take(i + 1).drop_last() =~= vs.take(i as int));
            if let Json::Str(s) = &items[i] {
                let ghost before = out@;
                out.push(s.clone());
                assert(texts(out@) =~= texts(before).push(s@));
            }
            i += 1;
        }
        assert(vs.take(vs.len() as int) =~= vs);
    }
    out
}

/// The payload of a request; an empty object when it has none.
pub open spec fn request_payload(e: EnvelopeView) -> JsonView {
    match e.payload {
        Some(p) => p,
        None => JsonView::Object(Seq::empty()),
    }
}

/// A string member of a payload; empty when it is missing or not a string.
pub open spec fn text_or_empty(p: JsonView, k: Seq<char>) -> Seq<char> {
    match member(p, k) {
        Some(JsonView::Str(s)) => s,
        _ => Seq::empty(),
    }
}

/// The payload of the `diagnostics` event for one file.
pub open spec fn analysis_json(uri: Seq<char>, ds: Seq<DiagnosticView>) -> JsonView {
    JsonView::Object(
        seq![
            ("uri"@, JsonView::Str(uri)),
            ("diagnostics"@, JsonView::Array(ds.map_values(|d: DiagnosticView| diagnostic_json(d)))),
        ],
    )
}

/// A `log` event at `warn`.
pub open spec fn warn_log(e: EnvelopeView) -> bool {
    exists|m: Seq<char>|
        e == (EnvelopeView {
            v: 1,
            kind: Kind::Event,
            typ: "log"@,
            id: None,
            payload: Some(#[trigger] log_json("warn"@, m)),
        })
}

/// `ds` is what running the loaded rulesets in order on `content` can give,
/// with masking on when there are comment prefixes and the annotations parsed
/// from `content` with those prefixes.
pub open spec fn loaded_outcome<R: Rule>(
    loaded: Seq<(String, Loaded<R>)>,
    prefixes: Seq<Seq<char>>,
    content: Seq<char>,
    ds: Seq<DiagnosticView>,
) -> bool {
    exists|parts: Seq<Seq<DiagnosticView>>|
        #![trigger flatten(parts)]
        {
            &&& parts.len() == loaded.len()
            &&& flatten(parts) == ds
            &&& forall|i: int|
                0 <= i < loaded.len() ==> ruleset_outcome(
                    loaded[i].1,
                    prefixes.len() > 0,
                    annotations_of(prefixes, content),
                    #[trigger] parts[i],
                )
        }
}

/// What a server answers to a message, whatever its kind, but for what
/// `initialize` stores. `old_loaded` are the rulesets loaded before it.
pub open spec fn replies<R: Rule>(
    old_state: ServerState,
    new_state: ServerState,
    old_loaded: Seq<(String, Loaded<R>)>,
    new_loaded: Seq<(String, Loaded<R>)>,
    msg: JsonView,
    outv: Seq<EnvelopeView>,
) -> bool {
    match envelope_of_json(msg) {
        None => outv.len() == 1 && warn_log(outv[0]) && new_state == old_state && new_loaded == old_loaded,
        Some(e) => if old_state == ServerState::Shutdown {
            outv.len() == 0 && new_state == ServerState::Shutdown && new_loaded == old_loaded
        } else if known_type(e.typ) {
            let p = request_payload(e);
            &&& answers(outv, e.typ, request_id(e))
            &&& e.v == 1 && e.typ != "analyzeFile"@ ==> outv.len() == 1
            &&& e.typ == "shutdown"@ ==> new_state == ServerState::Shutdown && outv.last().payload
                == Some(ok_json()) && new_loaded.len() == 0
            &&& e.typ == "analyzeFile"@ && old_state == ServerState::Uninitialized ==> {
                &&& outv.last().payload == Some(error_json("not_initialized"@))
                &&& new_state == ServerState::Uninitialized
                &&& e.v == 1 ==> outv.len() == 1
            }
            &&& e.typ == "analyzeFile"@ && old_state == ServerState::Initialized ==> {
                &&& outv.last().payload == Some(ok_json())
                &&& outv.len() >= 2
                &&& e.v == 1 ==> outv.len() == 2
                &&& exists|ds: Seq<DiagnosticView>, prefixes: Seq<Seq<char>>|
                    #[trigger] loaded_outcome(old_loaded, prefixes, text_or_empty(p, "content"@), ds)
                        && outv[outv.len() - 2] == (EnvelopeView {
                        v: 1,
                        kind: Kind::Event,
                        typ: "diagnostics"@,
                        id: None,
                        payload: Some(analysis_json(text_or_empty(p, "uri"@), ds)),
                    })
            }
            &&& e.typ == "preprocessFiles"@ ==> (exists|m: Seq<char>|
                outv.last().payload == Some(#[trigger] error_json(m))) || (outv.last().payload matches Some(
                JsonView::Object(m)) && m.len() == 3 && m[0].0 == "ruleset_id"@)
            &&& e.typ == "getDefaultConfig"@ || e.typ == "getCapabilities"@ || e.typ == "preprocessFiles"@
                || e.typ == "analyzeFile"@ ==> new_state == old_state && new_loaded == old_loaded
            &&& e.v != 1 ==> warn_log(outv[0])
        } else {
            &&& 1 <= outv.len() <= 2
            &&& forall|i: int| 0 <= i < outv.len() ==> warn_log(#[trigger] outv[i])
            &&& e.v == 1 ==> outv.len() == 1
            &&& new_state == old_state && new_loaded == old_loaded
        },
    }
}

/// The ruleset entries of a configuration.
pub open spec fn ruleset_entries(c: EngineConfigView) -> Seq<(Seq<char>, JsonView)> {
    match c.rulesets {
        Some(m) => m,
        None => Seq::empty(),
    }
}

/// The user configuration of an `initialize` payload: its `engineConfig`,
/// empty when missing or not a configuration.
pub open spec fn user_config(p: JsonView) -> EngineConfigView {
    match member(p, "engineConfig"@) {
        Some(j) => match engine_config_of(j) {
            Some(c) => c,
            None => EngineConfigView { enabled: None, rulesets: None },
        },
        None => EngineConfigView { enabled: None, rulesets: None },
    }
}

/// `loaded` holds one entry per ruleset entry, in order, with its id and the
/// options its settings give.
pub open spec fn loaded_matches<R: Rule>(
    loaded: Seq<(String, Loaded<R>)>,
    entries: Seq<(Seq<char>, JsonView)>,
) -> bool {
    &&& loaded.len() == entries.len()
    &&& forall|k: int|
        0 <= k < loaded.len() ==> (#[trigger] loaded[k]).0@ == entries[k].0 && options_view(
            loaded[k].1.config@,
        ) == rule_options(entries[k].1)
}

impl<O: EngineOptions> EngineServer<O> {
    pub closed spec fn state_view(&self) -> ServerState {
        self.state
    }

    /// The merged configuration of the last `initialize`.
    pub closed spec fn config_view(&self) -> EngineConfigView {
        self.cfg@
    }

    /// The loaded rulesets, by id, in order.
    pub closed spec fn loaded_seq(&self) -> Seq<(String, Loaded<O::RuleImpl>)> {
        self.loaded@
    }

    pub fn new(opts: O) -> (r: Self)
        ensures
            r.state_view() == ServerState::Uninitialized,
            r.loaded_seq().len() == 0,
    {
        EngineServer { state: ServerState::Uninitialized, cfg: EngineConfig::empty(), loaded: Vec::new(), opts }
    }

    pub fn state(&self) -> (r: ServerState)
        ensures
            r == self.state_view(),
    {
        self.state
    }

    /// Handles one line of input. A line that is not JSON gets a `log` event
    /// at `warn` and nothing else.
    pub fn handle_line(&mut self, line: &str) -> (out: Vec<Envelope>)
        ensures
            parsed_json(line@) is None ==> out@.len() == 1 && warn_log(out@[0]@) && final(self).state_view()
                == old(self).state_view() && final(self).loaded_seq() == old(self).loaded_seq(),
    {
        match parse_json(line) {
            Some(j) => self.handle(&j),
            None => vec![log_event("warn", "Malformed message")],
        }
    }

    /// Handles one message and gives the messages to send back, in order.
    ///
    /// A message that is not an envelope, or of an unknown type, gets a `log`
    /// event at `warn` and no response. After `shutdown` nothing is answered.
    /// Otherwise the request is answered by exactly one response with its type
    /// and id, last, after any events. A version other than 1 adds a `log`
    /// event at `warn` first. `initialize` merges the user configuration over
    /// the engine's defaults and loads each ruleset it names, with the options
    /// its settings give; a failure to load leaves nothing loaded.
    pub fn handle(&mut self, msg: &Json) -> (out: Vec<Envelope>)
        ensures
            replies(
                old(self).state_view(),
                final(self).state_view(),
                old(self).loaded_seq(),
                final(self).loaded_seq(),
                msg@,
                envelope_views(out@),
            ),
            envelope_of_json(msg@) matches Some(e) ==> old(self).state_view() != ServerState::Shutdown
                && e.typ == "initialize"@ ==> {
                let p = request_payload(e);
                let outv = envelope_views(out@);
                &&& exists|d: EngineConfigView| #[trigger] merged_config(d, user_config(p)) == final(self).config_view()
                &&& final(self).state_view() == ServerState::Initialized <==> outv.last().payload == Some(ok_json())
                &&& final(self).state_view() == ServerState::Initialized ==> loaded_matches(
                    final(self).loaded_seq(),
                    ruleset_entries(final(self).config_view()),
                )
                &&& final(self).state_view() != ServerState::Initialized ==> {
                    &&& final(self).state_view() == ServerState::Uninitialized
                    &&& final(self).loaded_seq().len() == 0
                    &&& ruleset_entries(final(self).config_view()).len() > 0
                    &&& exists|m: Seq<char>| outv.last().payload == Some(#[trigger] error_json(m))
                }
            },
    {
        proof {
            lemma_type_names();
        }
        let env = match Envelope::from_json(msg) {
            Some(e) => e,
            None => {
                return vec![log_event("warn", "Malformed message")];
            },
        };
        let mut out: Vec<Envelope> = Vec::new();
        if self.state == ServerState::Shutdown {
            assert(envelope_views(out@) =~= Seq::<EnvelopeView>::empty());
            return out;
        }
        if env.v != 1 {
            out.push(log_event("warn", "Unsupported protocol version"));
        }
        let id = match &env.id {
            Some(i) => i.clone(),
            None => String::new(),
        };
        let payload = request_payload_of(&env);
        let typ = env.typ.as_str();
        let ghost old_loaded = self.loaded@;
        let res: Option<Envelope> = if text_eq(typ, "initialize") {
            Some(self.on_initialize(id.as_str(), &payload))
        } else if text_eq(typ, "shutdown") {
            self.state = ServerState::Shutdown;
            self.loaded = Vec::new();
            Some(Envelope::res("shutdown", id.as_str(), ok_payload()))
        } else if text_eq(typ, "getDefaultConfig") {
            let defaults = self.opts.get_default_config();
            Some(Envelope::res("getDefaultConfig", id.as_str(), defaults.to_json()))
        } else if text_eq(typ, "getCapabilities") {
            let caps = self.capabilities();
            Some(Envelope::res("getCapabilities", id.as_str(), caps.to_json()))
        } else if text_eq(typ, "preprocessFiles") {
            let uris = payload_strings(&payload, "fileUris");
            let result = self.opts.preprocess_files(&uris);
            Some(Envelope::res("preprocessFiles", id.as_str(), preprocess_reply(result)))
        } else if text_eq(typ, "analyzeFile") {
            if self.state == ServerState::Initialized {
                let uri = payload_text(&payload, "uri");
                let content = payload_text(&payload, "content");
                let caps = self.opts.get_capabilities();
                let diagnostics = analyze_loaded(&self.loaded, uri.as_str(), content.as_str(), caps.annotation_prefixes);
                out.push(Envelope::event("diagnostics", analysis_payload(uri, &diagnostics)));
                Some(Envelope::res("analyzeFile", id.as_str(), ok_payload()))
            } else {
                Some(Envelope::res("analyzeFile", id.as_str(), error_payload("not_initialized")))
            }
        } else {
            let message = join("Unhandled message type: ", typ);
            out.push(log_event("warn", message.as_str()));
            None
        };
        let ghost before = out@;
        match res {
            Some(r) => {
                out.push(r);
                proof {
                    assert(envelope_views(out@) =~= envelope_views(before).push(r@));
                    assert(envelope_views(out@).drop_last() =~= envelope_views(before));
                    if before.len() >= 1 {
                        assert(envelope_views(out@)[out@.len() - 2] == before[before.len() - 1]@);
                        assert(envelope_views(out@)[0] == before[0]@);
                    }
                }
            },
            None => {
                proof {
                    assert forall|i: int| 0 <= i < out@.len() implies warn_log(#[trigger] envelope_views(out@)[i]) by {
                        assert(envelope_views(out@)[i] == out@[i]@);
                    }
                }
            },
        }
        out
    }

    /// Loads each ruleset the merged configuration names and keeps its rule
    /// options; any failure discards them all and is reported.
    fn on_initialize(&mut self, id: &str, payload: &Json) -> (r: Envelope)
        requires
            old(self).state_view() != ServerState::Shutdown,
        ensures
            r@.kind == Kind::Res,
            r@.typ == "initialize"@,
            r@.id == Some(id@),
            r@.v == 1,
            exists|d: EngineConfigView| #[trigger] merged_config(d, user_config(payload@)) == final(self).config_view(),
            final(self).state_view() == ServerState::Initialized <==> r@.payload == Some(ok_json()),
            final(self).state_view() == ServerState::Initialized ==> loaded_matches(
                final(self).loaded_seq(),
                ruleset_entries(final(self).config_view()),
            ),
            final(self).state_view() != ServerState::Initialized ==> {
                &&& final(self).state_view() == ServerState::Uninitialized
                &&& final(self).loaded_seq().len() == 0
                &&& ruleset_entries(final(self).config_view()).len() > 0
                &&& exists|m: Seq<char>| r@.payload == Some(#[trigger] error_json(m))
            },
    {
        let defaults = self.opts.get_default_config();
        let user = match payload.get("engineConfig") {
            Some(j) => match EngineConfig::from_json(j) {
                Some(c) => c,
                None => EngineConfig::empty(),
            },
            None => EngineConfig::empty(),
        };
        assert(user@ == user_config(payload@));
        self.cfg = merge_engine_config(&defaults, &user);
        self.loaded = Vec::new();
        self.state = ServerState::Uninitialized;
        let ghost entries = ruleset_entries(self.cfg@);
        let mut loaded: Vec<(String, Loaded<O::RuleImpl>)> = Vec::new();
        if let Some(rulesets) = &self.cfg.rulesets {
            let mut i: usize = 0;
            while i < rulesets.len()
                invariant
                    self.state == ServerState::Uninitialized,
                    self.loaded@.len() == 0,
                    entries == members_view(rulesets@),
                    entries == ruleset_entries(self.cfg@),
                    self.cfg@ == merged_config(defaults@, user_config(payload@)),
                    0 <= i <= rulesets@.len(),
                    loaded@.len() == i,
                    forall|k: int|
                        0 <= k < i ==> (#[trigger] loaded@[k]).0@ == entries[k].0 && options_view(
                            loaded@[k].1.config@,
                        ) == rule_options(entries[k].1),
                decreases rulesets@.len() - i,
            {
                let rs_id = &rulesets[i].0;
                match self.opts.load_ruleset(rs_id.as_str()) {
                    Ok(ruleset) => {
                        let config = rule_options_of(&rulesets[i].1);
                        loaded.push((rs_id.clone(), Loaded { ruleset, config }));
                    },
                    Err(e) => {
                        let r = Envelope::res("initialize", id, error_payload(e.as_str()));
                        proof {
                            assert(merged_config(defaults@, user_config(payload@)) == self.cfg@);
                            assert(r@.payload == Some(error_json(e@)));
                            reveal_strlit("ok");
                            assert(error_json(e@) != ok_json()) by {
                                assert(error_json(e@)->Object_0.len() != ok_json()->Object_0.len());
                            }
                        }
                        return r;
                    },
                }
                i += 1;
            }
        }
        self.loaded = loaded;
        self.state = ServerState::Initialized;
        assert(merged_config(defaults@, user_config(payload@)) == self.cfg@);
        Envelope::res("initialize", id, ok_payload())
    }

    /// The capabilities, with every rule of every known ruleset and a setting
    /// per rule that switches it `off`, to `warn` or to `error`.
    fn capabilities(&self) -> RulesetCapabilities {
        let mut caps = self.opts.get_capabilities();
        let ids = self.opts.list_rulesets();
        let mut i: usize = 0;
        while i < ids.len()
            decreases ids@.len() - i,
        {
            if let Ok(rs) = self.opts.load_ruleset(ids[i].as_str()) {
                add_rule_settings(&mut caps, &rs);
            }
            i += 1;
        }
        caps
    }
}

proof fn lemma_type_names()
    ensures
        "initialize"@ != "shutdown"@,
        "initialize"@ != "getDefaultConfig"@,
        "initialize"@ != "getCapabilities"@,
        "initialize"@ != "preprocessFiles"@,
        "initialize"@ != "analyzeFile"@,
        "shutdown"@ != "getDefaultConfig"@,
        "shutdown"@ != "getCapabilities"@,
        "shutdown"@ != "preprocessFiles"@,
        "shutdown"@ != "analyzeFile"@,
        "getDefaultConfig"@ != "getCapabilities"@,
        "getDefaultConfig"@ != "preprocessFiles"@,
        "getDefaultConfig"@ != "analyzeFile"@,
        "getCapabilities"@ != "preprocessFiles"@,
        "getCapabilities"@ != "analyzeFile"@,
        "preprocessFiles"@ != "analyzeFile"@,
{
    reveal_strlit("initialize");
    reveal_strlit("shutdown");
    reveal_strlit("getDefaultConfig");
    reveal_strlit("getCapabilities");
    reveal_strlit("preprocessFiles");
    reveal_strlit("analyzeFile");
    assert("initialize"@.len() == 10 && "shutdown"@.len() == 8 && "getDefaultConfig"@.len() == 16);
    assert("getCapabilities"@.len() == 15 && "preprocessFiles"@.len() == 15);
    assert("analyzeFile"@.len() == 11 && "getCapabilities"@[0] != "preprocessFiles"@[0]);
}

/// The payload of a request, copied; an empty object when it has none.
fn request_payload_of(env: &Envelope) -> (r: Json)
    ensures
        r@ == request_payload(env@),
{
    match &env.payload {
        Some(p) => p.duplicate(),
        None => {
            let o = new_object();
            o
        },
    }
}

/// The payload of the `diagnostics` event for one file.
pub fn analysis_payload(uri: String, diagnostics: &Vec<Diagnostic>) -> (r: Json)
    ensures
        r@ == analysis_json(uri@, diagnostic_views(diagnostics@)),
{
    let ghost u = uri@;
    let body = vec![("uri".to_owned(), Json::Str(uri)), ("diagnostics".to_owned(), diagnostics_to_json(diagnostics))];
    let r = object(body);
    assert(members_view(body@) =~= analysis_json(u, diagnostic_views(diagnostics@))->Object_0);
    r
}

/// The answer to `preprocessFiles`: the context, or `{ok: false, error}`.
pub fn preprocess_reply(result: Result<PreprocessingContext, String>) -> (r: Json)
    ensures
        result matches Err(e) ==> r@ == error_json(e@),
        result matches Ok(c) ==> r@ is Object && r@->Object_0.len() == 3 && r@->Object_0[0] == (
            "ruleset_id"@,
            JsonView::Str(c.ruleset_id@),
        ),
{
    match result {
        Ok(ctx) => ctx.to_json(),
        Err(e) => error_payload(e.as_str()),
    }
}

/// The options that `initialize` of a single ruleset keeps: those the
/// `rulesetConfig` object gives, else those of some defaults.
pub open spec fn ruleset_init_options(p: JsonView, opts: Seq<(Seq<char>, JsonView)>) -> bool {
    match member(p, "rulesetConfig"@) {
        Some(JsonView::Object(m)) => opts == rule_options(JsonView::Object(m)),
        _ => exists|d: Seq<(Seq<char>, JsonView)>| opts == #[trigger] rule_options(JsonView::Object(d)),
    }
}

/// The server of a single ruleset: the same protocol, with the per-rule
/// settings taken from `rulesetConfig` (the ruleset's defaults when absent).
pub struct RulesetServer<T: RulesetOptions> {
    state: ServerState,
    loaded: Vec<(String, Loaded<T::RuleImpl>)>,
    opts: T,
}

impl<T: RulesetOptions> RulesetServer<T> {
    pub closed spec fn state_view(&self) -> ServerState {
        self.state
    }

    /// The ruleset once initialized (one entry), with its rule options.
    pub closed spec fn loaded_seq(&self) -> Seq<(String, Loaded<T::RuleImpl>)> {
        self.loaded@
    }

    pub fn new(opts: T) -> (r: Self)
        ensures
            r.state_view() == ServerState::Uninitialized,
            r.loaded_seq().len() == 0,
    {
        RulesetServer { state: ServerState::Uninitialized, loaded: Vec::new(), opts }
    }

    pub fn state(&self) -> (r: ServerState)
        ensures
            r == self.state_view(),
    {
        self.state
    }

    /// Handles one line of input. A line that is not JSON gets a `log` event
    /// at `warn` and nothing else.
    pub fn handle_line(&mut self, line: &str) -> (out: Vec<Envelope>)
        ensures
            parsed_json(line@) is None ==> out@.len() == 1 && warn_log(out@[0]@) && final(self).state_view()
                == old(self).state_view() && final(self).loaded_seq() == old(self).loaded_seq(),
    {
        match parse_json(line) {
            Some(j) => self.handle(&j),
            None => vec![log_event("warn", "Malformed message")],
        }
    }

    /// Handles one message and gives the messages to send back, in order, as
    /// the engine server does; `initialize` always succeeds and keeps the one
    /// ruleset with the options its settings give.
    pub fn handle(&mut self, msg: &Json) -> (out: Vec<Envelope>)
        ensures
            replies(
                old(self).state_view(),
                final(self).state_view(),
                old(self).loaded_seq(),
                final(self).loaded_seq(),
                msg@,
                envelope_views(out@),
            ),
            envelope_of_json(msg@) matches Some(e) ==> old(self).state_view() != ServerState::Shutdown
                && e.typ == "initialize"@ ==> {
                &&& final(self).state_view() == ServerState::Initialized
                &&& envelope_views(out@).last().payload == Some(ok_json())
                &&& final(self).loaded_seq().len() == 1
                &&& ruleset_init_options(request_payload(e), options_view(final(self).loaded_seq()[0].1.config@))
            },
    {
        proof {
            lemma_type_names();
        }
        let env = match Envelope::from_json(msg) {
            Some(e) => e,
            None => {
                return vec![log_event("warn", "Malformed message")];
            },
        };
        let mut out: Vec<Envelope> = Vec::new();
        if self.state == ServerState::Shutdown {
            assert(envelope_views(out@) =~= Seq::<EnvelopeView>::empty());
            return out;
        }
        if env.v != 1 {
            out.push(log_event("warn", "Unsupported protocol version"));
        }
        let id = match &env.id {
            Some(i) => i.clone(),
            None => String::new(),
        };
        let payload = request_payload_of(&env);
        let typ = env.typ.as_str();
        let res: Option<Envelope> = if text_eq(typ, "initialize") {
            let settings = match payload.get("rulesetConfig") {
                Some(Json::Object(m)) => {
                    proof {
                        Json::lemma_object_view(*m);
                    }
                    copy_members(m)
                },
                _ => self.opts.get_default_config(),
            };
            let config = rule_options_of(&object(settings));
            let ruleset = self.opts.create_ruleset();
            let rs_id = ruleset.id().clone();
            self.loaded = vec![(rs_id, Loaded { ruleset, config })];
            self.state = ServerState::Initialized;
            Some(Envelope::res("initialize", id.as_str(), ok_payload()))
        } else if text_eq(typ, "shutdown") {
            self.state = ServerState::Shutdown;
            self.loaded = Vec::new();
            Some(Envelope::res("shutdown", id.as_str(), ok_payload()))
        } else if text_eq(typ, "getDefaultConfig") {
            let defaults = self.opts.get_default_config();
            Some(Envelope::res("getDefaultConfig", id.as_str(), object(defaults)))
        } else if text_eq(typ, "getCapabilities") {
            let mut caps = self.opts.get_capabilities();
            let rs = self.opts.create_ruleset();
            caps.rules = Vec::new();
            add_rule_settings(&mut caps, &rs);
            Some(Envelope::res("getCapabilities", id.as_str(), caps.to_json()))
        } else if text_eq(typ, "preprocessFiles") {
            let uris = payload_strings(&payload, "fileUris");
            let result = self.opts.preprocess_files(&uris);
            Some(Envelope::res("preprocessFiles", id.as_str(), preprocess_reply(result)))
        } else if text_eq(typ, "analyzeFile") {
            if self.state == ServerState::Initialized {
                let uri = payload_text(&payload, "uri");
                let content = payload_text(&payload, "content");
                let caps = self.opts.get_capabilities();
                let diagnostics = analyze_loaded(&self.loaded, uri.as_str(), content.as_str(), caps.annotation_prefixes);
                out.push(Envelope::event("diagnostics", analysis_payload(uri, &diagnostics)));
                Some(Envelope::res("analyzeFile", id.as_str(), ok_payload()))
            } else {
                Some(Envelope::res("analyzeFile", id.as_str(), error_payload("not_initialized")))
            }
        } else {
            let message = join("Unhandled message type: ", typ);
            out.push(log_event("warn", message.as_str()));
            None
        };
        let ghost before = out@;
        match res {
            Some(r) => {
                out.push(r);
                proof {
                    assert(envelope_views(out@) =~= envelope_views(before).push(r@));
                    assert(envelope_views(out@).drop_last() =~= envelope_views(before));
                    if before.len() >= 1 {
                        assert(envelope_views(out@)[out@.len() - 2] == before[before.len() - 1]@);
                        assert(envelope_views(out@)[0] == before[0]@);
                    }
                }
            },
            None => {
                proof {
                    assert forall|i: int| 0 <= i < out@.len() implies warn_log(#[trigger] envelope_views(out@)[i]) by {
                        assert(envelope_views(out@)[i] == out@[i]@);
                    }
                }
            },
        }
        out
    }
}

/// Whether `out` is what running a loaded ruleset can give.
pub open spec fn ruleset_outcome<R: Rule>(
    l: Loaded<R>,
    masking: bool,
    anns: Seq<AnnotationView>,
    out: Seq<DiagnosticView>,
) -> bool {
    exists|parts: Seq<Seq<DiagnosticView>>|
        #[trigger] run_outcome(l.ruleset.rule_ids(), options_view(l.config@), masking, anns, parts, out)
}

/// Runs every loaded ruleset on one file and concatenates what they report,
/// in order. Masking is on when there are comment prefixes; the annotations
/// are parsed once, from the content, with those prefixes.
pub fn analyze_loaded<R: Rule>(
    loaded: &Vec<(String, Loaded<R>)>,
    uri: &str,
    content: &str,
    prefixes: Vec<String>,
) -> (r: Vec<Diagnostic>)
    ensures
        loaded_outcome(loaded@, texts(prefixes@), content@, diagnostic_views(r@)),
{
    let ghost prefixes_view = prefixes@;
    let ghost masking = prefixes@.len() > 0;
    let ghost anns = annotations_of(texts(prefixes@), content@);
    let parser = if prefixes.len() > 0 {
        Some(AnnotationParser::new(prefixes))
    } else {
        None
    };
    let annotations: Vec<Annotation> = match &parser {
        Some(p) => p.parse_annotations(content),
        None => Vec::new(),
    };
    assert(masking ==> annotation_views(annotations@) == anns);
    let mut diagnostics: Vec<Diagnostic> = Vec::new();
    let ghost mut parts: Seq<Seq<DiagnosticView>> = Seq::empty();
    let mut i: usize = 0;
    assert(diagnostic_views(diagnostics@) =~= flatten(parts));
    while i < loaded.len()
        invariant
            0 <= i <= loaded@.len(),
            parts.len() == i,
            diagnostic_views(diagnostics@) == flatten(parts),
            (parser is Some) == masking,
            masking ==> annotation_views(annotations@) == anns,
            forall|k: int| 0 <= k < i ==> ruleset_outcome(loaded@[k].1, masking, anns, #[trigger] parts[k]),
        decreases loaded@.len() - i,
    {
        let l = &loaded[i].1;
        let mut found = run_ruleset_with_annotations(
            uri,
            content,
            &l.ruleset,
            &l.config,
            annotations.as_slice(),
            parser.as_ref(),
        );
        let ghost part = diagnostic_views(found@);
        proof {
            let sub = choose|sub: Seq<Seq<DiagnosticView>>|
                #[trigger] run_outcome(
                    l.ruleset.rule_ids(),
                    options_view(l.config@),
                    parser is Some,
                    annotation_views(annotations@),
                    sub,
                    part,
                );
            if !masking {
                assert forall|a: int, b: int| 0 <= a < sub.len() && 0 <= b < sub[a].len() implies !masked(
                    masking,
                    anns,
                    #[trigger] sub[a][b],
                ) by {}
            }
            assert(run_outcome(l.ruleset.rule_ids(), options_view(l.config@), masking, anns, sub, part));
        }
        let ghost before = diagnostics@;
        let ghost old_parts = parts;
        diagnostics.append(&mut found);
        proof {
            parts = parts.push(part);
            assert(parts.drop_last() =~= old_parts);
            assert(diagnostic_views(diagnostics@) =~= diagnostic_views(before) + part);
            assert forall|k: int| 0 <= k < i + 1 implies ruleset_outcome(loaded@[k].1, masking, anns, #[trigger] parts[k]) by {
                if k < i {
                    assert(parts[k] == old_parts[k]);
                }
            }
        }
        i += 1;
    }
    proof {
        let ghost pv = texts(prefixes_view);
        assert(pv.len() == prefixes_view.len());
        assert(parts.len() == loaded@.len() && flatten(parts) == diagnostic_views(diagnostics@));
        assert forall|k: int| 0 <= k < loaded@.len() implies ruleset_outcome(
            loaded@[k].1,
            pv.len() > 0,
            annotations_of(pv, content@),
            #[trigger] parts[k],
        ) by {}
    }
    diagnostics
}

/// The settings that switch one rule: an `Enum` named after the rule with
/// `off`, `warn` and `error` as its values.
pub open spec fn rule_switch(s: ConfigSetting, id: Seq<char>) -> bool {
    &&& s.name@ == id
    &&& s.description@ == "Enable or disable the "@ + id + " rule"@
    &&& s.setting_type == ConfigType::Enum
    &&& !s.required
    &&& s.allowed_values matches Some(v) && v@.len() == 3 && v@[0]@ == JsonView::Str("off"@)
        && v@[1]@ == JsonView::Str("warn"@) && v@[2]@ == JsonView::Str("error"@)
    &&& s.min is None && s.max is None
}

/// Adds the rules of a ruleset to the capabilities, each with the setting
/// that switches it.
pub fn add_rule_settings<R: Rule>(caps: &mut RulesetCapabilities, rs: &Ruleset<R>)
    ensures
        final(caps).rules@.len() == old(caps).rules@.len() + rs.rule_ids().len(),
        final(caps).config_settings@.len() == old(caps).config_settings@.len() + rs.rule_ids().len(),
        forall|k: int| 0 <= k < old(caps).rules@.len() ==> #[trigger] final(caps).rules@[k] == old(caps).rules@[k],
        forall|k: int|
            0 <= k < old(caps).config_settings@.len() ==> #[trigger] final(caps).config_settings@[k]
                == old(caps).config_settings@[k],
        forall|k: int|
            0 <= k < rs.rule_ids().len() ==> (#[trigger] final(caps).rules@[old(caps).rules@.len() + k]).id@
                == rs.rule_ids()[k],
        forall|k: int|
            0 <= k < rs.rule_ids().len() ==> rule_switch(
                #[trigger] final(caps).config_settings@[old(caps).config_settings@.len() + k],
                rs.rule_ids()[k],
            ),
        final(caps).ruleset_id == old(caps).ruleset_id,
        final(caps).annotation_prefixes == old(caps).annotation_prefixes,
{
    let ghost r0 = caps.rules@;
    let ghost s0 = caps.config_settings@;
    let info = rs.info();
    let mut k: usize = 0;
    while k < rs.len()
        invariant
            0 <= k <= rs.rule_ids().len(),
            info.rules@.len() == rs.rule_ids().len(),
            caps.rules@.len() == r0.len() + k,
            caps.config_settings@.len() == s0.len() + k,
            forall|j: int| 0 <= j < r0.len() ==> #[trigger] caps.rules@[j] == r0[j],
            forall|j: int| 0 <= j < s0.len() ==> #[trigger] caps.config_settings@[j] == s0[j],
            forall|j: int| 0 <= j < k ==> (#[trigger] caps.rules@[r0.len() + j]).id@ == rs.rule_ids()[j],
            forall|j: int| 0 <= j < k ==> rule_switch(#[trigger] caps.config_settings@[s0.len() + j], rs.rule_ids()[j]),
            caps.ruleset_id == old(caps).ruleset_id,
            caps.annotation_prefixes == old(caps).annotation_prefixes,
        decreases rs.rule_ids().len() - k,
    {
        let rule_id = rs.rule_id(k).clone();
        caps.rules.push(RuleInfo { id: rule_id.clone(), description: info.rules[k].description.clone() });
        let head = join("Enable or disable the ", rule_id.as_str());
        let description = join(head.as_str(), " rule");
        let allowed = vec![Json::Str("off".to_owned()), Json::Str("warn".to_owned()), Json::Str("error".to_owned())];
        caps.config_settings.push(ConfigSetting {
            name: rule_id,
            description,
            setting_type: ConfigType::Enum,
            default: rs.rule(k).default_config(),
            required: false,
            allowed_values: Some(allowed),
            min: None,
            max: None,
        });
        k += 1;
    }
}

} // verus!
