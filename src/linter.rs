use vstd::prelude::*;

use crate::capabilities::object;
use crate::diagnostic::{diagnostic_views, diagnostics_from_json, diagnostics_of, Diagnostic, DiagnosticView};
use crate::engine::{engine_config_json, new_object, EngineConfig, EngineConfigView};
use crate::json::{member, members_view, Json, JsonView};
use crate::keyed::{find_key, key_seq};
use crate::text::{texts, chars_of, decimal, decimal_digits, has_prefix, join, skip, starts_with, string_of, text_eq};

verus! {

broadcast use vstd::string::group_string_axioms;

/// The file name prefix of engine binaries.
pub open spec fn engine_prefix() -> Seq<char> {
    "forseti_engine_"@
}

/// What `Path::file_stem` gives for a path: the file name without its last
/// extension.
pub uninterp spec fn file_stem_of(path: Seq<char>) -> Option<Seq<char>>;

/// Relies on `std::path::Path::file_stem`: the stem of the file name, when the
/// path has a file name and it is valid UTF-8.
#[verifier::external_body]
fn file_stem(path: &str) -> (r: Option<String>)
    ensures
        r is None ==> file_stem_of(path@) is None,
        r matches Some(s) ==> file_stem_of(path@) == Some(s@),
{
    let stem = std::path::Path::new(path).file_stem()?;
    stem.to_str().map(String::from)
}

/// An engine found on disk.
#[derive(Debug, Clone)]
pub struct EngineInfo {
    pub id: String,
    pub binary_path: String,
    pub version: Option<String>,
    pub supported_file_patterns: Vec<String>,
}

/// The engine id a file stem gives: the stem without the engine prefix.
pub open spec fn engine_id_of_stem(stem: Seq<char>) -> Seq<char> {
    if has_prefix(stem, engine_prefix()) {
        stem.skip(engine_prefix().len() as int)
    } else {
        stem
    }
}

impl EngineInfo {
    /// The engine a binary stands for: its id is the file stem without the
    /// engine prefix; it accepts every file.
    pub fn from_binary(binary_path: &str) -> (r: Result<EngineInfo, String>)
        ensures
            r is Err <==> file_stem_of(binary_path@) is None,
            r matches Ok(info) ==> {
                &&& info.id@ == engine_id_of_stem(file_stem_of(binary_path@)->0)
                &&& info.binary_path@ == binary_path@
                &&& info.version is None
                &&& info.supported_file_patterns@.len() == 1
                &&& info.supported_file_patterns@[0]@ == "*"@
            },
    {
        let stem = match file_stem(binary_path) {
            Some(s) => s,
            None => return Err("Invalid binary filename".to_owned()),
        };
        let c = chars_of(stem.as_str());
        let p = chars_of("forseti_engine_");
        let id = if starts_with(c.as_slice(), p.as_slice()) {
            string_of(skip(c.as_slice(), p.len()).as_slice())
        } else {
            stem
        };
        Ok(EngineInfo {
            id,
            binary_path: binary_path.to_owned(),
            version: None,
            supported_file_patterns: vec!["*".to_owned()],
        })
    }
}

/// The engines among `(file name, path)` pairs, as `(id, path)`: one for each
/// file whose name starts with the engine prefix and whose path has a stem,
/// in order; the id is the stem without the engine prefix.
pub open spec fn engine_entries(files: Seq<(Seq<char>, Seq<char>)>) -> Seq<(Seq<char>, Seq<char>)>
    decreases files.len(),
{
    if files.len() == 0 {
        Seq::empty()
    } else {
        let r = engine_entries(files.drop_last());
        let (name, path) = files.last();
        if has_prefix(name, engine_prefix()) && file_stem_of(path) is Some {
            r.push((engine_id_of_stem(file_stem_of(path)->0), path))
        } else {
            r
        }
    }
}

/// An engine found on disk with no version and every file pattern.
pub open spec fn plain_engine(e: EngineInfo) -> bool {
    &&& e.version is None
    &&& e.supported_file_patterns@.len() == 1
    &&& e.supported_file_patterns@[0]@ == "*"@
}

pub open spec fn pairs_view(files: Seq<(String, String)>) -> Seq<(Seq<char>, Seq<char>)> {
    files.map_values(|e: (String, String)| (e.0@, e.1@))
}

/// The engines among some files, given as `(file name, path)`: one for each
/// file whose name starts with the engine prefix, in order.
pub fn select_engines(files: &Vec<(String, String)>) -> (r: Vec<EngineInfo>)
    ensures
        r@.map_values(|e: EngineInfo| (e.id@, e.binary_path@)) == engine_entries(pairs_view(files@)),
        forall|i: int| 0 <= i < r@.len() ==> plain_engine(#[trigger] r@[i]),
{
    let mut out: Vec<EngineInfo> = Vec::new();
    let p = chars_of("forseti_engine_");
    let ghost fv = pairs_view(files@);
    let mut i: usize = 0;
    assert(fv.take(0) =~= Seq::<(Seq<char>, Seq<char>)>::empty());
    assert(out@.map_values(|e: EngineInfo| (e.id@, e.binary_path@)) =~= Seq::<(Seq<char>, Seq<char>)>::empty());
    while i < files.len()
        invariant
            0 <= i <= files@.len(),
            p@ == engine_prefix(),
            fv == pairs_view(files@),
            out@.map_values(|e: EngineInfo| (e.id@, e.binary_path@)) == engine_entries(fv.take(i as int)),
            forall|k: int| 0 <= k < out@.len() ==> plain_engine(#[trigger] out@[k]),
        decreases files@.len() - i,
    {
        assert(fv.take(i + 1).drop_last() =~= fv.take(i as int));
        assert(fv.take(i + 1).last() == (files@[i as int].0@, files@[i as int].1@));
        let name = chars_of(files[i].0.as_str());
        if starts_with(name.as_slice(), p.as_slice()) {
            if let Ok(info) = EngineInfo::from_binary(files[i].1.as_str()) {
                let ghost before = out@;
                out.push(info);
                assert(out@.map_values(|e: EngineInfo| (e.id@, e.binary_path@)) =~= before.map_values(
                    |e: EngineInfo| (e.id@, e.binary_path@),
                ).push((engine_id_of_stem(file_stem_of(files@[i as int].1@)->0), files@[i as int].1@)));
            }
        }
        i += 1;
    }
    assert(fv.take(fv.len() as int) =~= fv);
    out
}

/// The id of the `n`-th request on the handle of engine `engine`.
pub open spec fn request_id_text(engine: Seq<char>, n: nat) -> Seq<char> {
    engine + "_"@ + decimal_digits(n)
}

proof fn lemma_decimal_len(n: nat)
    ensures
        decimal_digits(n).len() >= 1,
        n < 10 ==> decimal_digits(n).len() == 1,
        n >= 10 ==> decimal_digits(n).len() >= 2,
    decreases n,
{
    if n >= 10 {
        lemma_decimal_len(n / 10);
    }
}

/// Different numbers have different decimal texts.
pub proof fn lemma_decimal_injective(n: nat, m: nat)
    requires
        decimal_digits(n) == decimal_digits(m),
    ensures
        n == m,
    decreases n,
{
    lemma_decimal_len(n);
    lemma_decimal_len(m);
    if n < 10 && m < 10 {
        assert(decimal_digits(n)[0] == decimal_digits(m)[0]);
        assert(decimal_digits(n)[0] == ((n + 48) as u8) as char);
        assert(decimal_digits(m)[0] == ((m + 48) as u8) as char);
        assert((((n + 48) as u8) as char) as int == n + 48);
        assert((((m + 48) as u8) as char) as int == m + 48);
    } else if n >= 10 && m >= 10 {
        let a = decimal_digits(n);
        let b = decimal_digits(m);
        assert(a.last() == b.last());
        assert(a.last() == ((n % 10 + 48) as u8) as char);
        assert(b.last() == ((m % 10 + 48) as u8) as char);
        assert((((n % 10 + 48) as u8) as char) as int == n % 10 + 48);
        assert((((m % 10 + 48) as u8) as char) as int == m % 10 + 48);
        assert(a.drop_last() == decimal_digits(n / 10));
        assert(b.drop_last() == decimal_digits(m / 10));
        lemma_decimal_injective(n / 10, m / 10);
        assert(n == (n / 10) * 10 + n % 10);
        assert(m == (m / 10) * 10 + m % 10);
    } else {
        assert(decimal_digits(n).len() != decimal_digits(m).len());
    }
}

/// Requests on one handle never share an id: the `n`-th and the `m`-th
/// request ids differ whenever `n` and `m` do.
pub proof fn lemma_request_ids_distinct(engine: Seq<char>, n: nat, m: nat)
    requires
        n != m,
    ensures
        request_id_text(engine, n) != request_id_text(engine, m),
{
    if request_id_text(engine, n) == request_id_text(engine, m) {
        let head = engine + "_"@;
        let a = request_id_text(engine, n);
        let b = request_id_text(engine, m);
        assert(a.skip(head.len() as int) =~= decimal_digits(n));
        assert(b.skip(head.len() as int) =~= decimal_digits(m));
        lemma_decimal_injective(n, m);
    }
}

/// A configuration given or not: empty when not.
pub open spec fn given_config(c: Option<EngineConfig>) -> EngineConfigView {
    match c {
        Some(x) => x@,
        None => EngineConfigView { enabled: None, rulesets: None },
    }
}

/// The host's record of one engine: whether it answered `initialize`, when it
/// was last used (in milliseconds of a clock the caller keeps), and how many
/// requests it has been sent.
pub struct HandleState {
    engine_id: String,
    initialized: bool,
    last_activity: u64,
    request_counter: u64,
}

impl HandleState {
    pub closed spec fn engine(&self) -> Seq<char> {
        self.engine_id@
    }

    pub closed spec fn is_initialized(&self) -> bool {
        self.initialized
    }

    pub closed spec fn last_used(&self) -> u64 {
        self.last_activity
    }

    pub closed spec fn sent(&self) -> u64 {
        self.request_counter
    }

    pub fn new(engine_id: &str, now: u64) -> (r: Self)
        ensures
            r.engine() == engine_id@,
            !r.is_initialized(),
            r.last_used() == now,
            r.sent() == 0,
    {
        HandleState { engine_id: engine_id.to_owned(), initialized: false, last_activity: now, request_counter: 0 }
    }

    pub fn engine_id(&self) -> (r: &String)
        ensures
            r@ == self.engine(),
    {
        &self.engine_id
    }

    /// How many requests the engine has been sent.
    pub fn request_count(&self) -> (r: u64)
        ensures
            r == self.sent(),
    {
        self.request_counter
    }

    pub fn initialized(&self) -> (r: bool)
        ensures
            r == self.is_initialized(),
    {
        self.initialized
    }

    /// The id of the next request: `<engine id>_<n>`, `n` counting from 1.
    pub fn next_request_id(&mut self) -> (r: String)
        requires
            old(self).sent() < u64::MAX,
        ensures
            final(self).sent() == old(self).sent() + 1,
            final(self).engine() == old(self).engine(),
            final(self).is_initialized() == old(self).is_initialized(),
            final(self).last_used() == old(self).last_used(),
            r@ == request_id_text(old(self).engine(), final(self).sent() as nat),
    {
        self.request_counter = self.request_counter + 1;
        let n = decimal(self.request_counter);
        let head = join(self.engine_id.as_str(), "_");
        join(head.as_str(), n.as_str())
    }

    /// The `initialize` request, with the engine's id, the workspace root `.`
    /// and the configuration (empty when none is given).
    pub fn initialize_request(&mut self, config: Option<EngineConfig>) -> (r: crate::protocol::Envelope)
        requires
            old(self).sent() < u64::MAX,
        ensures
            final(self).sent() == old(self).sent() + 1,
            final(self).engine() == old(self).engine(),
            final(self).is_initialized() == old(self).is_initialized(),
            r@.kind == crate::protocol::Kind::Req,
            r@.typ == "initialize"@,
            r@.id == Some(request_id_text(old(self).engine(), final(self).sent() as nat)),
            r@.payload == Some(JsonView::Object(seq![
                ("engineId"@, JsonView::Str(old(self).engine())),
                ("workspaceRoot"@, JsonView::Str("."@)),
                ("engineConfig"@, engine_config_json(given_config(config))),
            ])),
    {
        let ghost given = config;
        let config = match config {
            Some(c) => c,
            None => EngineConfig::empty(),
        };
        let ghost cv = config@;
        assert(cv == given_config(given));
        let request_id = self.next_request_id();
        let m = vec![
            ("engineId".to_owned(), Json::Str(self.engine_id.clone())),
            ("workspaceRoot".to_owned(), Json::Str(".".to_owned())),
            ("engineConfig".to_owned(), config.to_json()),
        ];
        let o = object(m);
        assert(members_view(m@) =~= seq![
            ("engineId"@, JsonView::Str(old(self).engine())),
            ("workspaceRoot"@, JsonView::Str("."@)),
            ("engineConfig"@, engine_config_json(cv)),
        ]);
        let r = crate::protocol::Envelope::req("initialize", request_id.as_str(), o);
        assert(r@.payload == Some(JsonView::Object(seq![
            ("engineId"@, JsonView::Str(old(self).engine())),
            ("workspaceRoot"@, JsonView::Str("."@)),
            ("engineConfig"@, engine_config_json(cv)),
        ])));
        r
    }

    /// Takes the answer to `initialize`: the engine is initialized when the
    /// payload's `ok` is `true`.
    pub fn initialize_response(&mut self, response: &Json) -> (r: Result<(), String>)
        ensures
            r is Ok <==> init_accepted(response@),
            final(self).is_initialized() == (old(self).is_initialized() || init_accepted(response@)),
            final(self).engine() == old(self).engine(),
            final(self).sent() == old(self).sent(),
            final(self).last_used() == old(self).last_used(),
    {
        let ok = match response.get("payload") {
            Some(p) => match p.get("ok") {
                Some(Json::Bool(b)) => *b,
                _ => false,
            },
            None => false,
        };
        if ok {
            self.initialized = true;
            Ok(())
        } else {
            Err("Engine initialization failed".to_owned())
        }
    }

    /// The `analyzeFile` request for one file; an error before `initialize`.
    pub fn analyze_request(&mut self, uri: &str, content: &str) -> (r: Result<crate::protocol::Envelope, String>)
        requires
            old(self).sent() < u64::MAX,
        ensures
            r is Err <==> !old(self).is_initialized(),
            r is Err ==> *final(self) == *old(self),
            r matches Ok(e) ==> e@.typ == "analyzeFile"@ && e@.kind == crate::protocol::Kind::Req
                && e@.id == Some(request_id_text(old(self).engine(), final(self).sent() as nat))
                && final(self).sent() == old(self).sent() + 1 && e@.payload == Some(JsonView::Object(
                seq![("uri"@, JsonView::Str(uri@)), ("content"@, JsonView::Str(content@))],
            )),
            final(self).engine() == old(self).engine(),
            final(self).is_initialized() == old(self).is_initialized(),
    {
        if !self.initialized {
            return Err("Engine not initialized".to_owned());
        }
        let request_id = self.next_request_id();
        let m = vec![
            ("uri".to_owned(), Json::Str(uri.to_owned())),
            ("content".to_owned(), Json::Str(content.to_owned())),
        ];
        let o = object(m);
        assert(members_view(m@) =~= seq![("uri"@, JsonView::Str(uri@)), ("content"@, JsonView::Str(content@))]);
        Ok(crate::protocol::Envelope::req("analyzeFile", request_id.as_str(), o))
    }

    /// Marks the engine as used at `now`.
    pub fn touch(&mut self, now: u64)
        ensures
            final(self).last_used() == now,
            final(self).engine() == old(self).engine(),
            final(self).is_initialized() == old(self).is_initialized(),
            final(self).sent() == old(self).sent(),
    {
        self.last_activity = now;
    }

    /// The `shutdown` request; none when the engine never initialized. The
    /// engine counts as shut down from here on.
    pub fn shutdown_request(&mut self) -> (r: Option<crate::protocol::Envelope>)
        requires
            old(self).sent() < u64::MAX,
        ensures
            r is None <==> !old(self).is_initialized(),
            r matches Some(e) ==> e@.typ == "shutdown"@ && e@.kind == crate::protocol::Kind::Req
                && e@.id == Some(request_id_text(old(self).engine(), final(self).sent() as nat))
                && final(self).sent() == old(self).sent() + 1 && e@.payload == Some(
                JsonView::Object(Seq::empty()),
            ),
            r is None ==> final(self).sent() == old(self).sent(),
            final(self).engine() == old(self).engine(),
            !final(self).is_initialized(),
    {
        if !self.initialized {
            return None;
        }
        let request_id = self.next_request_id();
        self.initialized = false;
        Some(crate::protocol::Envelope::req("shutdown", request_id.as_str(), new_object()))
    }

    /// Whether the engine has been idle for longer than `timeout` at `now`.
    pub fn is_idle(&self, now: u64, timeout: u64) -> (r: bool)
        ensures
            r == (now as int - self.last_used() as int > timeout as int),
    {
        now > self.last_activity && now - self.last_activity > timeout
    }
}

/// Whether an `initialize` response accepts: its payload's `ok` is `true`.
pub open spec fn init_accepted(response: JsonView) -> bool {
    match member(response, "payload"@) {
        Some(p) => member(p, "ok"@) == Some(JsonView::Bool(true)),
        None => false,
    }
}

/// The diagnostics a message carries when it is a `diagnostics` event: the
/// list under its payload's `diagnostics`.
pub open spec fn event_diagnostics(msg: JsonView) -> Seq<DiagnosticView> {
    if member(msg, "type"@) == Some(JsonView::Str("diagnostics"@)) {
        match member(msg, "payload"@) {
            Some(p) => match member(p, "diagnostics"@) {
                Some(d) => match diagnostics_of(d) {
                    Some(v) => v,
                    None => Seq::empty(),
                },
                None => Seq::empty(),
            },
            None => Seq::empty(),
        }
    } else {
        Seq::empty()
    }
}

/// The diagnostics of the message read right after an `analyzeFile` request:
/// taken when it is a `diagnostics` event, none otherwise or when they do not
/// read as diagnostics.
pub fn diagnostics_of_event(msg: &Json) -> (r: Vec<Diagnostic>)
    ensures
        diagnostic_views(r@) == event_diagnostics(msg@),
{
    let is_event = match msg.get("type") {
        Some(Json::Str(t)) => text_eq(t.as_str(), "diagnostics"),
        _ => false,
    };
    let empty: Vec<Diagnostic> = Vec::new();
    assert(diagnostic_views(empty@) =~= Seq::<DiagnosticView>::empty());
    if !is_event {
        return empty;
    }
    match msg.get("payload") {
        Some(p) => match p.get("diagnostics") {
            Some(d) => match diagnostics_from_json(d) {
                Some(v) => v,
                None => empty,
            },
            None => empty,
        },
        None => empty,
    }
}

/// What analyzing one file with one engine gave.
#[derive(Debug)]
pub struct EngineAnalysisResult {
    pub engine_id: String,
    pub uri: String,
    pub diagnostics: Vec<Diagnostic>,
    /// How long the analysis took, in milliseconds.
    pub duration_ms: u64,
}

/// A running engine: its metadata, the process the caller drives, and the
/// host's record of it.
pub struct EngineHandle<P> {
    pub info: EngineInfo,
    pub process: P,
    pub state: HandleState,
}

impl<P> EngineHandle<P> {
    /// Whether the engine has been idle for longer than `timeout` at `now`.
    pub fn is_idle(&self, now: u64, timeout: u64) -> (r: bool)
        ensures
            r == (now as int - self.state.last_used() as int > timeout as int),
    {
        self.state.is_idle(now, timeout)
    }
}

/// The ids among `ids` whose last use (`uses`, in the same order) lies more
/// than `timeout` before `now`, in order.
pub open spec fn idle_ids(ids: Seq<Seq<char>>, uses: Seq<u64>, now: u64, timeout: u64) -> Seq<Seq<char>>
    decreases ids.len(),
{
    if ids.len() == 0 || uses.len() == 0 {
        Seq::empty()
    } else {
        let r = idle_ids(ids.drop_last(), uses.drop_last(), now, timeout);
        if now as int - uses.last() as int > timeout as int {
            r.push(ids.last())
        } else {
            r
        }
    }
}

/// No element occurs twice.
pub open spec fn unique(s: Seq<Seq<char>>) -> bool {
    forall|i: int, j: int| 0 <= i < j < s.len() ==> s[i] != s[j]
}

/// Removing the one occurrence of an element of a list without repeats leaves
/// exactly the other elements.
pub proof fn lemma_unique_remove(s: Seq<Seq<char>>, i: int)
    requires
        0 <= i < s.len(),
    ensures
        unique(s) ==> unique(s.remove(i)),
        unique(s) ==> !s.remove(i).contains(s[i]),
        forall|x: Seq<char>| x != s[i] ==> (s.remove(i).contains(x) <==> s.contains(x)),
        forall|x: Seq<char>| s.remove(i).contains(x) ==> s.contains(x),
{
    let r = s.remove(i);
    assert forall|k: int| 0 <= k < r.len() implies r[k] == (if k < i { s[k] } else { s[k + 1] }) by {}
    assert forall|x: Seq<char>| x != s[i] && s.contains(x) implies r.contains(x) by {
        let k = choose|k: int| 0 <= k < s.len() && s[k] == x;
        if k < i {
            assert(r[k] == x);
        } else {
            assert(k != i);
            assert(r[k - 1] == x);
        }
    }
    assert forall|x: Seq<char>| r.contains(x) implies s.contains(x) by {
        let k = choose|k: int| 0 <= k < r.len() && r[k] == x;
        if k < i {
            assert(s[k] == x);
        } else {
            assert(s[k + 1] == x);
        }
    }
}

/// Taking out every running engine, as when all of them are idle, leaves
/// none running.
pub proof fn lemma_take_all(before: Seq<Seq<char>>, after: Seq<Seq<char>>, taken: Seq<Seq<char>>)
    requires
        forall|x: Seq<char>| #[trigger] after.contains(x) <==> (before.contains(x) && !taken.contains(x)),
        forall|x: Seq<char>| before.contains(x) ==> #[trigger] taken.contains(x),
    ensures
        after.len() == 0,
{
    if after.len() > 0 {
        assert(after.contains(after[0]));
    }
}

/// The idle timeout an engine manager starts with: five minutes.
pub const DEFAULT_TIMEOUT_MS: u64 = 300000;

/// The running engines by id, the cache directory engines are found in, and
/// the idle timeout.
pub struct EngineManager<P> {
    engines: Vec<(String, EngineHandle<P>)>,
    cache_dir: String,
    timeout_ms: u64,
}

impl<P> EngineManager<P> {
    /// The ids of the running engines, in the order they were started.
    pub closed spec fn running(&self) -> Seq<Seq<char>> {
        key_seq(self.engines@)
    }

    pub closed spec fn timeout(&self) -> u64 {
        self.timeout_ms
    }

    /// The last-use time of each running engine, in the same order.
    pub closed spec fn last_uses(&self) -> Seq<u64> {
        self.engines@.map_values(|e: (String, EngineHandle<P>)| e.1.state.last_used())
    }

    /// No engine id is running twice.
    pub open spec fn wf(&self) -> bool {
        unique(self.running())
    }

    pub fn new(cache_dir: String) -> (r: Self)
        ensures
            r.wf(),
            r.running().len() == 0,
            r.timeout() == DEFAULT_TIMEOUT_MS,
    {
        let r = EngineManager { engines: Vec::new(), cache_dir, timeout_ms: DEFAULT_TIMEOUT_MS };
        assert(key_seq(r.engines@) =~= Seq::<Seq<char>>::empty());
        r
    }

    pub fn cache_dir(&self) -> &String {
        &self.cache_dir
    }

    pub fn set_timeout(&mut self, timeout_ms: u64)
        ensures
            final(self).wf() == old(self).wf(),
            final(self).timeout() == timeout_ms,
            final(self).running() == old(self).running(),
    {
        self.timeout_ms = timeout_ms;
    }

    /// Whether engine `id` is running.
    pub fn is_running(&self, id: &str) -> (r: bool)
        ensures
            r == self.running().contains(id@),
    {
        match find_key(&self.engines, id) {
            Some(i) => {
                assert(self.running()[i as int] == id@);
                true
            },
            None => {
                proof {
                    crate::keyed::lemma_key_pos_absent(self.running(), id@);
                }
                false
            },
        }
    }

    /// The ids of the running engines.
    pub fn running_engines(&self) -> (r: Vec<String>)
        ensures
            r@.map_values(|s: String| s@) == self.running(),
    {
        let mut out: Vec<String> = Vec::new();
        let mut i: usize = 0;
        while i < self.engines.len()
            invariant
                0 <= i <= self.engines@.len(),
                out@.len() == i,
                forall|k: int| 0 <= k < i ==> (#[trigger] out@[k])@ == self.engines@[k].0@,
            decreases self.engines@.len() - i,
        {
            out.push(self.engines[i].0.clone());
            i += 1;
        }
        assert(out@.map_values(|s: String| s@) =~= self.running());
        out
    }

    /// Adds a started engine under `id`; a no-op when `id` is running already.
    pub fn insert(&mut self, id: String, handle: EngineHandle<P>)
        ensures
            old(self).wf() ==> final(self).wf(),
            old(self).running().contains(id@) ==> final(self).running() == old(self).running(),
            !old(self).running().contains(id@) ==> final(self).running() == old(self).running().push(id@),
            final(self).timeout() == old(self).timeout(),
    {
        if self.is_running(id.as_str()) {
            return;
        }
        let ghost before = self.engines@;
        self.engines.push((id, handle));
        assert(key_seq(self.engines@) =~= key_seq(before).push(self.engines@.last().0@));
    }

    /// Takes engine `id` out of the table, if it is running; a caller that
    /// drives it puts it back with `insert`.
    pub fn remove(&mut self, id: &str) -> (r: Option<EngineHandle<P>>)
        ensures
            r is Some <==> old(self).running().contains(id@),
            !old(self).running().contains(id@) ==> final(self).running() == old(self).running(),
            old(self).running().contains(id@) ==> exists|i: int|
                0 <= i < old(self).running().len() && old(self).running()[i] == id@ && final(self).running()
                    == #[trigger] old(self).running().remove(i),
            old(self).wf() ==> final(self).wf() && !final(self).running().contains(id@),
            final(self).timeout() == old(self).timeout(),
    {
        let ghost before = self.engines@;
        match find_key(&self.engines, id) {
            Some(i) => {
                assert(self.running()[i as int] == id@);
                let (_, h) = self.engines.remove(i);
                assert(key_seq(self.engines@) =~= key_seq(before).remove(i as int));
                proof {
                    lemma_unique_remove(key_seq(before), i as int);
                }
                Some(h)
            },
            None => {
                proof {
                    crate::keyed::lemma_key_pos_absent(self.running(), id@);
                }
                None
            },
        }
    }

    /// Takes each running engine of `ids` out of the table; the others stay.
    pub fn take_engines(&mut self, ids: &Vec<String>) -> (r: Vec<EngineHandle<P>>)
        ensures
            final(self).timeout() == old(self).timeout(),
            old(self).wf() ==> final(self).wf(),
            old(self).wf() ==> forall|x: Seq<char>|
                #[trigger] final(self).running().contains(x) <==> (old(self).running().contains(x)
                    && !texts(ids@).contains(x)),
    {
        let ghost start = self.running();
        let ghost w = self.wf();
        let mut out: Vec<EngineHandle<P>> = Vec::new();
        let mut i: usize = 0;
        while i < ids.len()
            invariant
                0 <= i <= ids@.len(),
                self.timeout() == old(self).timeout(),
                start == old(self).running(),
                w == old(self).wf(),
                w ==> self.wf(),
                w ==> forall|x: Seq<char>|
                    #[trigger] self.running().contains(x) <==> (start.contains(x) && !texts(ids@.take(
                        i as int,
                    )).contains(x)),
            decreases ids@.len() - i,
        {
            let ghost before = self.running();
            let ghost id = ids@[i as int]@;
            assert(texts(ids@.take(i + 1)) =~= texts(ids@.take(i as int)).push(id));
            let taken = self.remove(ids[i].as_str());
            proof {
                if w {
                    if before.contains(id) {
                        let k = choose|k: int|
                            0 <= k < before.len() && before[k] == id && self.running()
                                == #[trigger] before.remove(k);
                        lemma_unique_remove(before, k);
                    }
                    assert forall|x: Seq<char>|
                        #[trigger] self.running().contains(x) <==> (start.contains(x) && !texts(
                            ids@.take(i + 1),
                        ).contains(x)) by {
                        assert(before.contains(x) <==> (start.contains(x) && !texts(ids@.take(i as int)).contains(
                            x,
                        )));
                        assert(self.running().contains(x) <==> (before.contains(x) && x != id));
                        assert(texts(ids@.take(i + 1)).contains(x) <==> (texts(ids@.take(i as int)).contains(x)
                            || x == id)) by {
                            let t = texts(ids@.take(i as int));
                            if texts(ids@.take(i + 1)).contains(x) && x != id {
                                let t1 = texts(ids@.take(i + 1));
                                let k = choose|k: int| 0 <= k < t1.len() && #[trigger] t1[k] == x;
                                assert(t[k] == x);
                            }
                            if t.contains(x) {
                                let k = choose|k: int| 0 <= k < t.len() && #[trigger] t[k] == x;
                                assert(texts(ids@.take(i + 1))[k] == x);
                            }
                            if x == id {
                                assert(texts(ids@.take(i + 1))[i as int] == x);
                            }
                        }
                    }
                }
            }
            if let Some(h) = taken {
                out.push(h);
            }
            i += 1;
        }
        assert(ids@.take(ids@.len() as int) =~= ids@);
        out
    }

    /// The ids of the engines idle for longer than the timeout at `now`, in
    /// table order.
    pub fn idle_engines(&self, now: u64) -> (r: Vec<String>)
        ensures
            r@.map_values(|s: String| s@) == idle_ids(self.running(), self.last_uses(), now, self.timeout()),
    {
        let mut out: Vec<String> = Vec::new();
        let mut i: usize = 0;
        assert(out@.map_values(|s: String| s@) =~= Seq::<Seq<char>>::empty());
        while i < self.engines.len()
            invariant
                0 <= i <= self.engines@.len(),
                out@.map_values(|s: String| s@) == idle_ids(
                    self.running().take(i as int),
                    self.last_uses().take(i as int),
                    now,
                    self.timeout(),
                ),
            decreases self.engines@.len() - i,
        {
            assert(self.running().take(i + 1).drop_last() =~= self.running().take(i as int));
            assert(self.last_uses().take(i + 1).drop_last() =~= self.last_uses().take(i as int));
            assert(self.running().take(i + 1).last() == self.engines@[i as int].0@);
            assert(self.last_uses().take(i + 1).last() == self.engines@[i as int].1.state.last_used());
            if self.engines[i].1.is_idle(now, self.timeout_ms) {
                let ghost before = out@;
                out.push(self.engines[i].0.clone());
                assert(out@.map_values(|s: String| s@) =~= before.map_values(|s: String| s@).push(
                    self.engines@[i as int].0@,
                ));
            }
            i += 1;
        }
        assert(self.running().take(self.engines@.len() as int) =~= self.running());
        assert(self.last_uses().take(self.engines@.len() as int) =~= self.last_uses());
        out
    }
}

} // verus!
