use vstd::prelude::*;

use crate::json::{parse_json, parsed_json, Json, JsonView};
use crate::keyed::{find_key, key_seq, lookup};
use crate::text::{
    ascii_lower, chars_eq, chars_of, join, clean_ids, comma_pieces, is_alnum, lower_char, string_of, texts,
    trim_chars, trimmed, trimmed_pieces, upper_char,
};
use crate::toml_value::{merge_json_object_into_toml_table, merged_table, table_view, TomlValue, TomlView};

verus! {

broadcast use vstd::string::group_string_axioms;

/// How much the linter logs.
#[derive(Debug, Clone, Copy, PartialEq, Eq, Structural)]
pub enum LogLevel {
    Trace,
    Debug,
    Info,
    Warn,
    Error,
}

/// How the linter prints its results.
#[derive(Debug, Clone, Copy, PartialEq, Eq, Structural)]
pub enum OutputFormat {
    Json,
    Ndjson,
    Text,
    Sarif,
}

impl Default for LogLevel {
    fn default() -> (r: Self)
        ensures
            r == LogLevel::Info,
    {
        LogLevel::Info
    }
}

impl Default for OutputFormat {
    fn default() -> (r: Self)
        ensures
            r == OutputFormat::Json,
    {
        OutputFormat::Json
    }
}

/// The `[linter]` section.
#[derive(Debug, Clone, Copy, PartialEq, Eq, Structural)]
pub struct LinterCfg {
    pub log_level: LogLevel,
    pub output_format: OutputFormat,
    /// 0 means automatic.
    pub parallelism: u16,
    pub fail_on_error: bool,
}

/// The defaults of the `[linter]` section.
pub open spec fn default_linter() -> LinterCfg {
    LinterCfg {
        log_level: LogLevel::Info,
        output_format: OutputFormat::Json,
        parallelism: 0,
        fail_on_error: true,
    }
}

impl Default for LinterCfg {
    fn default() -> (r: Self)
        ensures
            r == default_linter(),
    {
        LinterCfg {
            log_level: LogLevel::Info,
            output_format: OutputFormat::Json,
            parallelism: 0,
            fail_on_error: default_fail_on_error(),
        }
    }
}

/// `fail_on_error` when the file leaves it out.
pub fn default_fail_on_error() -> (r: bool)
    ensures
        r,
{
    true
}

/// `enabled` of a ruleset when the file leaves it out.
pub fn default_enabled() -> (r: bool)
    ensures
        r,
{
    true
}

/// A `[ruleset.<id>]` section.
#[derive(Debug)]
pub struct RulesetCfg {
    pub enabled: bool,
    /// Free-form settings the ruleset interprets.
    pub config: Vec<(String, TomlValue)>,
    /// A git repository to build the engine from.
    pub git: Option<String>,
    /// A local path to the engine binary.
    pub path: Option<String>,
}

pub struct RulesetCfgView {
    pub enabled: bool,
    pub config: Seq<(Seq<char>, TomlView)>,
    pub git: Option<Seq<char>>,
    pub path: Option<Seq<char>>,
}

pub open spec fn opt_view(s: Option<String>) -> Option<Seq<char>> {
    match s {
        Some(t) => Some(t@),
        None => None,
    }
}

impl View for RulesetCfg {
    type V = RulesetCfgView;

    open spec fn view(&self) -> RulesetCfgView {
        RulesetCfgView {
            enabled: self.enabled,
            config: table_view(self.config@),
            git: opt_view(self.git),
            path: opt_view(self.path),
        }
    }
}

/// A ruleset section with every setting at its default: enabled, empty config,
/// no source.
pub open spec fn default_ruleset() -> RulesetCfgView {
    RulesetCfgView { enabled: true, config: Seq::empty(), git: None, path: None }
}

impl RulesetCfg {
    /// A ruleset section with every setting at its default.
    pub fn new() -> (r: Self)
        ensures
            r@ == default_ruleset(),
    {
        let r = RulesetCfg { enabled: default_enabled(), config: Vec::new(), git: None, path: None };
        assert(table_view(r.config@) =~= Seq::<(Seq<char>, TomlView)>::empty());
        r
    }
}

/// The whole configuration.
#[derive(Debug)]
pub struct Config {
    pub linter: LinterCfg,
    /// Ruleset sections by id, in order; ids are unique.
    pub ruleset: Vec<(String, RulesetCfg)>,
}

pub struct ConfigView {
    pub linter: LinterCfg,
    pub ruleset: Seq<(Seq<char>, RulesetCfgView)>,
}

pub open spec fn rulesets_view(m: Seq<(String, RulesetCfg)>) -> Seq<(Seq<char>, RulesetCfgView)> {
    m.map_values(|e: (String, RulesetCfg)| (e.0@, e.1@))
}

impl View for Config {
    type V = ConfigView;

    open spec fn view(&self) -> ConfigView {
        ConfigView { linter: self.linter, ruleset: rulesets_view(self.ruleset@) }
    }
}

/// The environment, as plain values: variable names and values.
pub open spec fn env_view(env: Seq<(String, String)>) -> Seq<(Seq<char>, Seq<char>)> {
    env.map_values(|e: (String, String)| (e.0@, e.1@))
}

/// The value of variable `k`.
pub open spec fn env_var(env: Seq<(Seq<char>, Seq<char>)>, k: Seq<char>) -> Option<Seq<char>> {
    lookup(env, k)
}

/// The value of variable `k` in the environment `env`.
pub fn env_get<'a>(env: &'a Vec<(String, String)>, k: &str) -> (r: Option<&'a String>)
    ensures
        r is None ==> env_var(env_view(env@), k@) is None,
        r matches Some(v) ==> env_var(env_view(env@), k@) == Some(v@),
{
    assert(env_view(env@).map_values(|e: (Seq<char>, Seq<char>)| e.0) =~= key_seq(env@));
    match find_key(env, k) {
        Some(i) => Some(&env[i].1),
        None => None,
    }
}

/// The words a boolean override may be, after trimming and lower-casing.
pub open spec fn bool_of_text(s: Seq<char>) -> Option<bool> {
    let t = trimmed(s).map_values(|c: char| lower_char(c));
    if t == "1"@ || t == "true"@ || t == "yes"@ || t == "on"@ {
        Some(true)
    } else if t == "0"@ || t == "false"@ || t == "no"@ || t == "off"@ {
        Some(false)
    } else {
        None
    }
}

pub open spec fn log_level_of_text(s: Seq<char>) -> Option<LogLevel> {
    let t = trimmed(s).map_values(|c: char| lower_char(c));
    if t == "trace"@ {
        Some(LogLevel::Trace)
    } else if t == "debug"@ {
        Some(LogLevel::Debug)
    } else if t == "info"@ {
        Some(LogLevel::Info)
    } else if t == "warn"@ {
        Some(LogLevel::Warn)
    } else if t == "error"@ {
        Some(LogLevel::Error)
    } else {
        None
    }
}

pub open spec fn output_format_of_text(s: Seq<char>) -> Option<OutputFormat> {
    let t = trimmed(s).map_values(|c: char| lower_char(c));
    if t == "json"@ {
        Some(OutputFormat::Json)
    } else if t == "ndjson"@ {
        Some(OutputFormat::Ndjson)
    } else if t == "text"@ {
        Some(OutputFormat::Text)
    } else if t == "sarif"@ {
        Some(OutputFormat::Sarif)
    } else {
        None
    }
}

/// Whether `s` is made of ASCII digits only.
pub open spec fn all_digits(s: Seq<char>) -> bool {
    forall|i: int| 0 <= i < s.len() ==> 48 <= #[trigger] (s[i] as u32) <= 57
}

/// The number the decimal digits `s` write.
pub open spec fn digits_value(s: Seq<char>) -> int
    decreases s.len(),
{
    if s.len() == 0 {
        0
    } else {
        digits_value(s.drop_last()) * 10 + (s.last() as u32 - 48)
    }
}

/// A `u16` written in decimal, with an optional leading `+`, as `u16::from_str`
/// reads it.
pub open spec fn u16_of_text(s: Seq<char>) -> Option<u16> {
    let d = if s.len() > 0 && s[0] == '+' {
        s.skip(1)
    } else {
        s
    };
    if d.len() > 0 && all_digits(d) && digits_value(d) <= u16::MAX {
        Some(digits_value(d) as u16)
    } else {
        None
    }
}

/// The id of a ruleset as it stands in variable names: every character that
/// is not an ASCII letter or digit becomes `_`, letters are upper-cased.
pub open spec fn upper_id(id: Seq<char>) -> Seq<char> {
    id.map_values(|c: char| if is_alnum(c) { upper_char(c) } else { '_' })
}

fn text_of_chars_is(t: &[char], lit: &str) -> (r: bool)
    ensures
        r == (t@ == lit@),
{
    let l = chars_of(lit);
    chars_eq(t, l.as_slice())
}

/// The trimmed, lower-cased form of `s`.
fn normalized(s: &str) -> (r: Vec<char>)
    ensures
        r@ == trimmed(s@).map_values(|c: char| lower_char(c)),
{
    let c = chars_of(s);
    let t = trim_chars(c.as_slice());
    ascii_lower(t.as_slice())
}

/// Reads `1/0/true/false/yes/no/on/off`, in any case, around whitespace.
pub fn parse_bool(s: &str) -> (r: Result<bool, ()>)
    ensures
        r matches Ok(b) ==> bool_of_text(s@) == Some(b),
        r is Err ==> bool_of_text(s@) is None,
{
    let t = normalized(s);
    let t = t.as_slice();
    if text_of_chars_is(t, "1") || text_of_chars_is(t, "true") || text_of_chars_is(t, "yes")
        || text_of_chars_is(t, "on") {
        Ok(true)
    } else if text_of_chars_is(t, "0") || text_of_chars_is(t, "false") || text_of_chars_is(t, "no")
        || text_of_chars_is(t, "off") {
        Ok(false)
    } else {
        Err(())
    }
}

/// Reads a log level name, in any case, around whitespace.
pub fn parse_log_level(s: &str) -> (r: Result<LogLevel, ()>)
    ensures
        r matches Ok(l) ==> log_level_of_text(s@) == Some(l),
        r is Err ==> log_level_of_text(s@) is None,
{
    let t = normalized(s);
    let t = t.as_slice();
    if text_of_chars_is(t, "trace") {
        Ok(LogLevel::Trace)
    } else if text_of_chars_is(t, "debug") {
        Ok(LogLevel::Debug)
    } else if text_of_chars_is(t, "info") {
        Ok(LogLevel::Info)
    } else if text_of_chars_is(t, "warn") {
        Ok(LogLevel::Warn)
    } else if text_of_chars_is(t, "error") {
        Ok(LogLevel::Error)
    } else {
        Err(())
    }
}

/// Reads an output format name, in any case, around whitespace.
pub fn parse_output_format(s: &str) -> (r: Result<OutputFormat, ()>)
    ensures
        r matches Ok(f) ==> output_format_of_text(s@) == Some(f),
        r is Err ==> output_format_of_text(s@) is None,
{
    let t = normalized(s);
    let t = t.as_slice();
    if text_of_chars_is(t, "json") {
        Ok(OutputFormat::Json)
    } else if text_of_chars_is(t, "ndjson") {
        Ok(OutputFormat::Ndjson)
    } else if text_of_chars_is(t, "text") {
        Ok(OutputFormat::Text)
    } else if text_of_chars_is(t, "sarif") {
        Ok(OutputFormat::Sarif)
    } else {
        Err(())
    }
}

/// The comma-separated ids of a list, trimmed, empties dropped.
pub fn parse_csv_ids(s: &str) -> (r: Vec<String>)
    ensures
        texts(r@) == clean_ids(comma_pieces(s@)),
{
    let c = chars_of(s);
    trimmed_pieces(c.as_slice())
}

/// The id as it stands in variable names.
pub fn upper(id: &str) -> (r: String)
    ensures
        r@ == upper_id(id@),
{
    let c = chars_of(id);
    let mut v: Vec<char> = Vec::new();
    let mut i: usize = 0;
    while i < c.len()
        invariant
            0 <= i <= c@.len(),
            v@ == upper_id(c@.take(i as int)),
        decreases c@.len() - i,
    {
        let ch = c[i];
        let x: u32 = ch as u32;
        let alnum = (48 <= x && x <= 57) || (97 <= x && x <= 122) || (65 <= x && x <= 90);
        let d = if !alnum {
            '_'
        } else if 97 <= x && x <= 122 {
            ((x - 32) as u8) as char
        } else {
            ch
        };
        assert(d == (if is_alnum(ch) { upper_char(ch) } else { '_' }));
        v.push(d);
        i += 1;
        assert(v@ =~= upper_id(c@.take(i as int)));
    }
    assert(c@.take(c@.len() as int) =~= c@);
    string_of(v.as_slice())
}

proof fn lemma_digits_nonneg(d: Seq<char>)
    requires
        all_digits(d),
    ensures
        0 <= digits_value(d),
    decreases d.len(),
{
    if d.len() > 0 {
        lemma_digits_nonneg(d.drop_last());
        assert(48 <= (d[d.len() - 1] as u32) <= 57);
    }
}

proof fn lemma_digits_monotone(d: Seq<char>, n: int, m: int)
    requires
        all_digits(d),
        0 <= n <= m <= d.len(),
    ensures
        digits_value(d.take(n)) <= digits_value(d.take(m)),
    decreases m - n,
{
    if n < m {
        lemma_digits_monotone(d, n, m - 1);
        assert(d.take(m).drop_last() =~= d.take(m - 1));
        assert(48 <= (d[m - 1] as u32) <= 57);
        let p = digits_value(d.take(m - 1));
        lemma_digits_nonneg(d.take(m - 1));
        assert(p <= p * 10) by (nonlinear_arith)
            requires
                0 <= p,
        ;
    }
}

/// Reads a `u16` written in decimal, with an optional leading `+`.
pub fn parse_u16(s: &str) -> (r: Option<u16>)
    ensures
        r == u16_of_text(s@),
{
    let c = chars_of(s);
    let start: usize = if c.len() > 0 && c[0] == '+' {
        1
    } else {
        0
    };
    let d = crate::text::skip(c.as_slice(), start);
    assert(d@ == (if s@.len() > 0 && s@[0] == '+' { s@.skip(1) } else { s@ }));
    if d.len() == 0 {
        return None;
    }
    let mut acc: u32 = 0;
    let mut i: usize = 0;
    assert(d@.take(0) =~= Seq::<char>::empty());
    while i < d.len()
        invariant
            0 <= i <= d@.len(),
            acc as int == digits_value(d@.take(i as int)),
            acc <= 65535,
            d@.len() > 0,
            d@ == (if s@.len() > 0 && s@[0] == '+' { s@.skip(1) } else { s@ }),
            forall|k: int| 0 <= k < i ==> 48 <= #[trigger] (d@[k] as u32) <= 57,
        decreases d@.len() - i,
    {
        let x: u32 = d[i] as u32;
        if x < 48 || x > 57 {
            assert(!(48 <= (d@[i as int] as u32) <= 57));
            assert(!all_digits(d@));
            return None;
        }
        assert(d@.take(i + 1).drop_last() =~= d@.take(i as int));
        assert(acc * 10 <= 655350) by (nonlinear_arith)
            requires
                acc <= 65535,
        ;
        acc = acc * 10 + (x - 48);
        i += 1;
        if acc > 65535 {
            assert forall|k: int| 0 <= k < i implies 48 <= #[trigger] (d@.take(i as int)[k] as u32)
                <= 57 by {}
            proof {
                if all_digits(d@) {
                    lemma_digits_monotone(d@, i as int, d@.len() as int);
                    assert(d@.take(d@.len() as int) =~= d@);
                }
            }
            return None;
        }
    }
    assert(d@.take(d@.len() as int) =~= d@);
    Some(acc as u16)
}

/// The variable that switches ruleset `id` on or off.
pub open spec fn enabled_key(id: Seq<char>) -> Seq<char> {
    "FORSETI_RULESET_"@ + upper_id(id) + "_ENABLED"@
}

/// The variable that holds extra settings for ruleset `id`, as a JSON object.
pub open spec fn config_key(id: Seq<char>) -> Seq<char> {
    "FORSETI_RULESET_"@ + upper_id(id) + "_CONFIG_JSON"@
}

/// The `[linter]` section after the environment overrides: each variable that
/// is set and reads well replaces its setting.
pub open spec fn linter_with_env(l: LinterCfg, env: Seq<(Seq<char>, Seq<char>)>) -> LinterCfg {
    let l1 = match env_var(env, "FORSETI_LINTER_LOG_LEVEL"@) {
        Some(v) => match log_level_of_text(v) {
            Some(x) => LinterCfg { log_level: x, ..l },
            None => l,
        },
        None => l,
    };
    let l2 = match env_var(env, "FORSETI_LINTER_OUTPUT_FORMAT"@) {
        Some(v) => match output_format_of_text(v) {
            Some(x) => LinterCfg { output_format: x, ..l1 },
            None => l1,
        },
        None => l1,
    };
    let l3 = match env_var(env, "FORSETI_LINTER_PARALLELISM"@) {
        Some(v) => match u16_of_text(v) {
            Some(x) => LinterCfg { parallelism: x, ..l2 },
            None => l2,
        },
        None => l2,
    };
    match env_var(env, "FORSETI_LINTER_FAIL_ON_ERROR"@) {
        Some(v) => match bool_of_text(v) {
            Some(x) => LinterCfg { fail_on_error: x, ..l3 },
            None => l3,
        },
        None => l3,
    }
}

/// The ruleset sections with a default one added for each listed id not
/// present yet, in list order.
pub open spec fn with_ids(rs: Seq<(Seq<char>, RulesetCfgView)>, ids: Seq<Seq<char>>) -> Seq<
    (Seq<char>, RulesetCfgView),
>
    decreases ids.len(),
{
    if ids.len() == 0 {
        rs
    } else {
        let r = with_ids(rs, ids.drop_last());
        if lookup(r, ids.last()) is Some {
            r
        } else {
            r.push((ids.last(), default_ruleset()))
        }
    }
}

/// A ruleset section after its environment overrides: the enabled switch when
/// it reads as a boolean, and the members of the settings object when it
/// parses as a JSON object, set one by one into the config table.
pub open spec fn ruleset_with_env(id: Seq<char>, cfg: RulesetCfgView, env: Seq<(Seq<char>, Seq<char>)>) -> RulesetCfgView {
    let c1 = match env_var(env, enabled_key(id)) {
        Some(v) => match bool_of_text(v) {
            Some(b) => RulesetCfgView { enabled: b, ..cfg },
            None => cfg,
        },
        None => cfg,
    };
    match env_var(env, config_key(id)) {
        Some(v) => match parsed_json(v) {
            Some(JsonView::Object(m)) => RulesetCfgView { config: merged_table(c1.config, m), ..c1 },
            _ => c1,
        },
        None => c1,
    }
}

/// The ruleset sections after the `FORSETI_RULESET_IDS` list.
pub open spec fn rulesets_with_ids(c: ConfigView, env: Seq<(Seq<char>, Seq<char>)>) -> Seq<
    (Seq<char>, RulesetCfgView),
> {
    match env_var(env, "FORSETI_RULESET_IDS"@) {
        Some(v) => with_ids(c.ruleset, clean_ids(comma_pieces(v))),
        None => c.ruleset,
    }
}

/// The configuration after all environment overrides.
pub open spec fn config_with_env(c: ConfigView, env: Seq<(Seq<char>, Seq<char>)>) -> ConfigView {
    let rs = rulesets_with_ids(c, env);
    ConfigView {
        linter: linter_with_env(c.linter, env),
        ruleset: rs.map_values(
            |e: (Seq<char>, RulesetCfgView)| (e.0, ruleset_with_env(e.0, e.1, env)),
        ),
    }
}

/// The `[linter]` section after the environment overrides.
fn linter_overrides(l: LinterCfg, env: &Vec<(String, String)>) -> (r: LinterCfg)
    ensures
        r == linter_with_env(l, env_view(env@)),
{
    let mut l = l;
    if let Some(v) = env_get(env, "FORSETI_LINTER_LOG_LEVEL") {
        if let Ok(parsed) = parse_log_level(v.as_str()) {
            l.log_level = parsed;
        }
    }
    if let Some(v) = env_get(env, "FORSETI_LINTER_OUTPUT_FORMAT") {
        if let Ok(parsed) = parse_output_format(v.as_str()) {
            l.output_format = parsed;
        }
    }
    if let Some(v) = env_get(env, "FORSETI_LINTER_PARALLELISM") {
        if let Some(n) = parse_u16(v.as_str()) {
            l.parallelism = n;
        }
    }
    if let Some(v) = env_get(env, "FORSETI_LINTER_FAIL_ON_ERROR") {
        if let Ok(b) = parse_bool(v.as_str()) {
            l.fail_on_error = b;
        }
    }
    l
}

/// Adds a default section for each id not present yet.
fn add_rulesets(rs: &mut Vec<(String, RulesetCfg)>, ids: &Vec<String>)
    ensures
        rulesets_view(final(rs)@) == with_ids(rulesets_view(old(rs)@), texts(ids@)),
{
    let ghost start = rulesets_view(rs@);
    let ghost idv = texts(ids@);
    let mut i: usize = 0;
    assert(idv.take(0) =~= Seq::<Seq<char>>::empty());
    while i < ids.len()
        invariant
            0 <= i <= ids@.len(),
            idv == texts(ids@),
            start == rulesets_view(old(rs)@),
            rulesets_view(rs@) == with_ids(start, idv.take(i as int)),
        decreases ids@.len() - i,
    {
        assert(idv.take(i + 1).drop_last() =~= idv.take(i as int));
        assert(rulesets_view(rs@).map_values(|e: (Seq<char>, RulesetCfgView)| e.0) =~= key_seq(rs@));
        match find_key(rs, ids[i].as_str()) {
            Some(_) => {},
            None => {
                let ghost before = rs@;
                rs.push((ids[i].clone(), RulesetCfg::new()));
                assert(rulesets_view(rs@) =~= rulesets_view(before).push((idv[i as int], default_ruleset())));
            },
        }
        i += 1;
    }
    assert(idv.take(idv.len() as int) =~= idv);
}

/// Applies the overrides of ruleset `id` to its section.
fn ruleset_overrides(id: &str, cfg: &mut RulesetCfg, env: &Vec<(String, String)>)
    ensures
        final(cfg)@ == ruleset_with_env(id@, old(cfg)@, env_view(env@)),
{
    let up = upper(id);
    let head = join("FORSETI_RULESET_", up.as_str());
    let k_enabled = join(head.as_str(), "_ENABLED");
    if let Some(v) = env_get(env, k_enabled.as_str()) {
        if let Ok(b) = parse_bool(v.as_str()) {
            cfg.enabled = b;
        }
    }
    let k_cfg = join(head.as_str(), "_CONFIG_JSON");
    if let Some(v) = env_get(env, k_cfg.as_str()) {
        if let Some(Json::Object(obj)) = parse_json(v.as_str()) {
            proof {
                Json::lemma_object_view(obj);
            }
            merge_json_object_into_toml_table(&obj, &mut cfg.config);
        }
    }
}

/// A configuration shared between readers.
#[derive(Clone)]
pub struct SharedConfig(pub std::sync::Arc<Config>);

impl SharedConfig {
    /// The configuration.
    pub fn get(&self) -> (r: &Config)
        ensures
            *r == *self.0,
    {
        &self.0
    }

    /// Another handle on the same configuration.
    pub fn clone_arc(&self) -> std::sync::Arc<Config> {
        self.0.clone()
    }
}

/// The ids of the enabled rulesets, in order.
pub open spec fn enabled_ids(rs: Seq<(Seq<char>, RulesetCfgView)>) -> Seq<Seq<char>>
    decreases rs.len(),
{
    if rs.len() == 0 {
        Seq::empty()
    } else {
        let r = enabled_ids(rs.drop_last());
        if rs.last().1.enabled {
            r.push(rs.last().0)
        } else {
            r
        }
    }
}

/// The ids of the enabled rulesets of a configuration, in order.
pub fn enabled_rulesets(cfg: &SharedConfig) -> (r: Vec<String>)
    ensures
        texts(r@) == enabled_ids(cfg.0@.ruleset),
{
    let c = cfg.get();
    let ghost rs = rulesets_view(c.ruleset@);
    let mut out: Vec<String> = Vec::new();
    let mut i: usize = 0;
    assert(rs.take(0) =~= Seq::<(Seq<char>, RulesetCfgView)>::empty());
    assert(texts(out@) =~= Seq::<Seq<char>>::empty());
    while i < c.ruleset.len()
        invariant
            0 <= i <= c.ruleset@.len(),
            rs == rulesets_view(c.ruleset@),
            texts(out@) == enabled_ids(rs.take(i as int)),
        decreases c.ruleset@.len() - i,
    {
        assert(rs.take(i + 1).drop_last() =~= rs.take(i as int));
        if c.ruleset[i].1.enabled {
            let ghost before = out@;
            out.push(c.ruleset[i].0.clone());
            assert(texts(out@) =~= texts(before).push(c.ruleset@[i as int].0@));
        }
        i += 1;
    }
    assert(rs.take(rs.len() as int) =~= rs);
    out
}

impl Config {
    /// A configuration with the default `[linter]` section and no rulesets.
    pub fn from_default() -> (r: Self)
        ensures
            r@.linter == default_linter(),
            r@.ruleset.len() == 0,
    {
        Config { linter: LinterCfg::default(), ruleset: Vec::new() }
    }

    /// Applies the environment overrides: the linter settings, the ids of
    /// `FORSETI_RULESET_IDS`, then for each ruleset its enabled switch and its
    /// JSON settings. A variable that does not read well is ignored.
    pub fn merge_env_overrides(&mut self, env: &Vec<(String, String)>)
        ensures
            final(self)@ == config_with_env(old(self)@, env_view(env@)),
    {
        self.linter = linter_overrides(self.linter, env);
        if let Some(ids) = env_get(env, "FORSETI_RULESET_IDS") {
            let list = parse_csv_ids(ids.as_str());
            add_rulesets(&mut self.ruleset, &list);
        }
        let ghost rs = rulesets_view(self.ruleset@);
        let ghost envv = env_view(env@);
        assert(rs == rulesets_with_ids(old(self)@, envv));
        let mut i: usize = 0;
        while i < self.ruleset.len()
            invariant
                0 <= i <= self.ruleset@.len(),
                self.ruleset@.len() == rs.len(),
                envv == env_view(env@),
                rs == rulesets_with_ids(old(self)@, envv),
                self.linter == linter_with_env(old(self).linter, envv),
                forall|k: int|
                    0 <= k < i ==> (#[trigger] rulesets_view(self.ruleset@)[k]) == (
                    rs[k].0,
                    ruleset_with_env(rs[k].0, rs[k].1, envv),
                ),
                forall|k: int| i <= k < rs.len() ==> (#[trigger] rulesets_view(self.ruleset@)[k]) == rs[k],
            decreases rs.len() - i,
        {
            let id = self.ruleset[i].0.clone();
            let ghost before = self.ruleset@;
            assert(rulesets_view(before)[i as int] == rs[i as int]);
            let mut entry = self.ruleset.remove(i);
            let ghost old_cfg = entry.1@;
            ruleset_overrides(id.as_str(), &mut entry.1, env);
            let ghost e = (entry.0@, entry.1@);
            self.ruleset.insert(i, entry);
            assert(self.ruleset@ =~= before.update(i as int, self.ruleset@[i as int]));
            assert(rulesets_view(self.ruleset@) =~= rulesets_view(before).update(i as int, e));
            assert(e == (rs[i as int].0, ruleset_with_env(rs[i as int].0, rs[i as int].1, envv)));
            i += 1;
        }
        assert(rulesets_view(self.ruleset@) =~= rs.map_values(
            |e: (Seq<char>, RulesetCfgView)| (e.0, ruleset_with_env(e.0, e.1, envv)),
        ));
    }
}

} // verus!
