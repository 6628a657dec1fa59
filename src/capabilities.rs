use vstd::prelude::*;

use crate::diagnostic::Diagnostic;
use crate::json::{members_view, Json, JsonView};
use crate::engine::copy_members;
use crate::ruleset::RuleInfo;

verus! {

broadcast use vstd::string::group_string_axioms;

/// The data type of a configuration setting.
#[derive(Debug, Clone, Copy, PartialEq, Eq, Structural)]
pub enum ConfigType {
    String,
    Number,
    Integer,
    Boolean,
    Array,
    Object,
    /// One of a set of predefined values.
    Enum,
}

/// The wire name of a setting type.
pub open spec fn config_type_name(t: ConfigType) -> Seq<char> {
    match t {
        ConfigType::String => "string"@,
        ConfigType::Number => "number"@,
        ConfigType::Integer => "integer"@,
        ConfigType::Boolean => "boolean"@,
        ConfigType::Array => "array"@,
        ConfigType::Object => "object"@,
        ConfigType::Enum => "enum"@,
    }
}

pub fn config_type_text(t: ConfigType) -> (r: &'static str)
    ensures
        r@ == config_type_name(t),
{
    match t {
        ConfigType::String => "string",
        ConfigType::Number => "number",
        ConfigType::Integer => "integer",
        ConfigType::Boolean => "boolean",
        ConfigType::Array => "array",
        ConfigType::Object => "object",
        ConfigType::Enum => "enum",
    }
}

/// A setting a ruleset accepts.
#[derive(Debug)]
pub struct ConfigSetting {
    pub name: String,
    pub description: String,
    pub setting_type: ConfigType,
    pub default: Json,
    pub required: bool,
    /// The values an `Enum` setting may take.
    pub allowed_values: Option<Vec<Json>>,
    /// The least value of a numeric setting, a JSON number.
    pub min: Option<Json>,
    /// The greatest value of a numeric setting, a JSON number.
    pub max: Option<Json>,
}

/// What a ruleset offers.
#[derive(Debug)]
pub struct RulesetCapabilities {
    pub ruleset_id: String,
    pub version: String,
    pub file_patterns: Vec<String>,
    pub max_file_size: Option<u64>,
    /// Comment prefixes that introduce annotations, such as `//` or `#`.
    pub annotation_prefixes: Vec<String>,
    pub rules: Vec<RuleInfo>,
    /// The default setting of each rule, by rule id.
    pub default_config: Vec<(String, Json)>,
    pub config_settings: Vec<ConfigSetting>,
}

/// One file prepared for analysis.
#[derive(Debug)]
pub struct FileContext {
    pub uri: String,
    /// Empty when the runtime is to read the file itself.
    pub content: String,
    pub language: Option<String>,
    /// Parsed trees, symbols and the like.
    pub context: Vec<(String, Json)>,
}

/// What preprocessing gives for a set of files.
#[derive(Debug)]
pub struct PreprocessingContext {
    pub ruleset_id: String,
    pub files: Vec<FileContext>,
    /// Context across files.
    pub global_context: Vec<(String, Json)>,
}

/// The outcome of one ruleset.
#[derive(Debug, Clone)]
pub struct RulesetResult {
    pub ruleset_id: String,
    pub diagnostics: Vec<Diagnostic>,
    pub execution_time_ms: u64,
    pub files_processed: usize,
}

/// Counts of diagnostics by severity, and the rulesets used.
#[derive(Debug, Clone)]
pub struct ResultSummary {
    pub errors: usize,
    pub warnings: usize,
    pub info: usize,
    pub rulesets_used: Vec<String>,
}

/// The outcome of a whole lint run.
#[derive(Debug, Clone)]
pub struct LintResults {
    pub results: Vec<RulesetResult>,
    pub total_files: usize,
    pub total_diagnostics: usize,
    pub execution_time_ms: u64,
    pub summary: ResultSummary,
}

/// A list of strings as a JSON list.
pub fn strings_json(v: &Vec<String>) -> (r: Json)
    ensures
        r@ == JsonView::Array(v@.map_values(|s: String| JsonView::Str(s@))),
{
    let mut items: Vec<Json> = Vec::new();
    let mut i: usize = 0;
    while i < v.len()
        invariant
            0 <= i <= v@.len(),
            items@.len() == i,
            forall|k: int| 0 <= k < i ==> (#[trigger] items@[k])@ == JsonView::Str(v@[k]@),
        decreases v@.len() - i,
    {
        items.push(Json::Str(v[i].clone()));
        i += 1;
    }
    proof {
        Json::lemma_array_view(items);
        assert(items@.map_values(|x: Json| x@) =~= v@.map_values(|s: String| JsonView::Str(s@)));
    }
    Json::Array(items)
}

/// A copy of a list of JSON values.
pub fn copy_values(v: &Vec<Json>) -> (r: Vec<Json>)
    ensures
        r@.map_values(|x: Json| x@) == v@.map_values(|x: Json| x@),
{
    let mut out: Vec<Json> = Vec::new();
    let mut i: usize = 0;
    while i < v.len()
        invariant
            0 <= i <= v@.len(),
            out@.len() == i,
            forall|k: int| 0 <= k < i ==> (#[trigger] out@[k])@ == v@[k]@,
        decreases v@.len() - i,
    {
        out.push(v[i].duplicate());
        i += 1;
    }
    assert(out@.map_values(|x: Json| x@) =~= v@.map_values(|x: Json| x@));
    out
}

/// A number as JSON: `Int` when it fits `i64`.
pub fn u64_json(n: u64) -> (r: Json)
    ensures
        n <= i64::MAX ==> r@ == JsonView::Int(n as i64),
        n > i64::MAX ==> r@ is Num,
{
    if n <= 9223372036854775807 {
        Json::Int(n as i64)
    } else {
        Json::Num(crate::text::decimal(n))
    }
}

/// Builds a JSON object from its members.
pub fn object(m: Vec<(String, Json)>) -> (r: Json)
    ensures
        r@ == JsonView::Object(members_view(m@)),
{
    proof {
        Json::lemma_object_view(m);
    }
    Json::Object(m)
}

impl RuleInfo {
    /// `{id, description}`.
    pub fn to_json(&self) -> (r: Json)
        ensures
            r@ == JsonView::Object(
                seq![("id"@, JsonView::Str(self.id@)), ("description"@, JsonView::Str(self.description@))],
            ),
    {
        let m = vec![
            ("id".to_owned(), Json::Str(self.id.clone())),
            ("description".to_owned(), Json::Str(self.description.clone())),
        ];
        let r = object(m);
        assert(members_view(m@) =~= seq![("id"@, JsonView::Str(self.id@)), ("description"@, JsonView::Str(self.description@))]);
        r
    }
}

impl ConfigSetting {
    /// The JSON object this setting is sent as; absent optional fields are
    /// left out.
    pub fn to_json(&self) -> (r: Json)
        ensures
            r@ is Object,
            r@->Object_0.len() >= 5,
            r@->Object_0[0] == ("name"@, JsonView::Str(self.name@)),
            r@->Object_0[1] == ("description"@, JsonView::Str(self.description@)),
            r@->Object_0[2] == ("type"@, JsonView::Str(config_type_name(self.setting_type))),
            r@->Object_0[3] == ("default"@, self.default@),
            r@->Object_0[4] == ("required"@, JsonView::Bool(self.required)),
    {
        let mut m = vec![
            ("name".to_owned(), Json::Str(self.name.clone())),
            ("description".to_owned(), Json::Str(self.description.clone())),
            ("type".to_owned(), Json::Str(config_type_text(self.setting_type).to_owned())),
            ("default".to_owned(), self.default.duplicate()),
            ("required".to_owned(), Json::Bool(self.required)),
        ];
        let ghost head = m@;
        if let Some(vals) = &self.allowed_values {
            m.push(("allowed_values".to_owned(), Json::Array(copy_values(vals))));
        }
        if let Some(x) = &self.min {
            m.push(("min".to_owned(), x.duplicate()));
        }
        if let Some(x) = &self.max {
            m.push(("max".to_owned(), x.duplicate()));
        }
        assert(m@.subrange(0, 5) == head);
        let r = object(m);
        proof {
            assert(members_view(m@)[0] == (m@[0].0@, m@[0].1@));
            assert(members_view(m@)[1] == (m@[1].0@, m@[1].1@));
            assert(members_view(m@)[2] == (m@[2].0@, m@[2].1@));
            assert(members_view(m@)[3] == (m@[3].0@, m@[3].1@));
            assert(members_view(m@)[4] == (m@[4].0@, m@[4].1@));
        }
        r
    }
}

impl RulesetCapabilities {
    /// The JSON object these capabilities are sent as.
    pub fn to_json(&self) -> (r: Json)
        ensures
            r@ is Object,
            r@->Object_0.len() == 8,
            r@->Object_0[0] == ("ruleset_id"@, JsonView::Str(self.ruleset_id@)),
            r@->Object_0[1] == ("version"@, JsonView::Str(self.version@)),
            r@->Object_0[2] == ("file_patterns"@, JsonView::Array(
                self.file_patterns@.map_values(|s: String| JsonView::Str(s@)),
            )),
            r@->Object_0[4] == ("annotation_prefixes"@, JsonView::Array(
                self.annotation_prefixes@.map_values(|s: String| JsonView::Str(s@)),
            )),
            r@->Object_0[5].0 == "rules"@,
            r@->Object_0[6] == ("default_config"@, JsonView::Object(members_view(self.default_config@))),
            r@->Object_0[7].0 == "config_settings"@,
    {
        let mut rules: Vec<Json> = Vec::new();
        let mut i: usize = 0;
        while i < self.rules.len()
            decreases self.rules@.len() - i,
        {
            rules.push(self.rules[i].to_json());
            i += 1;
        }
        let mut settings: Vec<Json> = Vec::new();
        let mut i: usize = 0;
        while i < self.config_settings.len()
            decreases self.config_settings@.len() - i,
        {
            settings.push(self.config_settings[i].to_json());
            i += 1;
        }
        let size = match self.max_file_size {
            Some(n) => u64_json(n),
            None => Json::Null,
        };
        let m = vec![
            ("ruleset_id".to_owned(), Json::Str(self.ruleset_id.clone())),
            ("version".to_owned(), Json::Str(self.version.clone())),
            ("file_patterns".to_owned(), strings_json(&self.file_patterns)),
            ("max_file_size".to_owned(), size),
            ("annotation_prefixes".to_owned(), strings_json(&self.annotation_prefixes)),
            ("rules".to_owned(), Json::Array(rules)),
            ("default_config".to_owned(), object(copy_members(&self.default_config))),
            ("config_settings".to_owned(), Json::Array(settings)),
        ];
        object(m)
    }
}

impl FileContext {
    /// The JSON object this file context is sent as.
    pub fn to_json(&self) -> (r: Json)
        ensures
            r@ == JsonView::Object(
                seq![
                    ("uri"@, JsonView::Str(self.uri@)),
                    ("content"@, JsonView::Str(self.content@)),
                    ("language"@, match self.language {
                        Some(l) => JsonView::Str(l@),
                        None => JsonView::Null,
                    }),
                    ("context"@, JsonView::Object(members_view(self.context@))),
                ],
            ),
    {
        let language = match &self.language {
            Some(l) => Json::Str(l.clone()),
            None => Json::Null,
        };
        let m = vec![
            ("uri".to_owned(), Json::Str(self.uri.clone())),
            ("content".to_owned(), Json::Str(self.content.clone())),
            ("language".to_owned(), language),
            ("context".to_owned(), object(copy_members(&self.context))),
        ];
        let r = object(m);
        assert(members_view(m@) =~= seq![
            ("uri"@, JsonView::Str(self.uri@)),
            ("content"@, JsonView::Str(self.content@)),
            ("language"@, match self.language {
                Some(l) => JsonView::Str(l@),
                None => JsonView::Null,
            }),
            ("context"@, JsonView::Object(members_view(self.context@))),
        ]);
        r
    }
}

impl PreprocessingContext {
    /// The JSON object this context is sent as.
    pub fn to_json(&self) -> (r: Json)
        ensures
            r@ is Object,
            r@->Object_0.len() == 3,
            r@->Object_0[0] == ("ruleset_id"@, JsonView::Str(self.ruleset_id@)),
            r@->Object_0[1].0 == "files"@,
            r@->Object_0[2] == ("global_context"@, JsonView::Object(members_view(self.global_context@))),
    {
        let mut files: Vec<Json> = Vec::new();
        let mut i: usize = 0;
        while i < self.files.len()
            decreases self.files@.len() - i,
        {
            files.push(self.files[i].to_json());
            i += 1;
        }
        let m = vec![
            ("ruleset_id".to_owned(), Json::Str(self.ruleset_id.clone())),
            ("files".to_owned(), Json::Array(files)),
            ("global_context".to_owned(), object(copy_members(&self.global_context))),
        ];
        object(m)
    }
}

} // verus!
