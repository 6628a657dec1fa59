use forseti_sdk::annotation::AnnotationParser;
use forseti_sdk::capabilities::{ConfigType, FileContext, PreprocessingContext, RulesetCapabilities};
use forseti_sdk::config::{Config, RulesetCfg};
use forseti_sdk::diagnostic::Diagnostic;
use forseti_sdk::engine::{rule_options_of, EngineConfig};
use forseti_sdk::json::Json;
use forseti_sdk::linter::{diagnostics_of_event, EngineHandle, EngineInfo, EngineManager, HandleState};
use forseti_sdk::position::LineIndex;
use forseti_sdk::protocol::{Envelope, Kind};
use forseti_sdk::ruleset::{
    run_ruleset, run_ruleset_with_annotations, run_ruleset_with_context, ruleset_default_config, Rule, RuleContext,
    Ruleset, RulesetOptions,
};
use forseti_sdk::server::{
    add_rule_settings, analyze_loaded, EngineOptions, EngineServer, Loaded, RulesetServer, ServerState,
};
use forseti_sdk::toml_value::TomlValue;

struct NoTrailingWs;

impl Rule for NoTrailingWs {
    fn id(&self) -> String {
        "no-trailing-ws".to_string()
    }

    fn description(&self) -> String {
        "Disallow trailing whitespace".to_string()
    }

    fn check(&self, ctx: &mut RuleContext) {
        let text = ctx.text();
        let index = LineIndex::new(text);
        let mut start = 0usize;
        for line in text.split('\n') {
            let trimmed = line.trim_end_matches([' ', '\t']);
            if trimmed.len() < line.len() {
                let range = index.to_range(start + trimmed.len(), start + line.len());
                ctx.report(Diagnostic {
                    rule_id: "no-trailing-ws".to_string(),
                    message: "Trailing whitespace".to_string(),
                    severity: "warn".to_string(),
                    range,
                    code: None,
                    suggest: None,
                    docs_url: None,
                });
            }
            start += line.len() + 1;
        }
    }
}

fn obj(members: Vec<(&str, Json)>) -> Json {
    Json::Object(members.into_iter().map(|(k, v)| (k.to_string(), v)).collect())
}

fn text(s: &str) -> Json {
    Json::Str(s.to_string())
}

struct BasicEngine {
    setting: Json,
}

impl EngineOptions for BasicEngine {
    type RuleImpl = NoTrailingWs;

    fn get_default_config(&self) -> EngineConfig {
        let setting = match &self.setting {
            Json::Str(s) => Json::Str(s.clone()),
            _ => Json::Null,
        };
        EngineConfig {
            enabled: Some(true),
            rulesets: Some(vec![("basic".to_string(), obj(vec![("no-trailing-ws", setting)]))]),
        }
    }

    fn load_ruleset(&self, id: &str) -> Result<Ruleset<NoTrailingWs>, String> {
        if id == "basic" {
            Ok(Ruleset::new("basic").with_rule(NoTrailingWs))
        } else {
            Err(format!("unknown ruleset {id}"))
        }
    }

    fn get_capabilities(&self) -> RulesetCapabilities {
        RulesetCapabilities {
            ruleset_id: "basic".to_string(),
            version: "1.0.0".to_string(),
            file_patterns: vec!["*".to_string()],
            max_file_size: None,
            annotation_prefixes: vec!["//".to_string(), "#".to_string()],
            rules: Vec::new(),
            default_config: Vec::new(),
            config_settings: Vec::new(),
        }
    }

    fn preprocess_files(&self, _file_uris: &Vec<String>) -> Result<PreprocessingContext, String> {
        Err("no preprocessing".to_string())
    }

    fn list_rulesets(&self) -> Vec<String> {
        vec!["basic".to_string()]
    }
}

fn request(typ: &str, id: &str, payload: Json) -> Json {
    Envelope::req(typ, id, payload).to_json()
}

fn started_server(setting: &str) -> EngineServer<BasicEngine> {
    let mut server = EngineServer::new(BasicEngine { setting: text(setting) });
    let out = server.handle(&request("initialize", "e_1", obj(vec![])));
    assert_eq!(out.len(), 1);
    assert_eq!(server.state(), ServerState::Initialized);
    server
}

fn analyze(server: &mut EngineServer<BasicEngine>, content: &str) -> Vec<Diagnostic> {
    let payload = obj(vec![("uri", text("file:///a.txt")), ("content", text(content))]);
    let out = server.handle(&request("analyzeFile", "e_2", payload));
    assert_eq!(out.len(), 2);
    assert_eq!(out[0].kind, Kind::Event);
    assert_eq!(out[0].typ, "diagnostics");
    assert_eq!(out[1].kind, Kind::Res);
    assert_eq!(out[1].id.as_deref(), Some("e_2"));
    diagnostics_of_event(&out[0].to_json())
}

#[test]
fn trailing_whitespace_reported() {
    let mut server = started_server("warn");
    let diags = analyze(&mut server, "hello   \nworld\n");
    assert_eq!(diags.len(), 1);
    let d = &diags[0];
    assert_eq!(d.rule_id, "no-trailing-ws");
    assert_eq!(d.severity, "warn");
    assert_eq!((d.range.start.line, d.range.start.character), (0, 5));
    assert_eq!((d.range.end.line, d.range.end.character), (0, 8));
}

#[test]
fn ignore_next_line_masks_following_line_only() {
    let mut server = started_server("warn");
    let diags = analyze(&mut server, "// forseti-ignore-next-line no-trailing-ws\nfoo   \nbar   \n");
    assert_eq!(diags.len(), 1);
    assert_eq!(diags[0].range.start.line, 2);
}

#[test]
fn ignore_file_masks_everything() {
    let mut server = started_server("warn");
    let diags = analyze(&mut server, "# forseti-ignore-file\nfoo   \n");
    assert!(diags.is_empty());
}

#[test]
fn rule_set_off_does_not_run() {
    let mut server = started_server("off");
    let diags = analyze(&mut server, "foo   \nbar \n");
    assert!(diags.is_empty());

    let options = rule_options_of(&obj(vec![("no-trailing-ws", text("off"))]));
    assert!(options.is_empty());
    let rs = Ruleset::new("basic").with_rule(NoTrailingWs);
    assert!(run_ruleset("u", "foo   \n", &rs, &options).is_empty());
}

#[test]
fn analyze_before_initialize_is_refused() {
    let mut server = EngineServer::new(BasicEngine { setting: text("warn") });
    let payload = obj(vec![("uri", text("u")), ("content", text("foo   \n"))]);
    let out = server.handle(&request("analyzeFile", "e_1", payload));
    assert_eq!(out.len(), 1);
    assert_eq!(out[0].kind, Kind::Res);
    assert_eq!(out[0].typ, "analyzeFile");
    let body = out[0].payload.as_ref().unwrap();
    assert!(matches!(body.get("ok"), Some(Json::Bool(false))));
    assert!(matches!(body.get("error"), Some(Json::Str(s)) if s == "not_initialized"));
    assert_eq!(server.state(), ServerState::Uninitialized);
}

#[test]
fn env_override_disables_and_merges_config() {
    let mut cfg = Config::from_default();
    cfg.ruleset.push(("basic".to_string(), RulesetCfg::new()));
    let env = vec![
        ("FORSETI_RULESET_BASIC_ENABLED".to_string(), "off".to_string()),
        ("FORSETI_RULESET_BASIC_CONFIG_JSON".to_string(), "{\"max_line\":100}".to_string()),
    ];
    cfg.merge_env_overrides(&env);
    let basic = &cfg.ruleset[0].1;
    assert!(!basic.enabled);
    assert_eq!(basic.config.len(), 1);
    assert_eq!(basic.config[0].0, "max_line");
    assert!(matches!(basic.config[0].1, TomlValue::Integer(100)));
}

fn handle_for(id: &str) -> EngineHandle<()> {
    EngineHandle {
        info: EngineInfo::from_binary(&format!("/cache/{id}/bin/forseti_engine_{id}")).unwrap(),
        process: (),
        state: HandleState::new(id, 0),
    }
}

#[test]
fn idle_engines_are_reaped() {
    let mut manager: EngineManager<()> = EngineManager::new("/cache".to_string());
    manager.set_timeout(1000);
    manager.insert("a".to_string(), handle_for("a"));
    manager.insert("b".to_string(), handle_for("b"));
    assert_eq!(manager.running_engines().len(), 2);
    assert!(manager.idle_engines(1000).is_empty());
    let idle = manager.idle_engines(1001);
    assert_eq!(idle.len(), 2);
    let reaped = manager.take_engines(&idle);
    assert_eq!(reaped.len(), 2);
    assert!(manager.running_engines().is_empty());
}

#[test]
fn every_request_gets_one_response_with_its_id() {
    let mut server = EngineServer::new(BasicEngine { setting: text("warn") });
    for (typ, id) in [("getDefaultConfig", "x_1"), ("getCapabilities", "x_2"), ("initialize", "x_3"), ("preprocessFiles", "x_4")] {
        let out = server.handle(&request(typ, id, obj(vec![])));
        let responses: Vec<&Envelope> = out.iter().filter(|e| e.kind == Kind::Res).collect();
        assert_eq!(responses.len(), 1);
        assert_eq!(responses[0].typ, typ);
        assert_eq!(responses[0].id.as_deref(), Some(id));
        assert_eq!(out.last().unwrap().kind, Kind::Res);
    }
    let out = server.handle(&request("somethingElse", "x_5", obj(vec![])));
    assert!(out.iter().all(|e| e.kind == Kind::Event));
    let out = server.handle(&request("shutdown", "x_6", obj(vec![])));
    assert_eq!(out.len(), 1);
    assert_eq!(server.state(), ServerState::Shutdown);
    let out = server.handle(&request("getDefaultConfig", "x_7", obj(vec![])));
    assert!(out.is_empty());
}

#[test]
fn capabilities_list_rules_and_switches() {
    let mut server = EngineServer::new(BasicEngine { setting: text("warn") });
    let out = server.handle(&request("getCapabilities", "c_1", obj(vec![])));
    let body = out[0].payload.as_ref().unwrap();
    match body.get("rules") {
        Some(Json::Array(rules)) => {
            assert_eq!(rules.len(), 1);
            assert!(matches!(rules[0].get("id"), Some(Json::Str(s)) if s == "no-trailing-ws"));
        }
        _ => panic!("no rules"),
    }
    match body.get("config_settings") {
        Some(Json::Array(settings)) => {
            assert_eq!(settings.len(), 1);
            assert!(matches!(settings[0].get("type"), Some(Json::Str(s)) if s == "enum"));
        }
        _ => panic!("no settings"),
    }
}

#[test]
fn masked_reports_are_dropped_unmasked_kept() {
    let parser = AnnotationParser::new(vec!["//".to_string()]);
    let content = "// forseti-ignore-next-line\nfoo  \nbar  \n";
    let annotations = parser.parse_annotations(content);
    let options = rule_options_of(&obj(vec![("no-trailing-ws", text("error"))]));
    let rs = Ruleset::new("basic").with_rule(NoTrailingWs);
    let diags = run_ruleset_with_annotations("u", content, &rs, &options, &annotations, Some(&parser));
    assert_eq!(diags.len(), 1);
    assert_eq!(diags[0].range.start.line, 2);
    let unmasked = run_ruleset_with_annotations("u", content, &rs, &options, &annotations, None);
    assert_eq!(unmasked.len(), 2);
}

#[test]
fn malformed_line_gets_a_log_event() {
    let mut server = EngineServer::new(BasicEngine { setting: text("warn") });
    let out = server.handle_line("this is not json");
    assert_eq!(out.len(), 1);
    assert_eq!(out[0].kind, Kind::Event);
    assert_eq!(out[0].typ, "log");
    let out = server.handle_line("{\"v\":1,\"kind\":\"req\",\"type\":\"getDefaultConfig\",\"id\":\"q_1\"}");
    assert_eq!(out.len(), 1);
    assert_eq!(out[0].kind, Kind::Res);
}

#[test]
fn rule_defaults_and_switch_settings() {
    let rs = Ruleset::new("basic").with_rule(NoTrailingWs);
    let defaults = ruleset_default_config(&rs);
    assert_eq!(defaults.len(), 1);
    assert_eq!(defaults[0].0, "no-trailing-ws");
    assert!(matches!(&defaults[0].1, Json::Str(s) if s == "warn"));
    let mut caps = BasicEngine { setting: text("warn") }.get_capabilities();
    add_rule_settings(&mut caps, &rs);
    assert_eq!(caps.rules.len(), 1);
    assert_eq!(caps.rules[0].description, "Disallow trailing whitespace");
    let setting = &caps.config_settings[0];
    assert_eq!(setting.name, "no-trailing-ws");
    assert_eq!(setting.description, "Enable or disable the no-trailing-ws rule");
    assert_eq!(setting.setting_type, ConfigType::Enum);
    assert_eq!(setting.allowed_values.as_ref().unwrap().len(), 3);
}

#[test]
fn analyze_loaded_concatenates_rulesets() {
    let options = rule_options_of(&obj(vec![("no-trailing-ws", text("warn"))]));
    let second = rule_options_of(&obj(vec![("no-trailing-ws", Json::Array(vec![text("error"), obj(vec![])]))]));
    let loaded = vec![
        ("one".to_string(), Loaded { ruleset: Ruleset::new("one").with_rule(NoTrailingWs), config: options }),
        ("two".to_string(), Loaded { ruleset: Ruleset::new("two").with_rule(NoTrailingWs), config: second }),
    ];
    let diags = analyze_loaded(&loaded, "u", "a \n# forseti-ignore-next-line\nb \n", vec!["#".to_string()]);
    assert_eq!(diags.len(), 2);
    assert!(diags.iter().all(|d| d.range.start.line == 0));
    let unmasked = analyze_loaded(&loaded, "u", "a \n# forseti-ignore-next-line\nb \n", Vec::new());
    assert_eq!(unmasked.len(), 4);
}

#[test]
fn context_runs_every_file() {
    let ctx = PreprocessingContext {
        ruleset_id: "basic".to_string(),
        files: vec![
            FileContext { uri: "a".to_string(), content: "x \n".to_string(), language: None, context: Vec::new() },
            FileContext { uri: "b".to_string(), content: "y\nz  \n".to_string(), language: None, context: Vec::new() },
        ],
        global_context: Vec::new(),
    };
    let options = rule_options_of(&obj(vec![("no-trailing-ws", text("warn"))]));
    let rs = Ruleset::new("basic").with_rule(NoTrailingWs);
    let diags = run_ruleset_with_context(&rs, &ctx, &options);
    assert_eq!(diags.len(), 2);
    assert_eq!(diags[1].range.start.line, 1);
    let json = ctx.to_json();
    assert!(matches!(json.get("files"), Some(Json::Array(f)) if f.len() == 2));
}

struct BasicRuleset;

impl RulesetOptions for BasicRuleset {
    type RuleImpl = NoTrailingWs;

    fn get_capabilities(&self) -> RulesetCapabilities {
        BasicEngine { setting: text("warn") }.get_capabilities()
    }

    fn preprocess_files(&self, file_uris: &Vec<String>) -> Result<PreprocessingContext, String> {
        Ok(PreprocessingContext {
            ruleset_id: "basic".to_string(),
            files: file_uris
                .iter()
                .map(|u| FileContext { uri: u.clone(), content: String::new(), language: None, context: Vec::new() })
                .collect(),
            global_context: Vec::new(),
        })
    }

    fn create_ruleset(&self) -> Ruleset<NoTrailingWs> {
        Ruleset::new("basic").with_rule(NoTrailingWs)
    }
}

#[test]
fn ruleset_server_uses_defaults_and_settings() {
    let mut server = RulesetServer::new(BasicRuleset);
    let out = server.handle(&request("initialize", "r_1", obj(vec![])));
    assert_eq!(out.len(), 1);
    assert_eq!(server.state(), ServerState::Initialized);
    let payload = obj(vec![("uri", text("u")), ("content", text("a  \nb\n"))]);
    let out = server.handle(&request("analyzeFile", "r_2", payload));
    assert_eq!(out.len(), 2);
    assert_eq!(diagnostics_of_event(&out[0].to_json()).len(), 1);

    let settings = obj(vec![("no-trailing-ws", text("off"))]);
    server.handle(&request("initialize", "r_3", obj(vec![("rulesetConfig", settings)])));
    let payload = obj(vec![("uri", text("u")), ("content", text("a  \nb\n"))]);
    let out = server.handle(&request("analyzeFile", "r_4", payload));
    assert!(diagnostics_of_event(&out[0].to_json()).is_empty());

    let files = obj(vec![("fileUris", Json::Array(vec![text("x"), Json::Int(3), text("y")]))]);
    let out = server.handle(&request("preprocessFiles", "r_5", files));
    let body = out[0].payload.as_ref().unwrap();
    assert!(matches!(body.get("files"), Some(Json::Array(f)) if f.len() == 2));
}

struct BrokenEngine;

impl EngineOptions for BrokenEngine {
    type RuleImpl = NoTrailingWs;

    fn get_default_config(&self) -> EngineConfig {
        EngineConfig {
            enabled: None,
            rulesets: Some(vec![
                ("basic".to_string(), obj(vec![("no-trailing-ws", text("warn"))])),
                ("missing".to_string(), obj(vec![])),
            ]),
        }
    }

    fn load_ruleset(&self, id: &str) -> Result<Ruleset<NoTrailingWs>, String> {
        BasicEngine { setting: text("warn") }.load_ruleset(id)
    }

    fn get_capabilities(&self) -> RulesetCapabilities {
        BasicEngine { setting: text("warn") }.get_capabilities()
    }

    fn preprocess_files(&self, _file_uris: &Vec<String>) -> Result<PreprocessingContext, String> {
        Err("none".to_string())
    }

    fn list_rulesets(&self) -> Vec<String> {
        vec!["basic".to_string()]
    }
}

#[test]
fn failed_load_answers_error_and_loads_nothing() {
    let mut server = EngineServer::new(BrokenEngine);
    let out = server.handle(&request("initialize", "b_1", obj(vec![])));
    assert_eq!(out.len(), 1);
    let body = out[0].payload.as_ref().unwrap();
    assert!(matches!(body.get("ok"), Some(Json::Bool(false))));
    assert!(matches!(body.get("error"), Some(Json::Str(s)) if s == "unknown ruleset missing"));
    assert_eq!(server.state(), ServerState::Uninitialized);
    let payload = obj(vec![("uri", text("u")), ("content", text("x  \n"))]);
    let out = server.handle(&request("analyzeFile", "b_2", payload));
    assert_eq!(out.len(), 1);
    let user = obj(vec![("engineConfig", obj(vec![("rulesets", obj(vec![("missing", Json::Null)]))]))]);
    let out = server.handle(&request("initialize", "b_3", user));
    assert!(matches!(out[0].payload.as_ref().unwrap().get("ok"), Some(Json::Bool(false))));
}

#[test]
fn shutdown_answers_ok_and_logs_are_warnings() {
    let mut server = EngineServer::new(BasicEngine { setting: text("warn") });
    let out = server.handle(&request("mystery", "m_1", obj(vec![])));
    assert_eq!(out.len(), 1);
    let log = out[0].payload.as_ref().unwrap();
    assert!(matches!(log.get("level"), Some(Json::Str(s)) if s == "warn"));
    let out = server.handle_line("");
    assert!(matches!(out[0].payload.as_ref().unwrap().get("level"), Some(Json::Str(s)) if s == "warn"));
    let out = server.handle(&request("shutdown", "m_2", obj(vec![])));
    assert!(matches!(out[0].payload.as_ref().unwrap().get("ok"), Some(Json::Bool(true))));
}
