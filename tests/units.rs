use forseti_sdk::annotation::{Annotation, AnnotationParser, AnnotationScope};
use forseti_sdk::config::{
    enabled_rulesets, parse_bool, parse_csv_ids, parse_log_level, parse_output_format, parse_u16, upper,
    Config, LinterCfg, LogLevel, OutputFormat, RulesetCfg, SharedConfig,
};
use forseti_sdk::diagnostic::{Diagnostic, Fix, SuggestFix};
use forseti_sdk::engine::{merge_engine_config, options_of_setting, EngineConfig};
use forseti_sdk::json::Json;
use forseti_sdk::linter::{select_engines, EngineHandle, EngineInfo, EngineManager, HandleState};
use forseti_sdk::position::{LineIndex, Position, Range};
use forseti_sdk::protocol::{frame_line, Envelope, Kind, Ndjson};
use forseti_sdk::text::{decimal, lines, trim};
use forseti_sdk::toml_value::{json_to_toml_value, merge_json_object_into_toml_table, TomlValue};

fn obj(members: Vec<(&str, Json)>) -> Json {
    Json::Object(members.into_iter().map(|(k, v)| (k.to_string(), v)).collect())
}

fn text(s: &str) -> Json {
    Json::Str(s.to_string())
}

fn pos(p: Position) -> (u32, u32) {
    (p.line, p.character)
}

#[test]
fn line_index_maps_offsets() {
    let idx = LineIndex::new("ab\ncd\n\nx");
    assert_eq!(pos(idx.to_pos(0)), (0, 0));
    assert_eq!(pos(idx.to_pos(2)), (0, 2));
    assert_eq!(pos(idx.to_pos(3)), (1, 0));
    assert_eq!(pos(idx.to_pos(5)), (1, 2));
    assert_eq!(pos(idx.to_pos(6)), (2, 0));
    assert_eq!(pos(idx.to_pos(7)), (3, 0));
    assert_eq!(pos(idx.to_pos(8)), (3, 1));
}

#[test]
fn line_index_clamps_past_end() {
    let idx = LineIndex::new("ab\ncd");
    assert_eq!(pos(idx.to_pos(100)), (1, 2));
    assert_eq!(pos(idx.to_pos(usize::MAX)), (1, 2));
    assert_eq!(pos(idx.to_pos(1 << 31)), (1, 2));
    let empty = LineIndex::new("");
    assert_eq!(pos(empty.to_pos(0)), (0, 0));
    assert_eq!(pos(empty.to_pos(7)), (0, 0));
}

#[test]
fn line_index_counts_bytes_of_wide_characters() {
    let idx = LineIndex::new("é\nb");
    assert_eq!(pos(idx.to_pos(2)), (0, 2));
    assert_eq!(pos(idx.to_pos(3)), (1, 0));
    let r: Range = idx.to_range(0, 4);
    assert_eq!((pos(r.start), pos(r.end)), ((0, 0), (1, 1)));
}

fn parse(prefixes: &[&str], content: &str) -> Vec<Annotation> {
    AnnotationParser::new(prefixes.iter().map(|p| p.to_string()).collect()).parse_annotations(content)
}

#[test]
fn annotation_forms() {
    let anns = parse(
        &["//", "#"],
        "code\n  // forseti-ignore-file a, b ,,c\n# forseti-ignore\n//forseti-ignore-next-line\n# forseti-ignore x,y\n// other comment\n",
    );
    assert_eq!(anns.len(), 4);
    assert_eq!(anns[0].scope, AnnotationScope::File);
    assert_eq!(anns[0].rule_ids, vec!["a", "b", "c"]);
    assert_eq!(anns[0].line, 1);
    assert_eq!(anns[1].scope, AnnotationScope::NextLine);
    assert!(anns[1].rule_ids.is_empty());
    assert_eq!(anns[1].line, 2);
    assert_eq!(anns[2].scope, AnnotationScope::NextLine);
    assert!(anns[2].rule_ids.is_empty());
    assert_eq!(anns[3].rule_ids, vec!["x", "y"]);
    assert_eq!(anns[3].line, 4);
}

#[test]
fn annotation_needs_a_known_prefix() {
    assert!(parse(&["#"], "// forseti-ignore-file\n").is_empty());
    assert!(parse(&[], "# forseti-ignore-file\n").is_empty());
    assert_eq!(parse(&["/*", "//"], "/* forseti-ignore-file r */").len(), 1);
}

#[test]
fn annotation_parsing_twice_agrees() {
    let content = "// forseti-ignore-next-line a\nx\n# forseti-ignore-file\n";
    let a = parse(&["//", "#"], content);
    let b = parse(&["//", "#"], content);
    assert_eq!(a.len(), b.len());
    for (x, y) in a.iter().zip(b.iter()) {
        assert_eq!((x.scope, &x.rule_ids, x.line), (y.scope, &y.rule_ids, y.line));
    }
}

#[test]
fn should_ignore_rule_scopes() {
    let parser = AnnotationParser::new(vec!["//".to_string()]);
    let anns = parser.parse_annotations("// forseti-ignore-next-line r1\nx\ny\n// forseti-ignore-file r2\n");
    assert!(parser.should_ignore_rule(&anns, "r1", 1));
    assert!(!parser.should_ignore_rule(&anns, "r1", 2));
    assert!(!parser.should_ignore_rule(&anns, "r1", 0));
    assert!(!parser.should_ignore_rule(&anns, "r3", 1));
    assert!(parser.should_ignore_rule(&anns, "r2", 0));
    assert!(parser.should_ignore_rule(&anns, "r2", 99));
    let all = vec![Annotation { scope: AnnotationScope::NextLine, rule_ids: vec![], line: u32::MAX }];
    assert!(!parser.should_ignore_rule(&all, "r", 0));
    assert!(!parser.should_ignore_rule(&all, "r", u32::MAX));
}

#[test]
fn bool_words() {
    for w in ["1", "true", " YES ", "On"] {
        assert_eq!(parse_bool(w), Ok(true));
    }
    for w in ["0", "FALSE", "no", " off"] {
        assert_eq!(parse_bool(w), Ok(false));
    }
    assert_eq!(parse_bool("maybe"), Err(()));
    assert_eq!(parse_bool(""), Err(()));
}

#[test]
fn level_and_format_words() {
    assert_eq!(parse_log_level(" Debug "), Ok(LogLevel::Debug));
    assert_eq!(parse_log_level("WARN"), Ok(LogLevel::Warn));
    assert_eq!(parse_log_level("verbose"), Err(()));
    assert_eq!(parse_output_format("SARIF"), Ok(OutputFormat::Sarif));
    assert_eq!(parse_output_format("ndjson"), Ok(OutputFormat::Ndjson));
    assert_eq!(parse_output_format("xml"), Err(()));
}

#[test]
fn u16_parsing() {
    assert_eq!(parse_u16("8"), Some(8));
    assert_eq!(parse_u16("+65535"), Some(65535));
    assert_eq!(parse_u16("65536"), None);
    assert_eq!(parse_u16("-1"), None);
    assert_eq!(parse_u16(""), None);
    assert_eq!(parse_u16("+"), None);
    assert_eq!(parse_u16(" 4"), None);
    assert_eq!(parse_u16("0004"), Some(4));
    assert_eq!(parse_u16("99999999999"), None);
}

#[test]
fn csv_ids_and_upper() {
    assert_eq!(parse_csv_ids(" a, b ,,c,"), vec!["a", "b", "c"]);
    assert!(parse_csv_ids("").is_empty());
    assert_eq!(upper("my-rules.v2"), "MY_RULES_V2");
    assert_eq!(upper("é"), "_");
}

#[test]
fn linter_env_overrides() {
    let mut cfg = Config::from_default();
    assert_eq!(cfg.linter, LinterCfg::default());
    let env = vec![
        ("FORSETI_LINTER_LOG_LEVEL".to_string(), "trace".to_string()),
        ("FORSETI_LINTER_OUTPUT_FORMAT".to_string(), "bogus".to_string()),
        ("FORSETI_LINTER_PARALLELISM".to_string(), "12".to_string()),
        ("FORSETI_LINTER_FAIL_ON_ERROR".to_string(), "no".to_string()),
        ("FORSETI_RULESET_IDS".to_string(), "x, y".to_string()),
        ("FORSETI_RULESET_X_CONFIG_JSON".to_string(), "not json".to_string()),
        ("FORSETI_RULESET_Y_ENABLED".to_string(), "perhaps".to_string()),
    ];
    cfg.merge_env_overrides(&env);
    assert_eq!(cfg.linter.log_level, LogLevel::Trace);
    assert_eq!(cfg.linter.output_format, OutputFormat::Json);
    assert_eq!(cfg.linter.parallelism, 12);
    assert!(!cfg.linter.fail_on_error);
    assert_eq!(cfg.ruleset.len(), 2);
    assert_eq!(cfg.ruleset[0].0, "x");
    assert!(cfg.ruleset[0].1.enabled);
    assert!(cfg.ruleset[0].1.config.is_empty());
    assert!(cfg.ruleset[1].1.enabled);
    let shared = SharedConfig(std::sync::Arc::new(cfg));
    assert_eq!(enabled_rulesets(&shared), vec!["x", "y"]);
}

#[test]
fn json_to_toml_conversions() {
    assert!(matches!(json_to_toml_value(&Json::Null), Some(TomlValue::Str(s)) if s.is_empty()));
    assert!(matches!(json_to_toml_value(&Json::Int(-3)), Some(TomlValue::Integer(-3))));
    assert!(matches!(json_to_toml_value(&Json::Num("1.5".to_string())), Some(TomlValue::Float(s)) if s == "1.5"));
    let nested = Json::Array(vec![Json::Bool(true), obj(vec![("k", text("v"))])]);
    match json_to_toml_value(&nested) {
        Some(TomlValue::Array(items)) => {
            assert!(matches!(items[0], TomlValue::Boolean(true)));
            assert!(matches!(&items[1], TomlValue::Table(t) if t.len() == 1 && t[0].0 == "k"));
        }
        _ => panic!("not an array"),
    }
}

#[test]
fn json_merge_overwrites_keys() {
    let mut tbl = vec![("a".to_string(), TomlValue::Integer(1)), ("b".to_string(), TomlValue::Integer(2))];
    let obj = vec![("b".to_string(), text("x")), ("c".to_string(), Json::Null)];
    merge_json_object_into_toml_table(&obj, &mut tbl);
    assert_eq!(tbl.len(), 3);
    assert!(matches!(&tbl[1].1, TomlValue::Str(s) if s == "x"));
    assert_eq!(tbl[2].0, "c");
}

#[test]
fn engine_config_merge() {
    let defaults = EngineConfig {
        enabled: None,
        rulesets: Some(vec![("a".to_string(), text("da")), ("b".to_string(), text("db"))]),
    };
    let merged = merge_engine_config(&defaults, &EngineConfig::empty());
    assert_eq!(merged.enabled, Some(true));
    assert_eq!(merged.rulesets.as_ref().unwrap().len(), 2);
    let user = EngineConfig { enabled: Some(false), rulesets: Some(vec![("b".to_string(), text("ub"))]) };
    let merged = merge_engine_config(&defaults, &user);
    assert_eq!(merged.enabled, Some(false));
    let rs = merged.rulesets.unwrap();
    assert_eq!(rs.len(), 2);
    assert!(matches!(&rs[1].1, Json::Str(s) if s == "ub"));
    let off = EngineConfig { enabled: Some(false), rulesets: None };
    assert_eq!(merge_engine_config(&off, &EngineConfig::empty()).enabled, Some(false));
}

#[test]
fn rule_setting_tri_form() {
    assert!(options_of_setting(&text("off")).is_none());
    assert!(matches!(options_of_setting(&text("error")), Some(Json::Object(m)) if m.is_empty()));
    assert!(options_of_setting(&Json::Array(vec![text("off"), obj(vec![("x", Json::Int(1))])])).is_none());
    assert!(matches!(
        options_of_setting(&Json::Array(vec![text("warn"), obj(vec![("x", Json::Int(1))])])),
        Some(Json::Object(m)) if m.len() == 1
    ));
    assert!(matches!(options_of_setting(&Json::Array(vec![text("warn")])), Some(Json::Object(m)) if m.is_empty()));
    assert!(matches!(options_of_setting(&obj(vec![("y", Json::Bool(true))])), Some(Json::Object(m)) if m.len() == 1));
    assert!(options_of_setting(&Json::Int(3)).is_none());
}

#[test]
fn envelope_round_trip() {
    let e = Envelope::req("analyzeFile", "e_7", obj(vec![("uri", text("u"))]));
    let back = Envelope::from_json(&e.to_json()).unwrap();
    assert_eq!(back.v, 1);
    assert_eq!(back.kind, Kind::Req);
    assert_eq!(back.typ, "analyzeFile");
    assert_eq!(back.id.as_deref(), Some("e_7"));
    assert!(matches!(back.payload.as_ref().unwrap().get("uri"), Some(Json::Str(s)) if s == "u"));
    let ev = Envelope::event("log", text("m"));
    let back = Envelope::from_json(&ev.to_json()).unwrap();
    assert_eq!(back.kind, Kind::Event);
    assert!(back.id.is_none());
    assert!(Envelope::from_json(&obj(vec![("v", Json::Int(1)), ("kind", text("bad")), ("type", text("t"))])).is_none());
    assert!(Envelope::from_json(&obj(vec![("v", Json::Int(300)), ("kind", text("req")), ("type", text("t"))])).is_none());
}

#[test]
fn diagnostic_round_trip() {
    let range = Range { start: Position { line: 1, character: 2 }, end: Position { line: 3, character: 4 } };
    let d = Diagnostic {
        rule_id: "r".to_string(),
        message: "m".to_string(),
        severity: "error".to_string(),
        range,
        code: Some("C1".to_string()),
        suggest: Some(vec![SuggestFix { title: "t".to_string(), fix: Some(Fix { range, text: "x".to_string() }) }]),
        docs_url: None,
    };
    let j = d.to_json();
    assert!(j.get("docs_url").is_none());
    let back = Diagnostic::from_json(&j).unwrap();
    assert_eq!(back.rule_id, "r");
    assert_eq!(back.code.as_deref(), Some("C1"));
    assert_eq!(back.range.end.character, 4);
    assert_eq!(back.suggest.unwrap()[0].fix.as_ref().unwrap().text, "x");
    assert!(Diagnostic::from_json(&obj(vec![("rule_id", text("r"))])).is_none());
}

#[test]
fn engine_ids_from_binaries() {
    let info = EngineInfo::from_binary("/c/x/bin/forseti_engine_rust.exe").unwrap();
    assert_eq!(info.id, "rust");
    assert_eq!(info.binary_path, "/c/x/bin/forseti_engine_rust.exe");
    assert_eq!(info.supported_file_patterns, vec!["*"]);
    assert_eq!(EngineInfo::from_binary("/c/other").unwrap().id, "other");
    assert!(EngineInfo::from_binary("/").is_err());
    let files = vec![
        ("forseti_engine_a".to_string(), "/c/a/bin/forseti_engine_a".to_string()),
        ("readme".to_string(), "/c/a/bin/readme".to_string()),
    ];
    let found = select_engines(&files);
    assert_eq!(found.len(), 1);
    assert_eq!(found[0].id, "a");
}

#[test]
fn request_ids_count_up() {
    let mut h = HandleState::new("eng", 0);
    assert_eq!(h.next_request_id(), "eng_1");
    assert_eq!(h.next_request_id(), "eng_2");
    let init = h.initialize_request(None);
    assert_eq!(init.id.as_deref(), Some("eng_3"));
    assert!(h.analyze_request("u", "c").is_err());
    let reply = Envelope::res("initialize", "eng_3", obj(vec![("ok", Json::Bool(true))])).to_json();
    assert!(h.initialize_response(&reply).is_ok());
    assert!(h.initialized());
    let req = h.analyze_request("u", "c").unwrap();
    assert_eq!(req.id.as_deref(), Some("eng_4"));
    assert!(h.shutdown_request().is_some());
    assert!(!h.initialized());
    assert!(h.shutdown_request().is_none());
}

#[test]
fn rejected_initialize_keeps_handle_uninitialized() {
    let mut h = HandleState::new("eng", 0);
    let reply = Envelope::res("initialize", "eng_1", obj(vec![("ok", Json::Bool(false))])).to_json();
    assert!(h.initialize_response(&reply).is_err());
    assert!(!h.initialized());
}

#[test]
fn idle_is_strictly_longer_than_timeout() {
    let mut h = HandleState::new("e", 100);
    assert!(!h.is_idle(150, 50));
    assert!(h.is_idle(151, 50));
    assert!(!h.is_idle(10, 0));
    h.touch(200);
    assert!(!h.is_idle(151, 0));
}

#[test]
fn decimal_text() {
    assert_eq!(decimal(0), "0");
    assert_eq!(decimal(907), "907");
    assert_eq!(decimal(u64::MAX), "18446744073709551615");
}

#[test]
fn ndjson_frames_lines() {
    let mut nd = Ndjson::new(Vec::<u8>::new());
    nd.get_mut().extend_from_slice(b"x");
    assert_eq!(frame_line("{}"), "{}\n");
    assert_eq!(nd.get_mut().len(), 1);
}

#[test]
fn default_ruleset_section() {
    let r = RulesetCfg::new();
    assert!(r.enabled);
    assert!(r.config.is_empty() && r.git.is_none() && r.path.is_none());
}

#[test]
fn later_prefix_qualifies_when_earlier_does_not() {
    let anns = parse(&["/", "//"], "// forseti-ignore-file r\n/ forseti-ignore-next-line\n");
    assert_eq!(anns.len(), 2);
    assert_eq!(anns[0].scope, AnnotationScope::File);
    assert_eq!(anns[0].rule_ids, vec!["r"]);
    assert_eq!(anns[1].scope, AnnotationScope::NextLine);
}

#[test]
fn lines_and_trim() {
    assert_eq!(lines("a\r\nb\r"), vec!["a", "b\r"]);
    assert_eq!(lines("a\n\nb\n"), vec!["a", "", "b"]);
    assert!(lines("").is_empty());
    assert_eq!(lines("\n"), vec![""]);
    assert_eq!(trim("\u{3000}\t x y \u{85}\n"), "x y");
    assert_eq!(trim("   "), "");
}

#[test]
fn request_payloads() {
    let mut h = HandleState::new("eng", 0);
    let init = h.initialize_request(None);
    let p = init.payload.as_ref().unwrap();
    assert!(matches!(p.get("engineId"), Some(Json::Str(s)) if s == "eng"));
    assert!(matches!(p.get("workspaceRoot"), Some(Json::Str(s)) if s == "."));
    assert!(matches!(p.get("engineConfig").and_then(|c| c.get("enabled")), Some(Json::Null)));
    let reply = Envelope::res("initialize", "eng_1", obj(vec![("ok", Json::Bool(true))])).to_json();
    h.initialize_response(&reply).unwrap();
    let req = h.analyze_request("file:///x", "body").unwrap();
    let p = req.payload.as_ref().unwrap();
    assert!(matches!(p.get("uri"), Some(Json::Str(s)) if s == "file:///x"));
    assert!(matches!(p.get("content"), Some(Json::Str(s)) if s == "body"));
    let stop = h.shutdown_request().unwrap();
    assert_eq!(stop.id.as_deref(), Some("eng_3"));
}

#[test]
fn taking_engines_keeps_the_others() {
    let mut m: EngineManager<()> = EngineManager::new("/c".to_string());
    for id in ["a", "b", "c"] {
        let info = EngineInfo::from_binary(&format!("/c/{id}/bin/forseti_engine_{id}")).unwrap();
        m.insert(id.to_string(), EngineHandle { info, process: (), state: HandleState::new(id, 0) });
    }
    m.insert("a".to_string(), EngineHandle {
        info: EngineInfo::from_binary("/c/a/bin/forseti_engine_a").unwrap(),
        process: (),
        state: HandleState::new("a", 0),
    });
    assert_eq!(m.running_engines(), vec!["a", "b", "c"]);
    let taken = m.take_engines(&vec!["b".to_string(), "z".to_string()]);
    assert_eq!(taken.len(), 1);
    assert_eq!(taken[0].info.id, "b");
    assert_eq!(m.running_engines(), vec!["a", "c"]);
    assert!(m.remove("b").is_none());
    assert!(m.remove("a").is_some());
    assert_eq!(m.running_engines(), vec!["c"]);
}
