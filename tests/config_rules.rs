use ezproxy::config::{parse_config_line, parse_rules_from, ConfigRule};
use ezproxy::{Builtin, ConfigError, Rule};

fn strings(v: &[&str]) -> Vec<String> {
    v.iter().map(|s| s.to_string()).collect()
}

#[test]
fn new_config_rule() {
    let config_rule = ConfigRule::new("test_kw", "test_uri");
    assert_eq!(config_rule.kw(), "test_kw");
}

#[test]
fn produce_uri_all() {
    let config_rule = ConfigRule::new("test_kw", "http://example.com/{ALL}");
    let cmd = "test_cmd";
    let args = vec!["arg1".to_string(), "arg2".to_string()];
    let result = config_rule.produce_uri(cmd, &args);
    assert!(result.is_ok());
    let uri = result.unwrap();
    assert_eq!(uri.to_string(), "http://example.com/test_cmd%20arg1%20arg2");
}

#[test]
fn produce_uri_args() {
    let config_rule = ConfigRule::new("test_kw", "http://example.com/{ARGS}");
    let cmd = "test_cmd";
    let args = vec!["arg1".to_string(), "arg2".to_string()];
    let result = config_rule.produce_uri(cmd, &args);
    assert!(result.is_ok());
    let uri = result.unwrap();
    assert_eq!(uri.to_string(), "http://example.com/arg1%20arg2");
}

#[test]
fn produce_uri_no_replace() {
    let config_rule = ConfigRule::new("test_kw", "http://example.com/");
    let cmd = "test_cmd";
    let args = vec!["arg1".to_string(), "arg2".to_string()];
    let result = config_rule.produce_uri(cmd, &args);
    assert!(result.is_ok());
    let uri = result.unwrap();
    assert_eq!(uri.to_string(), "http://example.com/");
}

#[test]
fn plain_template_is_returned_unchanged() {
    let table = parse_rules_from("m = https://gmail.com/").unwrap();
    let rule = table.get("m").expect("rule for m");
    let uri = rule.produce_uri("m", &[]).unwrap();
    assert_eq!(uri.as_str(), "https://gmail.com/");
}

#[test]
fn args_placeholder_keeps_rest_of_template() {
    let rule = ConfigRule::new("s", "https://example.com/find?q={ARGS}&lang=en");
    let uri = rule.produce_uri("s", &strings(&["a&b", "c=d"])).unwrap();
    assert_eq!(uri.as_str(), "https://example.com/find?q=a%26b%20c%3Dd&lang=en");
}

#[test]
fn args_placeholder_with_no_args_is_empty() {
    let rule = ConfigRule::new("s", "https://example.com/?q={ARGS}");
    let uri = rule.produce_uri("s", &[]).unwrap();
    assert_eq!(uri.as_str(), "https://example.com/?q=");
}

#[test]
fn all_placeholder_with_no_args_keeps_trailing_space() {
    let rule = ConfigRule::new("s", "https://example.com/?q={ALL}");
    let uri = rule.produce_uri("best", &[]).unwrap();
    assert_eq!(uri.as_str(), "https://example.com/?q=best%20");
}

#[test]
fn all_takes_precedence_over_args() {
    let rule = ConfigRule::new("s", "https://example.com/{ALL}/{ARGS}");
    let uri = rule.produce_uri("c", &strings(&["x"])).unwrap();
    assert_eq!(uri.as_str(), "https://example.com/c%20x/{ARGS}");
}

#[test]
fn every_placeholder_occurrence_is_replaced() {
    let rule = ConfigRule::new("s", "https://example.com/{ARGS}/{ARGS}");
    let uri = rule.produce_uri("s", &strings(&["x", "y"])).unwrap();
    assert_eq!(uri.as_str(), "https://example.com/x%20y/x%20y");
}

#[test]
fn produce_uri_reports_invalid_uri() {
    let rule = ConfigRule::new("bad", "http://exa mple.com/{ARGS}");
    let err = rule.produce_uri("bad", &strings(&["q"])).unwrap_err();
    assert_eq!(err.uri, "http://exa mple.com/q");
    assert!(!err.cause.is_empty());
}

#[test]
fn config_line_is_split_at_first_separator_and_trimmed() {
    let rule = parse_config_line("  k  =  https://example.com/?a = b  ").unwrap();
    assert_eq!(rule.kw(), "k");
    let uri = rule.produce_uri("k", &[]);
    assert_eq!(uri.unwrap_err().uri, "https://example.com/?a = b");
}

#[test]
fn config_line_without_separator_is_refused() {
    assert!(parse_config_line("m=https://gmail.com/").is_none());
    assert!(parse_config_line("m https://gmail.com/").is_none());
    assert!(parse_config_line(" = https://gmail.com/").is_none());
    assert!(parse_config_line("m = ").is_none());
}

#[test]
fn malformed_line_fails_whole_load() {
    let source = "m = https://gmail.com/\nbroken line\nnpm = https://npmjs.com/";
    match parse_rules_from(source) {
        Err(ConfigError::MalformedConfigLine(line)) => assert_eq!(line, "broken line"),
        Ok(_) => panic!("a malformed source loaded"),
    }
}

#[test]
fn first_malformed_line_is_reported() {
    let source = "a=1\nb = https://b.example/\nc:2";
    assert_eq!(
        parse_rules_from(source).unwrap_err(),
        ConfigError::MalformedConfigLine("a=1".to_string())
    );
}

#[test]
fn blank_lines_are_skipped() {
    let source = "\n  \nm = https://gmail.com/\n\t\n";
    let table = parse_rules_from(source).unwrap();
    assert!(table.get("m").is_some());
    assert!(table.default_rule().is_none());
}

#[test]
fn later_duplicate_keyword_wins() {
    let source = "m = https://one.example/\nm = https://two.example/";
    let table = parse_rules_from(source).unwrap();
    let uri = table.get("m").unwrap().produce_uri("m", &[]).unwrap();
    assert_eq!(uri.as_str(), "https://two.example/");
}

#[test]
fn underscore_line_sets_default_rule() {
    let source = "_ = https://www.google.com/search?q={ALL}\nm = https://gmail.com/";
    let table = parse_rules_from(source).unwrap();
    assert!(table.get("_").is_none());
    let d = table.default_rule().expect("default rule");
    match d {
        Rule::Config(c) => assert_eq!(c.kw(), "_"),
        Rule::Builtin(_) => panic!("default should come from the source"),
    }
}

#[test]
fn table_insert_and_get() {
    let mut table = ezproxy::RuleTable::new();
    assert!(table.get("s").is_none());
    table.insert("s", Rule::Builtin(Builtin::Search));
    table.insert("t", Rule::Builtin(Builtin::Mail));
    table.insert("s", Rule::Builtin(Builtin::Calendar));
    let uri = table.get("s").unwrap().produce_uri("s", &[]).unwrap();
    assert_eq!(uri.as_str(), "https://calendar.google.com/");
    assert!(table.get("u").is_none());
}
