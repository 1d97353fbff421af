use ezproxy::{Builtin, ParseError, RedirectError, Redirector, RequestUri, Rule, RuleTable};

const CONFIG: &str = "
m = https://gmail.com/
npm = https://npmjs.com/search?q={ARGS}
_ = https://www.google.com/search?q={ALL}
  ";

fn location(r: &Redirector, query: &str) -> String {
    r.evaluate(&RequestUri::new(Some(query))).unwrap().to_string()
}

#[test]
fn test_ezproxy() {
    let redirector = Redirector::with_config(CONFIG).unwrap();
    assert_eq!(location(&redirector, "q=m"), "https://gmail.com/");
    assert_eq!(
        location(&redirector, "q=npm%20file%20finder"),
        "https://npmjs.com/search?q=file%20finder"
    );
    assert_eq!(
        location(&redirector, "q=best%20restaurants%20nyc"),
        "https://www.google.com/search?q=best%20restaurants%20nyc"
    );
}

#[test]
fn end_to_end_with_plus_and_raw_spaces() {
    let redirector = Redirector::with_config(CONFIG).unwrap();
    assert_eq!(
        location(&redirector, "q=npm file finder"),
        "https://npmjs.com/search?q=file%20finder"
    );
    assert_eq!(
        location(&redirector, "q=best+restaurants+nyc"),
        "https://www.google.com/search?q=best%20restaurants%20nyc"
    );
}

#[test]
fn unmatched_keyword_goes_to_default_with_name_prepended() {
    let mut table = RuleTable::new();
    table.set_default(Rule::Builtin(Builtin::Search));
    let redirector = Redirector::with_rules(table);
    let via_redirect = location(&redirector, "q=npm2+foo");
    let direct = Rule::Builtin(Builtin::Search)
        .produce_uri("anything", &["npm2".to_string(), "foo".to_string()])
        .unwrap()
        .to_string();
    assert_eq!(via_redirect, direct);
    assert_eq!(via_redirect, "https://www.google.com/search?q=npm2%20foo");
}

#[test]
fn args_template_as_default_gets_whole_phrase() {
    let redirector = Redirector::with_config("_ = https://duckduckgo.com/?q={ARGS}").unwrap();
    assert_eq!(
        location(&redirector, "q=restaurants+nyc"),
        "https://duckduckgo.com/?q=restaurants%20nyc"
    );
}

#[test]
fn no_default_means_no_rule_for_command() {
    let redirector = Redirector::with_config("m = https://gmail.com/").unwrap();
    let err = redirector.evaluate(&RequestUri::new(Some("q=zz+top"))).unwrap_err();
    assert_eq!(err, RedirectError::NoRuleForCommand("zz".to_string()));
}

#[test]
fn parse_errors_are_bad_requests() {
    let redirector = Redirector::with_config(CONFIG).unwrap();
    let err = redirector.evaluate(&RequestUri::new(Some("x=1"))).unwrap_err();
    assert_eq!(err, RedirectError::BadRequest(ParseError::MissingQueryParam));
    let err = redirector.evaluate(&RequestUri::new(None)).unwrap_err();
    assert_eq!(err, RedirectError::BadRequest(ParseError::MissingQueryParam));
}

#[test]
fn invalid_uri_is_a_rule_failure() {
    let redirector = Redirector::with_config("bad = http://exa mple.com/{ARGS}").unwrap();
    match redirector.evaluate(&RequestUri::new(Some("q=bad+x"))) {
        Err(RedirectError::RuleFailure(e)) => assert_eq!(e.uri, "http://exa mple.com/x"),
        other => panic!("unexpected {:?}", other),
    }
}

#[test]
fn malformed_config_refuses_redirector() {
    assert!(Redirector::with_config("m = https://gmail.com/\noops").is_err());
}

#[test]
fn builtin_targets() {
    let args = vec!["file".to_string(), "finder".to_string()];
    let produce = |b: Builtin, a: &[String]| Rule::Builtin(b).produce_uri("k", a).unwrap().to_string();
    assert_eq!(produce(Builtin::Search, &args), "https://www.google.com/search?q=file%20finder");
    assert_eq!(produce(Builtin::Mail, &args), "https://mail.google.com/");
    assert_eq!(produce(Builtin::Calendar, &args), "https://calendar.google.com/");
    assert_eq!(produce(Builtin::Packages, &[]), "https://www.npmjs.com/");
    assert_eq!(produce(Builtin::Packages, &args), "https://www.npmjs.com/search?q=file%20finder");
    assert_eq!(produce(Builtin::Videos, &[]), "https://www.youtube.com/");
    assert_eq!(
        produce(Builtin::Videos, &args),
        "https://www.youtube.com/results?search_query=file%20finder"
    );
}

#[test]
fn builtin_default_ignores_name_for_static_targets() {
    let mut table = RuleTable::new();
    table.set_default(Rule::Builtin(Builtin::Mail));
    let redirector = Redirector::with_rules(table);
    assert_eq!(location(&redirector, "q=inbox+today"), "https://mail.google.com/");
}
