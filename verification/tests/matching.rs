use dynamic_domain_set::error::DnsError;
use dynamic_domain_set::fixtures::test_name;
use dynamic_domain_set::matcher::DomainRuleMatcher;
use dynamic_domain_set::name::Name;
use dynamic_domain_set::rules::{canonicalize_rule, canonicalize_rules, DynamicDomainRuleKind};
use dynamic_domain_set::snapshot::build_snapshot;
use dynamic_domain_set::storage::{parse_rule_file, render_rule_file};
use dynamic_domain_set::text::decimal_of;

fn list(rules: &[&str]) -> Vec<String> {
    rules.iter().map(|rule| rule.to_string()).collect()
}

fn matches_name(rules: &[&str], name: &str) -> bool {
    match build_snapshot(&list(rules)) {
        Ok(snapshot) => snapshot.contains_name(&test_name(name)),
        Err(err) => panic!("{}", err.message()),
    }
}

fn canonical(raw: &str, kind: DynamicDomainRuleKind) -> Option<String> {
    canonicalize_rule(raw, kind, "test").ok()
}

#[test]
fn canonical_text_of_each_kind() {
    let domain = DynamicDomainRuleKind::Domain;
    for (raw, text) in [
        ("Example.COM", "domain:example.com"),
        ("full: Example.COM..", "full:example.com"),
        ("\tkeyword:Track\r", "keyword:track"),
        ("regexp: ^A.B$ ", "regexp:^A.B$"),
        ("foo:bar", "domain:foo:bar"),
        ("\u{3000}\u{a0}example.com\u{2003}", "domain:example.com"),
    ] {
        assert_eq!(canonical(raw, domain).expect("rule"), text);
        assert_eq!(
            canonical(text, DynamicDomainRuleKind::Full).expect("rule"),
            text
        );
    }
    assert_eq!(
        canonical("Track", DynamicDomainRuleKind::Keyword).expect("rule"),
        "keyword:track"
    );
    assert_eq!(
        canonical("[A]", DynamicDomainRuleKind::Regexp).expect("rule"),
        "regexp:[A]"
    );
}

#[test]
fn texts_that_are_not_rules() {
    for raw in ["", "  ", ".", "full:", "full:...", "a b", "keyword:a\tb", "regexp:", "regexp:a\nb"] {
        let err = canonicalize_rule(raw, DynamicDomainRuleKind::Domain, "test");
        match err {
            Err(DnsError::Plugin(text)) => {
                assert_eq!(text, format!("test: invalid rule '{raw}'"))
            }
            _ => panic!("not a rule: {raw}"),
        }
    }
    let many = canonicalize_rules(
        list(&["a", "b", "c", "d", "e", "f", "g", "h", "i", "j", "k", "."]),
        DynamicDomainRuleKind::Full,
        "append",
    );
    match many {
        Err(err) => assert_eq!(err.message(), "append[11]: invalid rule '.'"),
        Ok(_) => panic!("not a rule"),
    }
}

#[test]
fn written_rules_are_read_back() {
    let rules = list(&["domain:a.example", "regexp:^x y$", "full:b.example", "keyword:ads"]);
    let text = render_rule_file(&rules);
    assert_eq!(
        text,
        "domain:a.example\nregexp:^x y$\nfull:b.example\nkeyword:ads\n"
    );
    assert_eq!(parse_rule_file(&text, "test").expect("rules"), rules);
    assert_eq!(render_rule_file(&Vec::new()), "");
    assert!(parse_rule_file("", "test").expect("rules").is_empty());
}

#[test]
fn file_lines_may_be_indented_and_unfinished() {
    assert_eq!(
        parse_rule_file("  a.example  \r\n\r\n  # note\nfull:b.example", "test").expect("rules"),
        vec!["domain:a.example", "full:b.example"]
    );
}

#[test]
fn full_rule_matches_one_name() {
    assert!(matches_name(&["full:example.com"], "Example.COM."));
    assert!(!matches_name(&["full:example.com"], "www.example.com"));
    assert!(!matches_name(&["full:example.com"], "com"));
}

#[test]
fn domain_rule_matches_below() {
    assert!(matches_name(&["domain:example.com"], "example.com"));
    assert!(matches_name(&["domain:example.com"], "a.b.example.com."));
    assert!(!matches_name(&["domain:example.com"], "badexample.com"));
    assert!(!matches_name(&["domain:example.com"], "example.com.org"));
    assert!(!matches_name(&["domain:example.com"], "com"));
}

#[test]
fn keyword_rule_matches_anywhere() {
    assert!(matches_name(&["keyword:track"], "a.Tracker.example"));
    assert!(matches_name(&["keyword:track"], "track"));
    assert!(!matches_name(&["keyword:track"], "trac.k"));
}

#[test]
fn regexp_rule_matches_by_expression() {
    let rules = ["regexp:^ads[0-9]+\\.", "regexp:\\.test$"];
    assert!(matches_name(&rules, "ads12.example"));
    assert!(matches_name(&rules, "a.test."));
    assert!(!matches_name(&rules, "ads.example"));
    assert!(!matches_name(&rules, "test"));
}

#[test]
fn rules_of_all_kinds_work_together() {
    let rules = ["full:a.example", "b.example", "keyword:ads", "regexp:^x"];
    for name in ["a.example", "x.b.example", "myads.example", "xyz"] {
        assert!(matches_name(&rules, name));
    }
    assert!(!matches_name(&rules, "c.a.example"));
    assert!(!matches_name(&[], "a.example"));
}

#[test]
fn matching_ignores_order_and_repetition() {
    let a = ["full:a.example", "domain:b.example", "full:a.example"];
    let b = ["domain:b.example", "full:a.example"];
    for name in ["a.example", "x.b.example", "x.a.example"] {
        assert_eq!(matches_name(&a, name), matches_name(&b, name));
    }
}

#[test]
fn snapshot_reports_what_does_not_compile() {
    match build_snapshot(&list(&["full:a.example", " "])) {
        Err(DnsError::Plugin(text)) => {
            assert_eq!(text, "dynamic_domain_set.rules[1]: invalid rule ' '")
        }
        _ => panic!("not a rule"),
    }
    match build_snapshot(&list(&["full:a.example", "regexp:a["])) {
        Err(DnsError::Plugin(text)) => assert!(text.contains("unclosed character class")),
        _ => panic!("not a regular expression"),
    }
}

#[test]
fn matcher_counts_rules_by_kind() {
    let mut matcher = DomainRuleMatcher::new();
    for rule in ["full:a", "full:a", "b", "domain:c", "keyword:d", "regexp:e", "regexp:f"] {
        matcher.add_expression(rule, "test").expect("rule");
    }
    matcher.finalize().expect("finalize");
    assert_eq!(matcher.full_rule_count(), 1);
    assert_eq!(matcher.trie_rule_count(), 2);
    assert_eq!(matcher.keyword_rule_count(), 1);
    assert_eq!(matcher.regexp_rule_count(), 2);
    assert_eq!(
        matcher.add_expression("", "test").expect_err("not a rule"),
        "test: invalid rule ''"
    );
}

#[test]
fn compiled_expressions_are_taken_over() {
    let mut matcher = DomainRuleMatcher::new();
    matcher.add_expression("regexp:^a", "test").expect("rule");
    let failure = regex::Regex::new("(").expect_err("not an expression");
    let text = matcher.finish(Err(failure.clone())).expect_err("failure");
    assert_eq!(text, failure.to_string());
    matcher
        .finish(regex::RegexSet::new(["^a"]))
        .expect("expressions");
    assert!(matcher.is_match_name(&test_name("abc")));
    assert!(!matcher.is_match_name(&test_name("bca")));
}

#[test]
fn names_are_read_in_ascii() {
    assert_eq!(test_name("WWW.Example.COM.").as_str(), "www.example.com");
    assert_eq!(test_name(".").as_str(), "");
    match Name::from_ascii("b\u{fc}cher.example") {
        Err(err) => assert_eq!(err.message(), "name is not ASCII: b\u{fc}cher.example"),
        Ok(_) => panic!("not ASCII"),
    }
}

#[test]
fn numbers_are_written_in_decimal() {
    assert_eq!(decimal_of(0), "0");
    assert_eq!(decimal_of(9), "9");
    assert_eq!(decimal_of(10), "10");
    assert_eq!(decimal_of(usize::MAX), usize::MAX.to_string());
}
