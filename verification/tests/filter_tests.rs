//! The unit tests of the filter, run against the public API.

use agent_output_filter::{FilterRule, OutputFilter};

#[test]
fn trim_whitespace() {
    let mut f = OutputFilter::new();
    f.add_rule(FilterRule::TrimWhitespace);
    assert_eq!(f.apply("  hello  "), "hello");
}

#[test]
fn collapse_whitespace() {
    let mut f = OutputFilter::new();
    f.add_rule(FilterRule::CollapseWhitespace);
    assert_eq!(f.apply("  hello \t\n  world  "), "hello world");
}

#[test]
fn collapse_whitespace_empty() {
    let mut f = OutputFilter::new();
    f.add_rule(FilterRule::CollapseWhitespace);
    assert_eq!(f.apply("   \n\t  "), "");
}

#[test]
fn remove_pattern() {
    let mut f = OutputFilter::new();
    f.add_rule(FilterRule::RemovePattern(r"\d+".to_string()));
    assert_eq!(f.apply("abc123def"), "abcdef");
}

#[test]
fn replace_pattern() {
    let mut f = OutputFilter::new();
    f.add_rule(FilterRule::ReplacePattern {
        pattern: r"foo".to_string(),
        replacement: "bar".to_string(),
    });
    assert_eq!(f.apply("foo baz foo"), "bar baz bar");
}

#[test]
fn replace_pattern_with_capture_group() {
    let mut f = OutputFilter::new();
    f.add_rule(FilterRule::ReplacePattern {
        pattern: r"(\w+)@(\w+)".to_string(),
        replacement: "$1 at $2".to_string(),
    });
    assert_eq!(f.apply("user@host"), "user at host");
}

#[test]
fn truncate_chars() {
    let mut f = OutputFilter::new();
    f.add_rule(FilterRule::TruncateChars(5));
    assert_eq!(f.apply("hello world"), "hello");
}

#[test]
fn truncate_words() {
    let mut f = OutputFilter::new();
    f.add_rule(FilterRule::TruncateWords(2));
    assert_eq!(f.apply("one two three four"), "one two");
}

#[test]
fn lowercase() {
    let mut f = OutputFilter::new();
    f.add_rule(FilterRule::Lowercase);
    assert_eq!(f.apply("HELLO"), "hello");
}

#[test]
fn uppercase() {
    let mut f = OutputFilter::new();
    f.add_rule(FilterRule::Uppercase);
    assert_eq!(f.apply("hello"), "HELLO");
}

#[test]
fn remove_matching_lines() {
    let mut f = OutputFilter::new();
    f.add_rule(FilterRule::RemoveMatchingLines(r"^#".to_string()));
    let input = "# comment\nhello\n# another";
    assert_eq!(f.apply(input), "hello");
}

#[test]
fn prefix_and_suffix() {
    let mut f = OutputFilter::new();
    f.add_rule(FilterRule::Prefix("<<".to_string()));
    f.add_rule(FilterRule::Suffix(">>".to_string()));
    assert_eq!(f.apply("hello"), "<<hello>>");
}

#[test]
fn rules_applied_in_order() {
    let mut f = OutputFilter::new();
    f.add_rule(FilterRule::TrimWhitespace);
    f.add_rule(FilterRule::Uppercase);
    assert_eq!(f.apply("  hello  "), "HELLO");
}

#[test]
fn no_rules_passthrough() {
    let f = OutputFilter::new();
    assert_eq!(f.apply("unchanged"), "unchanged");
}

#[test]
fn rule_count() {
    let mut f = OutputFilter::new();
    f.add_rule(FilterRule::Lowercase);
    f.add_rule(FilterRule::TrimWhitespace);
    assert_eq!(f.rule_count(), 2);
}

#[test]
fn truncate_words_fewer_than_n() {
    let mut f = OutputFilter::new();
    f.add_rule(FilterRule::TruncateWords(10));
    assert_eq!(f.apply("one two"), "one two");
}

#[test]
fn unicode_truncate_chars() {
    let mut f = OutputFilter::new();
    f.add_rule(FilterRule::TruncateChars(3));
    let r = f.apply("日本語テスト");
    assert_eq!(r.chars().count(), 3);
}

#[test]
fn add_rule_is_chainable() {
    let mut f = OutputFilter::new();
    f.add_rule(FilterRule::TrimWhitespace)
        .add_rule(FilterRule::CollapseWhitespace)
        .add_rule(FilterRule::Uppercase);
    assert_eq!(f.rule_count(), 3);
    assert_eq!(f.apply("  hello   world  "), "HELLO WORLD");
}

#[test]
fn with_rules_constructor() {
    let f =
        OutputFilter::with_rules(vec![FilterRule::Uppercase, FilterRule::Suffix("!".into())]);
    assert_eq!(f.rule_count(), 2);
    assert_eq!(f.apply("hi"), "HI!");
}

#[test]
fn from_vec_and_iter() {
    let f = OutputFilter::from(vec![FilterRule::Uppercase]);
    assert_eq!(f.apply("a"), "A");

    let f2: OutputFilter = [FilterRule::Lowercase].into_iter().collect();
    assert_eq!(f2.apply("A"), "a");
}

#[test]
fn extend_adds_rules() {
    let mut f = OutputFilter::new();
    f.extend(vec![FilterRule::Lowercase, FilterRule::TrimWhitespace]);
    assert_eq!(f.rule_count(), 2);
}

#[test]
fn is_empty_and_clear() {
    let mut f = OutputFilter::new();
    assert!(f.is_empty());
    f.add_rule(FilterRule::Lowercase);
    assert!(!f.is_empty());
    f.clear();
    assert!(f.is_empty());
    assert_eq!(f.apply("Unchanged"), "Unchanged");
}

#[test]
fn rules_accessor() {
    let f = OutputFilter::with_rules(vec![FilterRule::Lowercase]);
    assert_eq!(f.rules(), &[FilterRule::Lowercase]);
}

#[test]
fn invalid_pattern_passes_through_with_apply() {
    let mut f = OutputFilter::new();
    f.add_rule(FilterRule::RemovePattern("(".to_string()));
    // apply() silently leaves text unchanged for an uncompilable pattern.
    assert_eq!(f.apply("(keep me)"), "(keep me)");
}

#[test]
fn validate_detects_invalid_pattern() {
    let mut f = OutputFilter::new();
    f.add_rule(FilterRule::TrimWhitespace);
    f.add_rule(FilterRule::RemovePattern("(".to_string()));
    let err = f.validate().expect_err("expected invalid pattern error");
    assert_eq!(err.index, 1);
    assert_eq!(err.pattern, "(");
    assert!(!err.message.is_empty());
}

#[test]
fn validate_accepts_valid_rules() {
    let mut f = OutputFilter::new();
    f.add_rule(FilterRule::RemovePattern(r"\d+".to_string()));
    f.add_rule(FilterRule::ReplacePattern {
        pattern: r"a".to_string(),
        replacement: "b".to_string(),
    });
    f.add_rule(FilterRule::RemoveMatchingLines(r"^#".to_string()));
    assert!(f.validate().is_ok());
}

#[test]
fn try_apply_ok_and_err() {
    let mut f = OutputFilter::new();
    f.add_rule(FilterRule::Uppercase);
    assert_eq!(f.try_apply("hi").unwrap(), "HI");

    let mut bad = OutputFilter::new();
    bad.add_rule(FilterRule::ReplacePattern {
        pattern: "[".to_string(),
        replacement: "x".to_string(),
    });
    assert!(bad.try_apply("anything").is_err());
}

#[test]
fn invalid_rule_error_display_mentions_index() {
    let mut f = OutputFilter::new();
    f.add_rule(FilterRule::RemoveMatchingLines("[".to_string()));
    let err = f.validate().unwrap_err();
    let msg = err.to_string();
    assert!(msg.contains("rule 0"));
    assert!(msg.contains('['));
}
