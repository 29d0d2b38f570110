//! Concrete checks of the contracts and laws stated in the library.

use agent_output_filter::{FilterRule, InvalidRuleError, OutputFilter};

fn single(rule: FilterRule) -> OutputFilter {
    OutputFilter::with_rules(vec![rule])
}

#[test]
fn rules_compose_in_order() {
    let first = vec![FilterRule::TrimWhitespace, FilterRule::Prefix("[".to_string())];
    let second = vec![FilterRule::Uppercase, FilterRule::Suffix("]".to_string())];
    let mut all = first.clone();
    all.extend(second.clone());
    let text = "  ab c ";
    let step = OutputFilter::with_rules(first).apply(text);
    let composed = OutputFilter::with_rules(second).apply(&step);
    assert_eq!(OutputFilter::with_rules(all).apply(text), composed);
    assert_eq!(composed, "[AB C]");
}

#[test]
fn added_rule_applies_last() {
    let mut f = OutputFilter::new();
    f.add_rule(FilterRule::Suffix("!".to_string()));
    let before = f.apply("x");
    f.add_rule(FilterRule::TruncateChars(1));
    assert_eq!(f.apply("x"), single(FilterRule::TruncateChars(1)).apply(&before));
    assert_eq!(f.apply("x"), "x");
}

#[test]
fn every_invalid_regex_rule_passes_through() {
    let text = "a(b)[c]\n(d)";
    for rule in [
        FilterRule::RemovePattern("(".to_string()),
        FilterRule::ReplacePattern { pattern: "[".to_string(), replacement: "x".to_string() },
        FilterRule::RemoveMatchingLines("a{2,1}".to_string()),
    ] {
        assert_eq!(single(rule).apply(text), text);
    }
}

#[test]
fn rules_without_pattern_always_validate() {
    let f = OutputFilter::with_rules(vec![
        FilterRule::TrimWhitespace,
        FilterRule::CollapseWhitespace,
        FilterRule::TruncateChars(0),
        FilterRule::TruncateWords(0),
        FilterRule::Lowercase,
        FilterRule::Uppercase,
        FilterRule::Prefix("(".to_string()),
        FilterRule::Suffix("[".to_string()),
    ]);
    assert!(f.validate().is_ok());
    assert!(f.try_apply("x").is_ok());
}

#[test]
fn trim_uses_unicode_whitespace_and_is_idempotent() {
    let f = single(FilterRule::TrimWhitespace);
    let once = f.apply("\u{3000}\u{a0} x  y \u{2003}\u{85}");
    assert_eq!(once, "x  y");
    assert_eq!(f.apply(&once), once);
    assert_eq!(f.apply(" \t\n"), "");
    assert_eq!(f.apply(""), "");
}

#[test]
fn collapse_is_idempotent_and_single_spaced() {
    let f = single(FilterRule::CollapseWhitespace);
    let once = f.apply("\u{a0}a\u{2028}\u{2029}b \t c\r\n");
    assert_eq!(once, "a b c");
    assert_eq!(f.apply(&once), once);
    assert_eq!(f.apply(""), "");
}

#[test]
fn truncate_words_edges() {
    assert_eq!(single(FilterRule::TruncateWords(0)).apply("a b c"), "");
    assert_eq!(single(FilterRule::TruncateWords(2)).apply("  a\tb\n c "), "a b");
    assert_eq!(single(FilterRule::TruncateWords(3)).apply("  a\tb\n c "), "a b c");
    assert_eq!(single(FilterRule::TruncateWords(usize::MAX)).apply("x  y"), "x y");
}

#[test]
fn truncate_chars_edges() {
    assert_eq!(single(FilterRule::TruncateChars(0)).apply("abc"), "");
    assert_eq!(single(FilterRule::TruncateChars(3)).apply("abc"), "abc");
    assert_eq!(single(FilterRule::TruncateChars(9)).apply("abc"), "abc");
    assert_eq!(single(FilterRule::TruncateChars(2)).apply("日本語"), "日本");
}

#[test]
fn lines_split_on_lf_and_crlf() {
    let keep_all = single(FilterRule::RemoveMatchingLines("^zzz$".to_string()));
    assert_eq!(keep_all.apply("a\r\nb\n"), "a\nb");
    assert_eq!(keep_all.apply("a\n\nb"), "a\n\nb");
    assert_eq!(keep_all.apply("x\nkeep\r"), "x\nkeep\r");
    assert_eq!(keep_all.apply(""), "");
    assert_eq!(keep_all.apply("\n"), "");
    let drop_hash = single(FilterRule::RemoveMatchingLines("^#".to_string()));
    assert_eq!(drop_hash.apply("#a\r\nb\r\n# c"), "b");
    assert_eq!(drop_hash.apply("# only"), "");
}

#[test]
fn regex_rules_change_matching_text() {
    assert_eq!(single(FilterRule::RemovePattern("a".to_string())).apply("banana"), "bnn");
    let r = single(FilterRule::ReplacePattern {
        pattern: "(?P<w>[a-z]+)-(\\d)".to_string(),
        replacement: "${w}#$2".to_string(),
    });
    assert_eq!(r.apply("ab-1 cd-2"), "ab#1 cd#2");
}

#[test]
fn case_conversion_is_unicode_aware() {
    assert_eq!(single(FilterRule::Lowercase).apply("ÀB Σ"), "àb σ");
    assert_eq!(single(FilterRule::Uppercase).apply("straße"), "STRASSE");
}

#[test]
fn validate_reports_the_first_invalid_rule() {
    let f = OutputFilter::with_rules(vec![
        FilterRule::Lowercase,
        FilterRule::RemovePattern("ok".to_string()),
        FilterRule::RemoveMatchingLines("(".to_string()),
        FilterRule::RemovePattern("[".to_string()),
    ]);
    let err: InvalidRuleError = f.validate().unwrap_err();
    assert_eq!(err.index, 2);
    assert_eq!(err.pattern, "(");
    assert!(!err.message.is_empty());
    let e2 = f.try_apply("x").unwrap_err();
    assert_eq!(e2.index, 2);
    assert_eq!(e2.pattern, err.pattern);
    assert_eq!(e2.message, err.message);
    assert!(err.message.starts_with("regex parse error:"));
}

#[test]
fn error_description_is_exact() {
    let mut rules = vec![FilterRule::Uppercase; 12];
    rules.push(FilterRule::RemovePattern("a\"(".to_string()));
    let err = OutputFilter::with_rules(rules).validate().unwrap_err();
    let text = err.to_string();
    let expected_start = "rule 12 has an invalid regex pattern \"a\\\"(\": ";
    assert!(text.starts_with(expected_start), "{}", text);
    assert_eq!(&text[expected_start.len()..], err.message);
}

#[test]
fn default_from_extend_and_clear() {
    let mut f = OutputFilter::default();
    assert!(f.is_empty());
    f.extend(vec![FilterRule::Prefix("a".to_string()), FilterRule::Prefix("b".to_string())]);
    assert_eq!(f.rule_count(), 2);
    assert_eq!(f.apply("c"), "bac");
    let g = OutputFilter::from(f.rules().to_vec());
    assert_eq!(g.rules(), f.rules());
    f.clear();
    assert_eq!(f.rule_count(), 0);
    assert_eq!(f.apply("c"), "c");
}

#[test]
fn kept_lines_do_not_match() {
    let f = single(FilterRule::RemoveMatchingLines("secret".to_string()));
    let out = f.apply("a secret\nplain\r\nsecret too\nlast");
    assert_eq!(out, "plain\nlast");
    for line in out.lines() {
        assert!(!line.contains("secret"));
    }
}

#[test]
fn extend_trait_accepts_any_iterator() {
    let mut f = OutputFilter::new();
    Extend::extend(&mut f, [FilterRule::Suffix("1".to_string())].into_iter());
    Extend::extend(&mut f, std::iter::once(FilterRule::Suffix("2".to_string())));
    assert_eq!(f.apply("x"), "x12");
}
