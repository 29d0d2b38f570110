//! The rules of a filter and what each one does to a text.

use vstd::prelude::*;

use crate::pattern::{
    compile, is_match, pattern_compiles, regex_is_match, regex_replace_all, replace_all,
    CompiledPattern,
};
use crate::text::{
    chars_of, concat_text, join, join_words, lemma_words_len, lines, lines_scan, lowercase,
    lowercase_text, push_char, string_of_prefix, strip_cr, take_at_most, take_chars, trim,
    trim_text, uppercase, uppercase_text, with_pending, words,
};

verus! {

/// A rule for transforming or filtering output text.
#[derive(Debug, Clone, PartialEq, Eq)]
pub enum FilterRule {
    /// Remove leading/trailing whitespace.
    TrimWhitespace,
    /// Collapse every run of whitespace down to a single space; leading and trailing
    /// whitespace is removed too.
    CollapseWhitespace,
    /// Replace every match of a regex pattern with the empty string.
    /// A pattern that does not compile leaves the text unchanged.
    RemovePattern(String),
    /// Replace every match of a regex pattern with a replacement string, which may refer
    /// to capture groups (`$1`, `$name`). A pattern that does not compile leaves the text
    /// unchanged.
    ReplacePattern {
        /// The regular expression to match.
        pattern: String,
        /// The replacement string (supports `$N` capture references).
        replacement: String,
    },
    /// Keep at most `n` characters (Unicode scalar values).
    TruncateChars(usize),
    /// Keep at most `n` whitespace-separated words, joined by single spaces.
    TruncateWords(usize),
    /// Convert to lowercase.
    Lowercase,
    /// Convert to uppercase.
    Uppercase,
    /// Remove every line that matches the given regex pattern.
    /// A pattern that does not compile leaves the text unchanged.
    RemoveMatchingLines(String),
    /// Prepend a prefix string.
    Prefix(String),
    /// Append a suffix string.
    Suffix(String),
}

/// The regex pattern text a rule compiles, if it uses one.
pub open spec fn rule_pattern(rule: FilterRule) -> Option<Seq<char>> {
    match rule {
        FilterRule::RemovePattern(p) => Some(p@),
        FilterRule::RemoveMatchingLines(p) => Some(p@),
        FilterRule::ReplacePattern { pattern, .. } => Some(pattern@),
        _ => None,
    }
}

/// A rule is valid when it uses no regex or its regex compiles.
pub open spec fn rule_is_valid(rule: FilterRule) -> bool {
    match rule_pattern(rule) {
        Some(p) => pattern_compiles(p),
        None => true,
    }
}

/// The test that decides which lines `RemoveMatchingLines(pattern)` keeps.
pub open spec fn line_kept(pattern: Seq<char>) -> spec_fn(Seq<char>) -> bool {
    |line: Seq<char>| !regex_is_match(pattern, line)
}

/// The lines of `text` that `pattern` does not match, joined by `'\n'`.
pub open spec fn unmatched_lines(pattern: Seq<char>, text: Seq<char>) -> Seq<char> {
    join(lines(text).filter(line_kept(pattern)), seq!['\n'])
}

/// What applying `rule` to `text` gives.
pub open spec fn rule_output(rule: FilterRule, text: Seq<char>) -> Seq<char> {
    match rule {
        FilterRule::TrimWhitespace => trim(text),
        FilterRule::CollapseWhitespace => join(words(text), seq![' ']),
        FilterRule::RemovePattern(p) => if pattern_compiles(p@) {
            regex_replace_all(p@, text, seq![])
        } else {
            text
        },
        FilterRule::ReplacePattern { pattern, replacement } => if pattern_compiles(pattern@) {
            regex_replace_all(pattern@, text, replacement@)
        } else {
            text
        },
        FilterRule::TruncateChars(n) => take_at_most(text, n as nat),
        FilterRule::TruncateWords(n) => join(take_at_most(words(text), n as nat), seq![' ']),
        FilterRule::Lowercase => lowercase(text),
        FilterRule::Uppercase => uppercase(text),
        FilterRule::RemoveMatchingLines(p) => if pattern_compiles(p@) {
            unmatched_lines(p@, text)
        } else {
            text
        },
        FilterRule::Prefix(p) => p@ + text,
        FilterRule::Suffix(s) => text + s@,
    }
}

impl FilterRule {
    /// The regex pattern this rule would compile, if any.
    pub fn pattern(&self) -> (r: Option<&str>)
        ensures
            match r {
                Some(p) => rule_pattern(*self) == Some(p@),
                None => rule_pattern(*self) is None,
            },
    {
        match self {
            FilterRule::RemovePattern(p) => Some(p.as_str()),
            FilterRule::RemoveMatchingLines(p) => Some(p.as_str()),
            FilterRule::ReplacePattern { pattern, .. } => Some(pattern.as_str()),
            _ => None,
        }
    }
}

/// Keeps the lines of `text` that `re` does not match, joined by `'\n'`.
pub fn remove_matching_lines(re: &CompiledPattern, text: &str) -> (r: String)
    ensures
        r@ == unmatched_lines(re.source(), text@),
{
    let ghost keep = line_kept(re.source());
    let cs = chars_of(text);
    let len: usize = cs.len();
    let mut out = String::new();
    let mut any = false;
    let mut cur: Vec<char> = Vec::new();
    let mut i: usize = 0;
    proof {
        assert(cs@.take(0) =~= Seq::<char>::empty());
    }
    while i < len
        invariant
            i <= len == cs@.len(),
            cs@ == text@,
            keep == line_kept(re.source()),
            ({
                let (done, pending) = lines_scan(cs@.take(i as int));
                &&& cur@ == pending
                &&& out@ == join(done.filter(keep), seq!['\n'])
                &&& any == (done.filter(keep).len() > 0)
            }),
        decreases len - i,
    {
        let c = cs[i];
        let ghost prev = lines_scan(cs@.take(i as int));
        assert(cs@.take(i + 1).drop_last() =~= cs@.take(i as int));
        assert(cs@.take(i + 1).last() == c);
        if c == '\n' {
            let n: usize = cur.len();
            let end: usize = if n > 0 && cur[n - 1] == '\r' {
                n - 1
            } else {
                n
            };
            let line = string_of_prefix(&cur, end);
            assert(line@ =~= strip_cr(prev.1));
            let ghost done2 = prev.0.push(line@);
            assert(done2.drop_last() =~= prev.0);
            let drop = is_match(re, line.as_str());
            assert(done2.filter(keep) == if keep(line@) {
                prev.0.filter(keep).push(line@)
            } else {
                prev.0.filter(keep)
            }) by {
                reveal(Seq::filter);
            }
            if !drop {
                proof {
                    crate::text::lemma_join_push(prev.0.filter(keep), seq!['\n'], line@);
                }
                if any {
                    push_char(&mut out, '\n');
                }
                out.append(line.as_str());
                any = true;
                assert(out@ =~= join(done2.filter(keep), seq!['\n']));
            }
            cur = Vec::new();
        } else {
            cur.push(c);
        }
        i = i + 1;
    }
    assert(cs@.take(len as int) =~= cs@);
    let ghost fin = lines_scan(cs@);
    if cur.len() > 0 {
        let n: usize = cur.len();
        let line = string_of_prefix(&cur, n);
        assert(line@ =~= fin.1);
        let ghost all = fin.0.push(line@);
        assert(all.drop_last() =~= fin.0);
        let drop = is_match(re, line.as_str());
        assert(all.filter(keep) == if keep(line@) {
            fin.0.filter(keep).push(line@)
        } else {
            fin.0.filter(keep)
        }) by {
            reveal(Seq::filter);
        }
        if !drop {
            proof {
                crate::text::lemma_join_push(fin.0.filter(keep), seq!['\n'], line@);
            }
            if any {
                push_char(&mut out, '\n');
            }
            out.append(line.as_str());
            assert(out@ =~= join(all.filter(keep), seq!['\n']));
        }
    }
    out
}

/// Applies one rule to a text.
pub fn apply_rule(text: String, rule: &FilterRule) -> (r: String)
    ensures
        r@ == rule_output(*rule, text@),
{
    match rule {
        FilterRule::TrimWhitespace => trim_text(text.as_str()),
        FilterRule::CollapseWhitespace => {
            let r = join_words(text.as_str(), usize::MAX);
            proof {
                lemma_words_len(text@);
            }
            r
        },
        FilterRule::RemovePattern(p) => match compile(p.as_str()) {
            Ok(re) => {
                let empty = String::new();
                replace_all(&re, text.as_str(), empty.as_str())
            },
            Err(_) => text,
        },
        FilterRule::ReplacePattern { pattern, replacement } => match compile(pattern.as_str()) {
            Ok(re) => replace_all(&re, text.as_str(), replacement.as_str()),
            Err(_) => text,
        },
        FilterRule::TruncateChars(n) => take_chars(text.as_str(), *n),
        FilterRule::TruncateWords(n) => join_words(text.as_str(), *n),
        FilterRule::Lowercase => lowercase_text(text.as_str()),
        FilterRule::Uppercase => uppercase_text(text.as_str()),
        FilterRule::RemoveMatchingLines(p) => match compile(p.as_str()) {
            Ok(re) => remove_matching_lines(&re, text.as_str()),
            Err(_) => text,
        },
        FilterRule::Prefix(p) => concat_text(p.as_str(), text.as_str()),
        FilterRule::Suffix(s) => concat_text(text.as_str(), s.as_str()),
    }
}

} // verus!
