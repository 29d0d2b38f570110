//! Properties of the library as a whole, stated over the specifications that the
//! executable functions' contracts use.

use vstd::prelude::*;

use crate::filter::apply_rules;
use crate::pattern::{pattern_compiles, regex_is_match};
use crate::rule::{line_kept, rule_is_valid, rule_output, rule_pattern, FilterRule};
use crate::text::{
    clean_word, is_white, join, lemma_spaced_shape, lemma_trim_end_shape, lemma_trim_start_shape,
    lemma_lines_no_newline, lemma_lines_scan_of_joined, lemma_words_clean, lemma_words_of_spaced,
    lines, lines_scan, no_newline, strip_cr, take_at_most, trim, trim_end, trim_start, words,
};

verus! {

/// A filter with no rules passes every text through unchanged.
pub proof fn law_empty_filter_is_identity(text: Seq<char>)
    ensures
        apply_rules(Seq::<FilterRule>::empty(), text) == text,
{
}

/// Applying a rule list and then another is applying their concatenation: rules run in the
/// order they were added.
pub proof fn law_rules_apply_in_order(first: Seq<FilterRule>, second: Seq<FilterRule>, text: Seq<char>)
    ensures
        apply_rules(first + second, text) == apply_rules(second, apply_rules(first, text)),
    decreases second.len(),
{
    if second.len() == 0 {
        assert(first + second =~= first);
    } else {
        law_rules_apply_in_order(first, second.drop_last(), text);
        assert((first + second).drop_last() =~= first + second.drop_last());
        assert((first + second).last() == second.last());
    }
}

/// A rule added to a filter acts on what the earlier rules produced.
pub proof fn law_added_rule_applies_last(rules: Seq<FilterRule>, rule: FilterRule, text: Seq<char>)
    ensures
        apply_rules(rules.push(rule), text) == rule_output(rule, apply_rules(rules, text)),
{
    assert(rules.push(rule).drop_last() =~= rules);
}

/// A rule whose regex does not compile leaves the text unchanged (regex rules fail safe).
pub proof fn law_invalid_rule_passes_through(rule: FilterRule, text: Seq<char>)
    requires
        !rule_is_valid(rule),
    ensures
        rule_output(rule, text) == text,
{
}

/// Rules that do not use a regex are always valid.
pub proof fn law_rules_without_pattern_are_valid(rule: FilterRule)
    requires
        rule_pattern(rule) is None,
    ensures
        rule_is_valid(rule),
{
}

/// Trimming leaves a contiguous part of the text that neither starts nor ends with
/// whitespace, and removes only whitespace before and after it; trimming again changes
/// nothing.
pub proof fn law_trim(text: Seq<char>)
    ensures
        ({
            let t = rule_output(FilterRule::TrimWhitespace, text);
            &&& t.len() > 0 ==> !is_white(t[0]) && !is_white(t.last())
            &&& exists|i: int|
                {
                    &&& 0 <= i
                    &&& i + t.len() <= text.len()
                    &&& t == #[trigger] text.subrange(i, i + t.len())
                    &&& forall|k: int| 0 <= k < i ==> is_white(#[trigger] text[k])
                    &&& forall|k: int| i + t.len() <= k < text.len() ==> is_white(#[trigger] text[k])
                }
            &&& rule_output(FilterRule::TrimWhitespace, t) == t
        }),
{
    let s = trim_start(text);
    let t = trim(text);
    lemma_trim_start_shape(text);
    lemma_trim_end_shape(s);
    let i: int = text.len() - s.len();
    assert(t == s.take(t.len() as int));
    if t.len() > 0 {
        assert(t[0] == s[0]);
    }
    assert(t =~= text.subrange(i, i + t.len()));
    assert forall|k: int| i + t.len() <= k < text.len() implies is_white(#[trigger] text[k]) by {
        assert(s[k - i] == text[k]);
    }
    // trimming a trimmed text stops at once on both sides
    assert(trim_start(t) == t);
    assert(trim_end(t) == t);
}

/// Collapsing whitespace leaves the same words, joined by single spaces: every whitespace
/// character left is one space between two non-whitespace characters, and collapsing again
/// changes nothing.
pub proof fn law_collapse_whitespace(text: Seq<char>)
    ensures
        ({
            let r = rule_output(FilterRule::CollapseWhitespace, text);
            &&& words(r) == words(text)
            &&& r.len() > 0 ==> !is_white(r[0]) && !is_white(r.last())
            &&& forall|k: int|
                0 <= k < r.len() && is_white(#[trigger] r[k]) ==> {
                    &&& r[k] == ' '
                    &&& 0 < k < r.len() - 1
                    &&& !is_white(r[k - 1])
                    &&& !is_white(r[k + 1])
                }
            &&& rule_output(FilterRule::CollapseWhitespace, r) == r
        }),
{
    lemma_words_clean(text);
    lemma_words_of_spaced(words(text));
    lemma_spaced_shape(words(text));
    let r = join(words(text), seq![' ']);
    if r.len() > 0 {
        assert(words(text).len() > 0);
    }
}

/// Truncating to `n` words keeps the first `n` words of the text (all of them when there are
/// fewer), so the result has at most `n` words; they are separated by single spaces, with no
/// other whitespace.
pub proof fn law_truncate_words(text: Seq<char>, n: usize)
    ensures
        words(rule_output(FilterRule::TruncateWords(n), text)) == take_at_most(words(text), n as nat),
        words(rule_output(FilterRule::TruncateWords(n), text)).len() <= n,
        ({
            let r = rule_output(FilterRule::TruncateWords(n), text);
            &&& r.len() > 0 ==> !is_white(r[0]) && !is_white(r.last())
            &&& forall|k: int|
                0 <= k < r.len() && is_white(#[trigger] r[k]) ==> {
                    &&& r[k] == ' '
                    &&& 0 < k < r.len() - 1
                    &&& !is_white(r[k - 1])
                    &&& !is_white(r[k + 1])
                }
        }),
{
    let ws = words(text);
    lemma_words_clean(text);
    let kept = take_at_most(ws, n as nat);
    assert forall|i: int| 0 <= i < kept.len() implies clean_word(#[trigger] kept[i]) by {
        assert(kept[i] == ws[i]);
    }
    lemma_words_of_spaced(kept);
    lemma_spaced_shape(kept);
}

/// Truncating to `n` characters keeps exactly the first `min(n, len)` characters: a prefix
/// of the text, `n` characters long when the text is longer, the whole text otherwise.
pub proof fn law_truncate_chars(text: Seq<char>, n: usize)
    ensures
        ({
            let r = rule_output(FilterRule::TruncateChars(n), text);
            &&& r.len() == if text.len() <= n { text.len() } else { n as nat }
            &&& r == text.take(r.len() as int)
            &&& text.len() <= n ==> r == text
        }),
{
    let r = rule_output(FilterRule::TruncateChars(n), text);
    if text.len() <= n {
        assert(text.take(text.len() as int) =~= text);
    }
}

/// A prefix rule puts its text, whole, before every text, and a suffix rule puts its text,
/// whole, after it, whatever the text already starts or ends with.
pub proof fn law_prefix_and_suffix(prefix: String, suffix: String, text: Seq<char>)
    ensures
        ({
            let p = rule_output(FilterRule::Prefix(prefix), text);
            &&& p.len() == prefix@.len() + text.len()
            &&& p.take(prefix@.len() as int) == prefix@
            &&& p.skip(prefix@.len() as int) == text
        }),
        ({
            let s = rule_output(FilterRule::Suffix(suffix), text);
            &&& s.len() == text.len() + suffix@.len()
            &&& s.take(text.len() as int) == text
            &&& s.skip(text.len() as int) == suffix@
        }),
{
    let p = rule_output(FilterRule::Prefix(prefix), text);
    let s = rule_output(FilterRule::Suffix(suffix), text);
    assert(p.take(prefix@.len() as int) =~= prefix@);
    assert(p.skip(prefix@.len() as int) =~= text);
    assert(s.take(text.len() as int) =~= text);
    assert(s.skip(text.len() as int) =~= suffix@);
}

/// What holds of every item of a sequence holds of every item of a filtered copy of it.
proof fn lemma_filter_keeps_property(
    s: Seq<Seq<char>>,
    pred: spec_fn(Seq<char>) -> bool,
    q: spec_fn(Seq<char>) -> bool,
)
    requires
        forall|i: int| 0 <= i < s.len() ==> q(#[trigger] s[i]),
    ensures
        forall|i: int| 0 <= i < s.filter(pred).len() ==> q(#[trigger] s.filter(pred)[i]),
    decreases s.len(),
{
    reveal(Seq::filter);
    if s.len() > 0 {
        let prev = s.drop_last();
        assert forall|i: int| 0 <= i < prev.len() implies q(#[trigger] prev[i]) by {
            assert(prev[i] == s[i]);
        }
        lemma_filter_keeps_property(prev, pred, q);
        let sub = prev.filter(pred);
        if pred(s.last()) {
            assert(q(s[s.len() - 1]));
            assert forall|i: int| 0 <= i < sub.push(s.last()).len() implies q(
                #[trigger] sub.push(s.last())[i],
            ) by {
                if i < sub.len() {
                    assert(sub.push(s.last())[i] == sub[i]);
                }
            }
        }
    }
}

/// When its pattern compiles, `RemoveMatchingLines` leaves exactly the lines of the text
/// that the pattern does not match, in order (an empty last one aside, since a text that
/// ends in a line break has no empty line after it): every line left is one the pattern
/// does not match, and every non-empty line it does not match is left.
///
/// Excluded: a kept line other than the last that still ends with a carriage return (from a
/// `"\r\r\n"` terminator); joined to the next line by `'\n'`, it would be read back without
/// that carriage return, as a different line.
pub proof fn law_remaining_lines_do_not_match(pattern: String, text: Seq<char>)
    requires
        pattern_compiles(pattern@),
        forall|i: int|
            0 <= i < lines(text).filter(line_kept(pattern@)).len() - 1 ==> strip_cr(
                #[trigger] lines(text).filter(line_kept(pattern@))[i],
            ) == lines(text).filter(line_kept(pattern@))[i],
    ensures
        ({
            let r = rule_output(FilterRule::RemoveMatchingLines(pattern), text);
            let kept = lines(text).filter(line_kept(pattern@));
            &&& forall|i: int|
                0 <= i < lines(r).len() ==> !regex_is_match(pattern@, #[trigger] lines(r)[i])
            &&& lines(r) == if kept.len() > 0 && kept.last().len() == 0 {
                kept.drop_last()
            } else {
                kept
            }
            &&& forall|i: int|
                0 <= i < lines(text).len() && !regex_is_match(pattern@, #[trigger] lines(text)[i])
                    && lines(text)[i].len() > 0 ==> lines(r).contains(lines(text)[i])
        }),
{
    let keep = line_kept(pattern@);
    let kept = lines(text).filter(keep);
    let r = join(kept, seq!['\n']);
    broadcast use vstd::seq_lib::group_filter_ensures;

    assert forall|i: int| 0 <= i < kept.len() implies !regex_is_match(pattern@, #[trigger] kept[i]) by {
        assert(keep(kept[i]));
    }
    assert forall|i: int|
        0 <= i < lines(text).len() && !regex_is_match(pattern@, #[trigger] lines(text)[i])
            && lines(text)[i].len() > 0 implies kept.contains(lines(text)[i]) by {
        assert(keep(lines(text)[i]));
    }
    if kept.len() == 0 {
        let empty = Seq::<char>::empty();
        assert(r == empty);
        assert(lines_scan(empty) == (Seq::<Seq<char>>::empty(), empty));
        assert(lines(r).len() == 0);
        assert(lines(r) =~= kept);
    } else {
        lemma_lines_no_newline(text);
        lemma_filter_keeps_property(lines(text), keep, |l: Seq<char>| no_newline(l));
        assert forall|i: int| 0 <= i < kept.len() implies no_newline(#[trigger] kept[i]) by {
            let q = |l: Seq<char>| no_newline(l);
            assert(q(kept[i]));
        }
        lemma_lines_scan_of_joined(kept);
        assert forall|i: int| 0 <= i < lines(r).len() implies !regex_is_match(
            pattern@,
            #[trigger] lines(r)[i],
        ) by {
            if i < kept.len() - 1 {
                assert(lines(r)[i] == kept[i]);
            } else {
                assert(lines(r)[i] == kept.last());
            }
        }
        assert(kept.drop_last().push(kept.last()) =~= kept);
        assert forall|i: int|
            0 <= i < lines(text).len() && !regex_is_match(pattern@, #[trigger] lines(text)[i])
                && lines(text)[i].len() > 0 implies lines(r).contains(lines(text)[i]) by {
            let l = lines(text)[i];
            assert(kept.contains(l));
            let j = choose|j: int| 0 <= j < kept.len() && kept[j] == l;
            if j < kept.len() - 1 {
                assert(lines(r)[j] == l);
            } else {
                assert(lines(r)[j] == l);
            }
        }
    }
}

} // verus!
