//! The rule chain: building it, applying it, and validating its patterns.

use vstd::prelude::*;

use crate::pattern::{compile, error_message, regex_error_text};
use crate::rule::{apply_rule, rule_is_valid, rule_output, rule_pattern, FilterRule};
use crate::text::{concat_text, push_char};

verus! {

/// What applying the rules, in order, to `text` gives.
pub open spec fn apply_rules(rules: Seq<FilterRule>, text: Seq<char>) -> Seq<char>
    decreases rules.len(),
{
    if rules.len() == 0 {
        text
    } else {
        rule_output(rules.last(), apply_rules(rules.drop_last(), text))
    }
}

/// Every rule in the list is valid.
pub open spec fn all_valid(rules: Seq<FilterRule>) -> bool {
    forall|i: int| 0 <= i < rules.len() ==> rule_is_valid(#[trigger] rules[i])
}

/// `e` describes the first invalid rule of `rules`: its index, its pattern, and the text of
/// the error that compiling the pattern gave (never empty).
pub open spec fn reports_first_invalid(rules: Seq<FilterRule>, e: InvalidRuleError) -> bool {
    &&& 0 <= e.index < rules.len()
    &&& !rule_is_valid(rules[e.index as int])
    &&& forall|j: int| 0 <= j < e.index ==> rule_is_valid(#[trigger] rules[j])
    &&& rule_pattern(rules[e.index as int]) == Some(e.pattern@)
    &&& e.message@ == regex_error_text(e.pattern@)
    &&& e.message@.len() > 0
}

/// An error describing a rule whose regex pattern failed to compile.
#[derive(Debug, Clone)]
pub struct InvalidRuleError {
    /// Index of the offending rule within the filter's rule list.
    pub index: usize,
    /// The pattern string that failed to compile.
    pub pattern: String,
    /// A human-readable description of why compilation failed.
    pub message: String,
}

/// The decimal digits of `n`.
pub open spec fn decimal(n: nat) -> Seq<char>
    decreases n,
{
    if n < 10 {
        seq![digit(n)]
    } else {
        decimal(n / 10).push(digit(n % 10))
    }
}

/// The character of a decimal digit.
pub open spec fn digit(d: nat) -> char {
    ((d + 48) as u8) as char
}

/// The decimal representation of `n`.
pub fn decimal_string(n: usize) -> (r: String)
    ensures
        r@ == decimal(n as nat),
    decreases n,
{
    let d: u8 = (n % 10) as u8;
    let c = (d + 48) as char;
    if n < 10 {
        let mut r = String::new();
        push_char(&mut r, c);
        assert(r@ =~= seq![c]);
        r
    } else {
        let mut r = decimal_string(n / 10);
        push_char(&mut r, c);
        r
    }
}

/// What `format!("{:?}", s)` gives for a string: the quoted, escaped form that
/// `<str as Debug>::fmt` writes.
pub uninterp spec fn debug_quoted(s: Seq<char>) -> Seq<char>;

/// `<str as Debug>::fmt`, through `format!("{:?}", ..)`.
///
/// Trusted: the result is the named value [`debug_quoted`] of the text; the escaping
/// rules of `Debug` are not stated.
#[verifier::external_body]
fn debug_text(s: &str) -> (r: String)
    ensures
        r@ == debug_quoted(s@),
{
    format!("{:?}", s)
}

/// The description of an invalid rule:
/// `rule <index> has an invalid regex pattern <pattern, debug-quoted>: <message>`.
pub open spec fn invalid_rule_text(index: nat, pattern: Seq<char>, message: Seq<char>) -> Seq<char> {
    "rule "@ + decimal(index) + " has an invalid regex pattern "@ + debug_quoted(pattern) + ": "@
        + message
}

impl InvalidRuleError {
    /// The human-readable description of this error.
    pub fn to_string(&self) -> (r: String)
        ensures
            r@ == invalid_rule_text(self.index as nat, self.pattern@, self.message@),
    {
        let mut r = String::from_str("rule ");
        r.append(decimal_string(self.index).as_str());
        r.append(" has an invalid regex pattern ");
        r.append(debug_text(self.pattern.as_str()).as_str());
        r.append(": ");
        r.append(self.message.as_str());
        r
    }
}

/// Applies a chain of [`FilterRule`]s to output text, in order.
#[derive(Debug, Clone)]
pub struct OutputFilter {
    rules: Vec<FilterRule>,
}

impl View for OutputFilter {
    type V = Seq<FilterRule>;

    /// The rules, in the order they are applied.
    closed spec fn view(&self) -> Seq<FilterRule> {
        self.rules@
    }
}

impl OutputFilter {
    /// Create a new, empty filter with no rules.
    pub fn new() -> (f: Self)
        ensures
            f@ == Seq::<FilterRule>::empty(),
    {
        OutputFilter { rules: Vec::new() }
    }

    /// Create a filter pre-populated with the given rules.
    pub fn with_rules(rules: Vec<FilterRule>) -> (f: Self)
        ensures
            f@ == rules@,
    {
        OutputFilter { rules }
    }

    /// Append a rule to the end of the pipeline; returns the filter so calls can be chained.
    pub fn add_rule(&mut self, rule: FilterRule) -> (r: &mut Self)
        ensures
            r@ == old(self)@.push(rule),
            *final(self) == *final(r),
    {
        self.rules.push(rule);
        self
    }

    /// Apply all rules in order and return the resulting string. A rule whose regex does not
    /// compile leaves the text unchanged.
    pub fn apply(&self, text: &str) -> (r: String)
        ensures
            r@ == apply_rules(self@, text@),
    {
        let mut s = String::from_str(text);
        let mut i: usize = 0;
        while i < self.rules.len()
            invariant
                i <= self.rules@.len(),
                s@ == apply_rules(self.rules@.take(i as int), text@),
            decreases self.rules@.len() - i,
        {
            assert(self.rules@.take(i + 1).drop_last() =~= self.rules@.take(i as int));
            s = apply_rule(s, &self.rules[i]);
            i = i + 1;
        }
        assert(self.rules@.take(self.rules@.len() as int) =~= self.rules@);
        s
    }

    /// Check that every regex-based rule compiles: `Ok(())` when all do, else an error for
    /// the first rule that does not.
    pub fn validate(&self) -> (r: Result<(), InvalidRuleError>)
        ensures
            r is Ok <==> all_valid(self@),
            r matches Err(e) ==> reports_first_invalid(self@, e),
    {
        let mut i: usize = 0;
        while i < self.rules.len()
            invariant
                i <= self.rules@.len(),
                forall|j: int| 0 <= j < i ==> rule_is_valid(#[trigger] self.rules@[j]),
            decreases self.rules@.len() - i,
        {
            let rule = &self.rules[i];
            match rule.pattern() {
                Some(p) => match compile(p) {
                    Ok(_) => {},
                    Err(e) => {
                        return Err(
                            InvalidRuleError {
                                index: i,
                                pattern: String::from_str(p),
                                message: error_message(&e),
                            },
                        );
                    },
                },
                None => {},
            }
            i = i + 1;
        }
        Ok(())
    }

    /// Validate all rules, then apply them: an invalid rule gives an error in place of being
    /// skipped.
    pub fn try_apply(&self, text: &str) -> (r: Result<String, InvalidRuleError>)
        ensures
            r is Ok <==> all_valid(self@),
            r matches Ok(s) ==> s@ == apply_rules(self@, text@),
            r matches Err(e) ==> reports_first_invalid(self@, e),
    {
        match self.validate() {
            Ok(()) => Ok(self.apply(text)),
            Err(e) => Err(e),
        }
    }

    /// Number of rules currently in the pipeline.
    pub fn rule_count(&self) -> (n: usize)
        ensures
            n == self@.len(),
    {
        self.rules.len()
    }

    /// Whether the filter has no rules.
    pub fn is_empty(&self) -> (b: bool)
        ensures
            b == (self@.len() == 0),
    {
        self.rules.len() == 0
    }

    /// Borrow the current list of rules.
    pub fn rules(&self) -> (r: &[FilterRule])
        ensures
            r@ == self@,
    {
        self.rules.as_slice()
    }

    /// Remove all rules, leaving an empty filter.
    pub fn clear(&mut self)
        ensures
            final(self)@ == Seq::<FilterRule>::empty(),
    {
        self.rules.clear();
    }
}

impl Default for OutputFilter {
    /// An empty filter with no rules.
    fn default() -> (f: Self)
        ensures
            f@ == Seq::<FilterRule>::empty(),
    {
        OutputFilter::new()
    }
}

impl From<Vec<FilterRule>> for OutputFilter {
    /// A filter holding the given rules.
    fn from(rules: Vec<FilterRule>) -> (f: Self)
        ensures
            f@ == rules@,
    {
        OutputFilter { rules }
    }
}

impl vstd::std_specs::convert::FromSpecImpl<Vec<FilterRule>> for OutputFilter {
    open spec fn obeys_from_spec() -> bool {
        true
    }

    closed spec fn from_spec(v: Vec<FilterRule>) -> Self {
        OutputFilter { rules: v }
    }
}

impl Extend<FilterRule> for OutputFilter {
    /// Append the rules that `iter` yields, in order.
    ///
    /// Trusted: nothing is stated of the result, since nothing can be said of a generic
    /// iterator here; the body is `Vec::extend` on the rule list.
    #[verifier::external_body]
    fn extend<T: IntoIterator<Item = FilterRule>>(&mut self, iter: T) {
        self.rules.extend(iter)
    }
}

impl FromIterator<FilterRule> for OutputFilter {
    /// A filter holding the rules that `iter` yields, in order.
    ///
    /// Trusted: nothing is stated of the result, since nothing can be said of a generic
    /// iterator here; the body collects the rules with `Vec::from_iter`.
    #[verifier::external_body]
    fn from_iter<T: IntoIterator<Item = FilterRule>>(iter: T) -> Self {
        OutputFilter { rules: Vec::from_iter(iter) }
    }
}

} // verus!
