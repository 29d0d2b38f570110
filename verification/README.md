# agent_output_filter

Filters and transforms agent output text through an ordered chain of rules
(trimming, whitespace collapsing, regex removal/replacement, truncation, case
conversion, line filtering, prefixes and suffixes), verified with Verus.

- `src/text.rs`: texts as sequences of characters; whitespace, words, lines, trimming.
- `src/pattern.rs`: regular expressions through the `regex` crate.
- `src/rule.rs`: the rules and what each one does to a text.
- `src/filter.rs`: the rule chain, its application and validation.
- `src/laws.rs`: properties of the library as a whole.
- `app/`: `Display` and `std::error::Error` for the validation error.
