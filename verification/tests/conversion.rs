use avro_phonetic::parser::{parse_unicode, parse_bangla, to_unicode, fix_string_case};
use avro_phonetic::ruleset::{Ruleset, Pattern, Rule, Match, MatchSide, MatchScope};

fn chars(s: &str) -> Vec<char> {
    s.chars().collect()
}

fn direct(find: &str, replace: &str) -> Pattern {
    Pattern { find: chars(find), replace: chars(replace), rules: None }
}

fn guarded(find: &str, replace: &str, rules: Vec<Rule>) -> Pattern {
    Pattern { find: chars(find), replace: chars(replace), rules: Some(rules) }
}

fn cond(side: MatchSide, scope: MatchScope, negative: bool, value: Option<&str>) -> Match {
    Match { side, scope, negative, value: value.map(chars) }
}

/// A small fixed table in the style of the bundled one: word patterns for
/// the example sentence, letter patterns, and rule-guarded patterns for
/// each scope kind.
fn table() -> Ruleset {
    Ruleset {
        patterns: vec![
            direct("amar", "\u{0986}\u{09AE}\u{09BE}\u{09B0}"),
            direct("sOnar", "\u{09B8}\u{09CB}\u{09A8}\u{09BE}\u{09B0}"),
            direct("bangla", "\u{09AC}\u{09BE}\u{0982}\u{09B2}\u{09BE}"),
            guarded(
                "z",
                "ZG",
                vec![Rule {
                    matches: vec![cond(MatchSide::Prefix, MatchScope::Punctuation, false, None)],
                    replace: chars("ZR"),
                }],
            ),
            direct("z", "\u{099C}"),
            direct("k", "\u{0995}"),
            direct("kh", "\u{0996}"),
            direct("rr", "\u{09B0}\u{09CD}"),
            direct("e", "\u{09C7}"),
            guarded(
                "a",
                "\u{0986}",
                vec![Rule {
                    matches: vec![cond(MatchSide::Prefix, MatchScope::Consonant, false, None)],
                    replace: chars("\u{09BE}"),
                }],
            ),
            guarded(
                "o",
                "\u{0993}",
                vec![Rule {
                    matches: vec![cond(MatchSide::Suffix, MatchScope::Exact, false, Some("i"))],
                    replace: chars("\u{09C1}"),
                }],
            ),
            guarded(
                "t",
                "\u{09A4}",
                vec![Rule {
                    matches: vec![cond(MatchSide::Suffix, MatchScope::Vowel, true, None)],
                    replace: chars("\u{09CE}"),
                }],
            ),
            direct("bandor", "\u{09AC}\u{09BE}\u{09A8}\u{09CD}\u{09A6}\u{09B0}"),
            direct("bang", "\u{09AC}\u{09BE}\u{0982}\u{09B2}\u{09BE}"),
        ],
        vowel: chars("aeiou"),
        consonant: chars("bcdfghjklmnpqrstvwxyz"),
        casesensitive: chars("o"),
    }
}

#[test]
fn convert_example_sentence() {
    let rs = table();
    assert_eq!(
        parse_unicode(&rs, "amar sOnar bangla"),
        "\u{0986}\u{09AE}\u{09BE}\u{09B0} \u{09B8}\u{09CB}\u{09A8}\u{09BE}\u{09B0} \u{09AC}\u{09BE}\u{0982}\u{09B2}\u{09BE}"
    );
}

#[test]
fn convert_normalizes_whitespace_and_case() {
    let rs = table();
    assert_eq!(
        parse_unicode(&rs, "  AMAR   SOnar\tbangla "),
        "\u{0986}\u{09AE}\u{09BE}\u{09B0} \u{09B8}\u{09CB}\u{09A8}\u{09BE}\u{09B0} \u{09AC}\u{09BE}\u{0982}\u{09B2}\u{09BE}"
    );
}

#[test]
fn convert_empty_is_empty() {
    let rs = table();
    assert_eq!(parse_unicode(&rs, ""), "");
}

#[test]
fn convert_is_deterministic() {
    let rs = table();
    let a = parse_unicode(&rs, "amar sOnar bangla");
    let b = parse_unicode(&rs, "amar sOnar bangla");
    assert_eq!(a, b);
}

#[test]
fn coverage_unmatched_text_passes_through() {
    let rs = table();
    // p, q, w occur in no find key; only folding and normalization apply
    assert_eq!(parse_unicode(&rs, "  PQ   w "), "pq w");
    assert_eq!(parse_unicode(&rs, "\u{0986}\u{09AE}\u{09BF}"), "\u{0986}\u{09AE}\u{09BF}");
}

#[test]
fn declaration_order_beats_length() {
    let rs = table();
    // "k" stands before "kh" in the table, so "kh" is never reached
    assert_eq!(parse_unicode(&rs, "kh"), "\u{0995}h");
}

#[test]
fn direct_pattern_beats_rule_guarded() {
    let rs = table();
    // the rule-guarded "z" stands first, but the direct "z" wins
    assert_eq!(parse_unicode(&rs, "z"), "\u{099C}");
}

#[test]
fn rule_fallback_emits_default() {
    let rs = table();
    // at position 0 the prefix-consonant rule fails: the default comes out
    assert_eq!(parse_unicode(&rs, "a"), "\u{0986}");
}

#[test]
fn rule_replacement_after_consonant() {
    let rs = table();
    assert_eq!(parse_unicode(&rs, "kka"), "\u{0995}\u{0995}\u{09BE}");
}

#[test]
fn prefix_scope_right_after_first_character_is_out_of_range() {
    let rs = table();
    // the saturated inspection index never reaches position 0, so the
    // prefix rule fails here and the default comes out
    assert_eq!(parse_unicode(&rs, "ka"), "\u{0995}\u{0986}");
}

#[test]
fn negated_vowel_rule() {
    let rs = table();
    // before a vowel the negated rule fails: default
    assert_eq!(parse_unicode(&rs, "ta"), "\u{09A4}\u{0986}");
    // before a consonant it passes
    assert_eq!(parse_unicode(&rs, "tk"), "\u{09CE}\u{0995}");
    // at the text's end the vowel scope fails outright, negated or not
    assert_eq!(parse_unicode(&rs, "t"), "\u{09A4}");
}

#[test]
fn exact_window_must_end_inside_text() {
    let rs = table();
    // the suffix window "i" would reach exactly to the end: no match
    assert_eq!(parse_unicode(&rs, "oi"), "\u{0993}i");
    // one character more and the window fits strictly inside
    assert_eq!(parse_unicode(&rs, "oik"), "\u{09C1}i\u{0995}");
}

#[test]
fn ligature_join_and_cleanup_cancel_before_blocking_consonant() {
    let rs = table();
    // hasant + ka: the joiner is inserted and removed again
    assert_eq!(parse_unicode(&rs, "rrk"), "\u{09B0}\u{09CD}\u{0995}");
}

#[test]
fn ligature_join_survives_before_vowel_sign() {
    let rs = table();
    // hasant + e-sign: the inserted joiner stays
    assert_eq!(parse_unicode(&rs, "rre"), "\u{09B0}\u{09CD}\u{200D}\u{09C7}");
}

#[test]
fn parse_bangla_and_to_unicode_agree() {
    let rs = table();
    let direct = parse_unicode(&rs, "ka");
    assert_eq!(parse_bangla(&rs, "ka".to_string(), true), direct);
    assert_eq!(parse_bangla(&rs, "ka".to_string(), false), direct);
    assert_eq!(to_unicode(&rs, "ka"), direct);
}

#[test]
fn fix_string_case_keeps_exceptions() {
    let rs = table();
    assert_eq!(fix_string_case(&rs, "KOkO"), "kOkO");
    assert_eq!(fix_string_case(&rs, "AbC"), "abc");
}
