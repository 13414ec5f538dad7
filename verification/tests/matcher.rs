use avro_phonetic::parser::{exact_find_in_pattern, match_non_rule_patterns, match_rule_patterns,
    process_rules, process_match, is_vowel, is_consonant, is_punctuation};
use avro_phonetic::ruleset::{Ruleset, Pattern, Rule, Match, MatchSide, MatchScope};

fn chars(s: &str) -> Vec<char> {
    s.chars().collect()
}

fn direct(find: &str, replace: &str) -> Pattern {
    Pattern { find: chars(find), replace: chars(replace), rules: None }
}

fn guarded(find: &str, replace: &str, rules: Vec<Rule>) -> Pattern {
    Pattern { find: chars(find), replace: chars(replace), rules: Some(rules) }
}

fn table() -> Ruleset {
    Ruleset {
        patterns: vec![
            direct("k", "K1"),
            guarded(
                "ka",
                "G-default",
                vec![Rule {
                    matches: vec![Match {
                        side: MatchSide::Suffix,
                        scope: MatchScope::Vowel,
                        negative: false,
                        value: None,
                    }],
                    replace: chars("G-vowel"),
                }],
            ),
            direct("ka", "K2"),
        ],
        vowel: chars("aeiou"),
        consonant: chars("bcdfghjklmnpqrstvwxyz"),
        casesensitive: chars(""),
    }
}

#[test]
fn classification_follows_the_table() {
    let rs = table();
    assert!(is_vowel(&rs, 'a'));
    assert!(is_vowel(&rs, 'A'));
    assert!(!is_vowel(&rs, 'k'));
    assert!(is_consonant(&rs, 'k'));
    assert!(!is_consonant(&rs, 'a'));
    assert!(is_punctuation(&rs, '.'));
    assert!(is_punctuation(&rs, ' '));
    assert!(!is_punctuation(&rs, 'a'));
}

#[test]
fn exact_find_reports_every_match_in_order() {
    let rs = table();
    let text = chars("kae");
    let hits = exact_find_in_pattern(&text, 0, &rs.patterns);
    assert_eq!(hits, vec![0, 1, 2]);
    let hits = exact_find_in_pattern(&text, 1, &rs.patterns);
    assert!(hits.is_empty());
}

#[test]
fn match_classes_are_kept_apart() {
    let rs = table();
    let text = chars("kae");
    let direct_hit = match_non_rule_patterns(&rs, &text, 0);
    assert!(direct_hit.matched);
    assert_eq!(direct_hit.index, 0);
    let guarded_hit = match_rule_patterns(&rs, &text, 0);
    assert!(guarded_hit.matched);
    assert_eq!(guarded_hit.index, 1);
    let miss = match_non_rule_patterns(&rs, &text, 2);
    assert!(!miss.matched);
}

#[test]
fn rules_pick_the_first_passing_replacement() {
    let rs = table();
    let text = chars("kae");
    let rules = match &rs.patterns[1].rules {
        Some(r) => r,
        None => panic!("pattern 1 carries rules"),
    };
    // span "ka" at 0..2, followed by the vowel 'e': the rule passes
    let out = process_rules(&rs, rules, &text, 0, 2);
    assert_eq!(out, Some(chars("G-vowel")));
    // at the end of "ka" alone nothing follows: the rule fails
    let text2 = chars("ka");
    let out = process_rules(&rs, rules, &text2, 0, 2);
    assert_eq!(out, None);
}

#[test]
fn single_conditions_evaluate_as_documented() {
    let rs = table();
    let text = chars("kae");
    let suffix_vowel = Match {
        side: MatchSide::Suffix,
        scope: MatchScope::Vowel,
        negative: false,
        value: None,
    };
    assert!(process_match(&rs, &suffix_vowel, &text, 0, 1));
    let prefix_punct = Match {
        side: MatchSide::Prefix,
        scope: MatchScope::Punctuation,
        negative: false,
        value: None,
    };
    // at the text's start the prefix side is out of bounds: punctuation holds
    assert!(process_match(&rs, &prefix_punct, &text, 0, 1));
    let exact_e = Match {
        side: MatchSide::Suffix,
        scope: MatchScope::Exact,
        negative: false,
        value: Some(chars("e")),
    };
    // window "e" at 2..3 reaches exactly to the end: no match
    assert!(!process_match(&rs, &exact_e, &text, 0, 2));
    let unknown = Match {
        side: MatchSide::Suffix,
        scope: MatchScope::Other,
        negative: false,
        value: None,
    };
    assert!(process_match(&rs, &unknown, &text, 0, 1));
}
