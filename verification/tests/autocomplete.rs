use avro_phonetic::suggest::get_autocomplete_suggestions;
use avro_phonetic::ruleset::{Ruleset, Pattern};

fn chars(s: &str) -> Vec<char> {
    s.chars().collect()
}

fn direct(find: &str, replace: &str) -> Pattern {
    Pattern { find: chars(find), replace: chars(replace), rules: None }
}

fn table() -> Ruleset {
    Ruleset {
        patterns: vec![
            direct("amar", "\u{0986}\u{09AE}\u{09BE}\u{09B0}"),
            direct("bangla", "\u{09AC}\u{09BE}\u{0982}\u{09B2}\u{09BE}"),
            direct("bandor", "\u{09AC}\u{09BE}\u{09A8}\u{09CD}\u{09A6}\u{09B0}"),
            // renders to the same text as "bangla": exercised by the dedup
            direct("bang", "\u{09AC}\u{09BE}\u{0982}\u{09B2}\u{09BE}"),
            direct("banana", "\u{09AC}\u{09BE}\u{09A8}\u{09BE}\u{09A8}\u{09BE}"),
        ],
        vowel: chars("aeiou"),
        consonant: chars("bcdfghjklmnpqrstvwxyz"),
        casesensitive: chars(""),
    }
}

const BANGLA: &str = "\u{09AC}\u{09BE}\u{0982}\u{09B2}\u{09BE}";
const BANDOR: &str = "\u{09AC}\u{09BE}\u{09A8}\u{09CD}\u{09A6}\u{09B0}";
const BANANA: &str = "\u{09AC}\u{09BE}\u{09A8}\u{09BE}\u{09A8}\u{09BE}";

#[test]
fn suggest_lists_strict_extensions_in_declared_order() {
    let rs = table();
    let s = get_autocomplete_suggestions(&rs, "ban".to_string(), 5);
    assert_eq!(s, vec![BANGLA.to_string(), BANDOR.to_string(), BANANA.to_string()]);
}

#[test]
fn suggest_is_nonempty_for_known_prefix() {
    let rs = table();
    let s = get_autocomplete_suggestions(&rs, "ban".to_string(), 5);
    assert!(!s.is_empty());
}

#[test]
fn suggest_deduplicates() {
    let rs = table();
    // "bang" renders like "bangla": its candidate must not appear twice
    let s = get_autocomplete_suggestions(&rs, "ban".to_string(), 10);
    assert_eq!(s.iter().filter(|x| x.as_str() == BANGLA).count(), 1);
}

#[test]
fn suggest_honours_the_bound() {
    let rs = table();
    let s = get_autocomplete_suggestions(&rs, "ban".to_string(), 1);
    assert_eq!(s, vec![BANGLA.to_string()]);
    let s = get_autocomplete_suggestions(&rs, "ban".to_string(), 2);
    assert_eq!(s.len(), 2);
}

#[test]
fn suggest_zero_bound_is_empty() {
    let rs = table();
    assert!(get_autocomplete_suggestions(&rs, "ban".to_string(), 0).is_empty());
}

#[test]
fn suggest_empty_input_is_empty() {
    let rs = table();
    assert!(get_autocomplete_suggestions(&rs, "".to_string(), 5).is_empty());
    assert!(get_autocomplete_suggestions(&rs, "   ".to_string(), 5).is_empty());
}

#[test]
fn suggest_short_last_word_is_empty() {
    let rs = table();
    assert!(get_autocomplete_suggestions(&rs, "a".to_string(), 5).is_empty());
    assert!(get_autocomplete_suggestions(&rs, "amar b".to_string(), 5).is_empty());
}

#[test]
fn suggest_keeps_leading_words_converted() {
    let rs = table();
    let s = get_autocomplete_suggestions(&rs, "amar ban".to_string(), 2);
    let amar = "\u{0986}\u{09AE}\u{09BE}\u{09B0}";
    assert_eq!(s, vec![format!("{} {}", amar, BANGLA), format!("{} {}", amar, BANDOR)]);
}

#[test]
fn suggest_exact_word_alone_is_no_suggestion() {
    let rs = table();
    // "bangla" does not strictly extend itself; only longer keys would
    let s = get_autocomplete_suggestions(&rs, "bangla".to_string(), 5);
    assert!(s.is_empty());
}
