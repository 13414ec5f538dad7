use avro_phonetic::utils::{is_vowel, is_consonant, fix_string_pattern, handle_ligatures,
    handle_matra, handle_zero_width_chars, handle_backspace_correction, normalize_input};

const HASANT: &str = "\u{09CD}";
const ZWJ: &str = "\u{200D}";
const ZWNJ: &str = "\u{200C}";

fn script_normalize(s: &str) -> String {
    handle_zero_width_chars(&handle_matra(&handle_ligatures(s)))
}

#[test]
fn vowels_and_consonants() {
    assert!(is_vowel('a'));
    assert!(is_vowel('E'));
    assert!(!is_vowel('k'));
    assert!(!is_vowel('\u{0986}'));
    assert!(is_consonant('k'));
    assert!(is_consonant('K'));
    assert!(!is_consonant('a'));
    assert!(!is_consonant('O'));
    assert!(!is_consonant('.'));
    assert!(!is_consonant('\u{0995}'));
}

#[test]
fn escape_non_alphanumerics() {
    assert_eq!(fix_string_pattern("a.b"), "a\\.b");
    assert_eq!(fix_string_pattern("k9"), "k9");
    assert_eq!(fix_string_pattern("(^)"), "\\(\\^\\)");
    assert_eq!(fix_string_pattern(""), "");
}

#[test]
fn ligature_joiner_inserted_after_hasant() {
    let input = format!("\u{09B0}{}\u{09C7}", HASANT);
    let expected = format!("\u{09B0}{}{}\u{09C7}", HASANT, ZWJ);
    assert_eq!(handle_ligatures(&input), expected);
}

#[test]
fn ligature_joiner_not_doubled() {
    let already = format!("\u{09B0}{}{}\u{09C7}", HASANT, ZWJ);
    assert_eq!(handle_ligatures(&already), already);
}

#[test]
fn matra_pass_is_identity() {
    assert_eq!(handle_matra("\u{0995}\u{09BF}"), "\u{0995}\u{09BF}");
}

#[test]
fn zero_width_removed_before_blocking_consonant() {
    let input = format!("\u{0995}{}\u{0995}", ZWJ);
    assert_eq!(handle_zero_width_chars(&input), "\u{0995}\u{0995}");
    let input = format!("\u{0995}{}\u{09A4}", ZWNJ);
    assert_eq!(handle_zero_width_chars(&input), "\u{0995}\u{09A4}");
}

#[test]
fn zero_width_kept_elsewhere() {
    let input = format!("\u{0995}{}\u{09C7}", ZWJ);
    assert_eq!(handle_zero_width_chars(&input), input);
}

#[test]
fn script_normalizer_is_idempotent_on_converted_shapes() {
    let samples = [
        format!("\u{09B0}{}\u{0995}", HASANT),
        format!("\u{09B0}{}\u{09C7}", HASANT),
        format!("\u{0995}{}\u{0995}", ZWJ),
        "\u{09AC}\u{09BE}\u{0982}\u{09B2}\u{09BE}".to_string(),
        format!("\u{09B0}{}{}\u{09C7}\u{0995}", HASANT, ZWJ),
    ];
    for s in samples.iter() {
        let once = script_normalize(s);
        let twice = script_normalize(&once);
        assert_eq!(once, twice);
    }
}

#[test]
fn backspace_removes_single_character() {
    assert_eq!(handle_backspace_correction("abc", 2), ("ac".to_string(), 1));
    assert_eq!(handle_backspace_correction("abc", 3), ("ab".to_string(), 2));
}

#[test]
fn backspace_at_start_changes_nothing() {
    assert_eq!(handle_backspace_correction("abc", 0), ("abc".to_string(), 0));
    assert_eq!(handle_backspace_correction("", 0), ("".to_string(), 0));
}

#[test]
fn backspace_takes_hasant_pair() {
    // cursor after the hasant: hasant and its companion go together
    let text = format!("\u{0995}{}", HASANT);
    assert_eq!(handle_backspace_correction(&text, 2), ("".to_string(), 0));
    // cursor after the character following a hasant
    let text = format!("\u{0995}{}\u{0995}", HASANT);
    assert_eq!(handle_backspace_correction(&text, 3), ("\u{0995}".to_string(), 1));
}

#[test]
fn normalize_collapses_and_trims() {
    assert_eq!(normalize_input("  a   b\t\nc "), "a b c");
    assert_eq!(normalize_input(""), "");
    assert_eq!(normalize_input(" \t "), "");
    assert_eq!(normalize_input("abc"), "abc");
}
