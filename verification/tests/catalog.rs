use wordsearch::catalog::{contains_capital, letters_of, normalize, order, validate};
use wordsearch::error::GenerationError;

fn strings(words: &[&str]) -> Vec<String> {
    words.iter().map(|w| w.to_string()).collect()
}

#[test]
fn normalize_drops_empty_words_and_uppercases() {
    assert_eq!(normalize(&["cat", "", "Dog", "BIRD", ""]), strings(&["CAT", "DOG", "BIRD"]));
    assert_eq!(normalize(&[]), Vec::<String>::new());
    assert_eq!(normalize(&["", ""]), Vec::<String>::new());
}

#[test]
fn normalize_keeps_duplicates_and_order() {
    assert_eq!(normalize(&["b", "a", "b"]), strings(&["B", "A", "B"]));
}

#[test]
fn normalize_uses_the_unicode_mapping() {
    assert_eq!(normalize(&["straße", "é1"]), strings(&["STRASSE", "É1"]));
}

#[test]
fn capital_is_found_anywhere_in_the_word() {
    assert!(contains_capital("A"));
    assert!(contains_capital("12Z"));
    assert!(contains_capital("a-B-c"));
    assert!(!contains_capital("abc"));
    assert!(!contains_capital("123"));
    assert!(!contains_capital(""));
    assert!(!contains_capital("É"));
}

#[test]
fn validate_accepts_fitting_words() {
    assert_eq!(validate(&strings(&["AB", "HELLO", "A1"]), 5), Ok(()));
    assert_eq!(validate(&Vec::new(), 5), Ok(()));
}

#[test]
fn validate_reports_words_without_capitals() {
    let outcome = validate(&strings(&["AB", "12", "cd", "EF"]), 5);
    assert_eq!(
        outcome,
        Err(GenerationError::Validation { invalid: strings(&["12", "cd"]), oversize: vec![] })
    );
}

#[test]
fn validate_reports_long_words() {
    let outcome = validate(&strings(&["ABCDEF", "AB", "ABCDEFG"]), 5);
    assert_eq!(
        outcome,
        Err(GenerationError::Validation {
            invalid: vec![],
            oversize: strings(&["ABCDEF", "ABCDEFG"]),
        })
    );
}

#[test]
fn validate_reports_both_kinds_at_once() {
    let outcome = validate(&strings(&["123456", "OK", "12", "TOOLONG"]), 5);
    assert_eq!(
        outcome,
        Err(GenerationError::Validation {
            invalid: strings(&["123456", "12"]),
            oversize: strings(&["123456", "TOOLONG"]),
        })
    );
}

#[test]
fn validate_counts_letters_not_bytes() {
    assert_eq!(validate(&strings(&["ÉÉÉÉA"]), 5), Ok(()));
    let outcome = validate(&strings(&["ÉÉÉÉÉA"]), 5);
    assert_eq!(
        outcome,
        Err(GenerationError::Validation { invalid: vec![], oversize: strings(&["ÉÉÉÉÉA"]) })
    );
}

#[test]
fn validate_with_negative_size_reports_every_word() {
    let outcome = validate(&strings(&["A"]), -1);
    assert_eq!(
        outcome,
        Err(GenerationError::Validation { invalid: vec![], oversize: strings(&["A"]) })
    );
}

#[test]
fn order_is_descending() {
    assert_eq!(order(strings(&["A", "C", "B"])), strings(&["C", "B", "A"]));
    assert_eq!(
        order(strings(&["ABLE", "ABOUT", "AB", "ABOVE", "AB"])),
        strings(&["ABOVE", "ABOUT", "ABLE", "AB", "AB"])
    );
    assert_eq!(order(Vec::new()), Vec::<String>::new());
}

#[test]
fn order_puts_extensions_first() {
    assert_eq!(order(strings(&["ACT", "ACTION", "AC"])), strings(&["ACTION", "ACT", "AC"]));
}

#[test]
fn letters_are_taken_one_by_one() {
    assert_eq!(letters_of("AB1"), vec!['A', 'B', '1']);
    assert_eq!(letters_of(""), Vec::<char>::new());
    assert_eq!(letters_of("É!"), vec!['É', '!']);
}
