use syllabize_es::char_util::{can_form_hiatus, can_form_triphthong, is_vowel};
use syllabize_es::str_util::{is_consonant_group, loose_match, stress_index};

#[test]
fn test_is_triphthong() {
    assert_eq!(can_form_triphthong('a', 'b', 'c'), false);
    assert_eq!(can_form_triphthong('i', 'e', 'i'), true);
    assert_eq!(can_form_triphthong('i', 'á', 'i'), true);
}

#[test]
fn test_is_hiatus() {
    assert_eq!(can_form_hiatus('a', 'b'), false);
    assert_eq!(can_form_hiatus('a', 'e'), true);
}

#[test]
fn test_is_vowel() {
    assert_eq!(is_vowel('e'), true);
    assert_eq!(is_vowel('f'), false);
}

#[test]
fn test_is_consonant_group() {
    assert!(is_consonant_group("cl"));
    assert!(!is_consonant_group("cy"));
}

#[test]
fn test_stress_index() {
    assert_eq!(stress_index("ui"), 1);
    assert_eq!(stress_index("ai"), 0);
}

#[test]
fn test_loose_match() {
    assert!(loose_match("i", "í"));
    assert!(!loose_match("ey", "é"));
}
