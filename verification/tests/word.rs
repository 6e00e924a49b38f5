use syllabize_es::{RhymeOptions, Word};

#[test]
fn test_hiato() {
    let word: Word = Word::from("lee");
    let vowel_combos = word.vowel_combos();
    assert_eq!(vowel_combos.hiatuses.len(), 1);
    assert_eq!(vowel_combos.diphthongs.len(), 0);
    assert_eq!(vowel_combos.triphthongs.len(), 0);
}

#[test]
fn test_rhymes_with() {
    let word: Word = Word::from("vida");
    assert!(word.rhymes_with(&Word::from("frida"), None));
    assert!(!word.rhymes_with(&Word::from("vía"), None));
    assert!(word.assonant_rhymes_with(&Word::from("villa")));
    assert!(word.assonant_rhymes_with(&Word::from("vía")));
}

#[test]
fn test_rhymes_with_yeismo() {
    let word: Word = Word::from("callo");
    assert!(word.rhymes_with(
        &Word::from("cayo"),
        Some(RhymeOptions {
            yeismo: true,
            seseo: false,
            b_equals_v: true
        })
    ));
    assert!(!word.rhymes_with(
        &Word::from("cayo"),
        Some(RhymeOptions {
            yeismo: false,
            seseo: false,
            b_equals_v: true
        })
    ));
}

#[test]
fn test_rhymes_with_seseo() {
    let word: Word = Word::from("cabeza");
    assert!(word.rhymes_with(
        &Word::from("besa"),
        Some(RhymeOptions {
            yeismo: true,
            seseo: true,
            b_equals_v: true
        })
    ));
    assert!(!word.rhymes_with(
        &Word::from("besa"),
        Some(RhymeOptions {
            yeismo: true,
            seseo: false,
            b_equals_v: true
        })
    ));
}

#[test]
fn test_rhymes_with_seseo_end() {
    let word: Word = Word::from("estrés");
    assert!(word.rhymes_with(
        &Word::from("vez"),
        Some(RhymeOptions {
            yeismo: true,
            seseo: true,
            b_equals_v: true
        })
    ));
    assert!(!word.rhymes_with(
        &Word::from("vez"),
        Some(RhymeOptions {
            yeismo: true,
            seseo: false,
            b_equals_v: true
        })
    ));
}

#[test]
fn test_rhymes_b_v() {
    let word: Word = Word::from("escribe");
    assert!(word.rhymes_with(
        &Word::from("declive"),
        Some(RhymeOptions {
            yeismo: true,
            seseo: true,
            b_equals_v: true
        })
    ));
    assert!(!word.rhymes_with(
        &Word::from("declive"),
        Some(RhymeOptions {
            yeismo: true,
            seseo: true,
            b_equals_v: false
        })
    ));
}

#[test]
fn test_rhymes_with_single_syllable() {
    let word: Word = Word::from("vi");
    assert!(word.rhymes_with(&Word::from("tí"), None));
}

#[test]
fn test_rhymes_with_y() {
    let word: Word = Word::from("ley");
    assert!(!word.rhymes_with(&Word::from("é"), None));
}

#[test]
fn test_rhymes_no_match() {
    let word: Word = Word::from("vi");
    assert!(!word.rhymes_with(&Word::from("sid"), None));
}

#[test]
fn test_diptongo() {
    let word: Word = Word::from("DIALOGO");
    let vowel_combos = word.vowel_combos();
    assert_eq!(vowel_combos.hiatuses.len(), 0);
    assert_eq!(vowel_combos.diphthongs.len(), 1);
    assert_eq!(vowel_combos.triphthongs.len(), 0);
}
