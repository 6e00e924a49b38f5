use syllabize_es::equal_onset;
use syllabize_es::syllabifier::to_syllables;
use syllabize_es::syllable::Syllable;
use syllabize_es::{DiphthongType, HiatusType, RhymeOptions, StressType, Word};

#[test]
fn round_trip_rebuilds_the_word() {
    let words = vec![
        "palabra",
        "esdrújulo",
        "güey",
        "electroencefalografista",
        "Abreviáis",
        "marihuana",
        "vih",
        "curry",
        "azcapotzalco",
        "pihau",
        "any",
    ];
    for s in words {
        let w = Word::from(s);
        let joined = w
            .syllables
            .iter()
            .map(|syl| syl.to_string())
            .collect::<Vec<String>>()
            .join("");
        assert_eq!(joined, s);
    }
}

#[test]
fn syllabization_is_idempotent() {
    let words = vec!["palabra", "güey", "tráiganosla", "lee", "nn", ""];
    for s in words {
        let first = Word::from(s);
        let second = Word::from(s);
        assert_eq!(first.syllables, second.syllables);
        assert_eq!(first.stress_index, second.stress_index);
    }
}

#[test]
fn stress_index_is_in_bounds() {
    let words = vec!["palabra", "olé", "gol", "tráiganosla", "y", "vih"];
    for s in words {
        let w = Word::from(s);
        assert!(!w.syllables.is_empty());
        assert!(w.stress_index < w.syllables.len());
    }
}

#[test]
fn written_accent_takes_the_stress() {
    let words = vec!["olé", "esdrújula", "tráiganosla", "país", "cóctel", "bíceps"];
    for s in words {
        let w = Word::from(s);
        let stressed = &w.syllables[w.stress_index];
        assert!(stressed.has_accented_vowel());
    }
}

#[test]
fn rhyme_is_a_suffix_of_the_word() {
    let words = vec!["palabra", "esdrújulo", "ciento", "huir", "pié", "y"];
    for s in words {
        let w = Word::from(s);
        let rhyme = w.rhyme();
        assert!(rhyme.chars().count() <= s.chars().count());
        assert!(s.ends_with(rhyme.as_str()));
    }
}

#[test]
fn palabra_scenario() {
    let w = Word::from("palabra");
    assert_eq!(w.syllabize("-"), "pa-la-bra");
    assert_eq!(w.stress_index, 1);
    assert_eq!(w.stress(), StressType::Paroxytone);
    assert_eq!(w.rhyme(), "abra");
}

#[test]
fn lee_records_a_simple_hiatus() {
    let w = Word::from("lee");
    let combos = w.vowel_combos();
    assert_eq!(combos.hiatuses.len(), 1);
    assert_eq!(combos.hiatuses[0].syllable_index, 0);
    assert_eq!(combos.hiatuses[0].composite, "ee");
    assert_eq!(combos.hiatuses[0].kind, HiatusType::Simple);
}

#[test]
fn paseo_records_an_accentual_hiatus() {
    let w = Word::from("paseé");
    let combos = w.vowel_combos();
    assert_eq!(combos.hiatuses.len(), 1);
    assert_eq!(combos.hiatuses[0].kind, HiatusType::Accentual);
}

#[test]
fn dialogo_records_one_rising_diphthong() {
    let w = Word::from("DIALOGO");
    let combos = w.vowel_combos();
    assert_eq!(combos.diphthongs.len(), 1);
    assert_eq!(combos.diphthongs[0].syllable_index, 0);
    assert_eq!(combos.diphthongs[0].composite, "IA");
    assert_eq!(combos.diphthongs[0].kind, DiphthongType::Rising);
}

#[test]
fn miau_records_a_triphthong() {
    let w = Word::from("Miau");
    let combos = w.vowel_combos();
    assert_eq!(combos.triphthongs.len(), 1);
    assert_eq!(combos.triphthongs[0].syllable_index, 0);
    assert_eq!(combos.triphthongs[0].composite, "iau");
}

#[test]
fn cut_off_lookahead_is_an_invalid_word() {
    assert!(to_syllables("ng").is_err());
    assert!(to_syllables("gu").is_err());
    assert!(to_syllables("blog").is_ok());
    let w = Word::from("ng");
    assert!(w.syllables.is_empty());
    assert_eq!(w.stress_index, 0);
    assert_eq!(w.rhyme(), "");
    assert_eq!(w.syllabize("-"), "");
}

#[test]
fn empty_word_has_no_syllables() {
    let w = Word::from("");
    assert!(w.syllables.is_empty());
    assert_eq!(w.rhyme(), "");
    assert_eq!(w.syllabize("-"), "");
}

#[test]
fn single_consonant_becomes_a_nucleus() {
    let w = Word::from("b");
    assert_eq!(w.syllables.len(), 1);
    assert_eq!(w.syllables[0].onset, "");
    assert_eq!(w.syllables[0].nucleus, "b");
    assert_eq!(w.syllables[0].coda, "");
}

#[test]
fn soft_c_counts_as_s_under_seseo() {
    let cer = Syllable {
        onset: "c".to_string(),
        nucleus: "e".to_string(),
        coda: "".to_string(),
    };
    let ser = Syllable {
        onset: "s".to_string(),
        nucleus: "e".to_string(),
        coda: "".to_string(),
    };
    let seseo = RhymeOptions {
        yeismo: false,
        seseo: true,
        b_equals_v: false,
    };
    let no_seseo = RhymeOptions {
        yeismo: false,
        seseo: false,
        b_equals_v: false,
    };
    assert!(equal_onset(&cer, &ser, &seseo));
    assert!(equal_onset(&ser, &cer, &seseo));
    assert!(!equal_onset(&cer, &ser, &no_seseo));
}

#[test]
fn gua_keeps_its_u_in_the_nucleus() {
    let w = Word::from("guardia");
    assert_eq!(w.syllabize("-"), "guar-dia");
    let q = Word::from("quark");
    assert_eq!(q.syllabize("-"), "quark");
}

#[test]
fn vowels_since_stress_of_weak_cluster() {
    let s = Syllable {
        onset: "h".to_string(),
        nucleus: "ui".to_string(),
        coda: "r".to_string(),
    };
    assert_eq!(s.vowels_since_stress(), "i");
    let umlaut = Syllable {
        onset: "g".to_string(),
        nucleus: "üi".to_string(),
        coda: "".to_string(),
    };
    assert_eq!(umlaut.vowels_since_stress(), "i");
    let empty = Syllable {
        onset: "n".to_string(),
        nucleus: "".to_string(),
        coda: "".to_string(),
    };
    assert_eq!(empty.vowels_since_stress(), "");
}
