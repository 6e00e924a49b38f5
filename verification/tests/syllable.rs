use syllabize_es::syllable::Syllable;

#[test]
fn to_string_works() {
    let s = Syllable {
        onset: "b".to_string(),
        nucleus: "a".to_string(),
        coda: "t".to_string(),
    };
    assert_eq!(s.to_string(), "bat");
}

#[test]
fn vowels_since_stress() {
    let s = Syllable {
        onset: "t".to_string(),
        nucleus: "uái".to_string(),
        coda: "s".to_string(),
    };
    assert_eq!(s.vowels_since_stress(), "ái");
}
