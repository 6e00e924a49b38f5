use syllabize_es::{syllable::Syllable, Word};

#[test]
fn y() {
    let w: Word = Word::from("y");
    assert_eq!(
        w.syllables,
        vec![Syllable {
            onset: "".to_string(),
            nucleus: "y".to_string(),
            coda: "".to_string()
        }]
    );
}

#[test]
fn cc() {
    let w: Word = Word::from("nn");
    assert_eq!(
        w.syllables,
        vec![Syllable {
            onset: "nn".to_string(),
            nucleus: "".to_string(),
            coda: "".to_string()
        }]
    );
}

#[test]
fn vc() {
    let w: Word = Word::from("la");
    assert_eq!(
        w.syllables,
        vec![Syllable {
            onset: "l".to_string(),
            nucleus: "a".to_string(),
            coda: "".to_string()
        }]
    );
}

#[test]
fn cv() {
    let w: Word = Word::from("al");
    assert_eq!(
        w.syllables,
        vec![Syllable {
            onset: "".to_string(),
            nucleus: "a".to_string(),
            coda: "l".to_string()
        }]
    );
}

#[test]
fn cvy() {
    let w: Word = Word::from("doy");
    assert_eq!(
        w.syllables,
        vec![Syllable {
            onset: "d".to_string(),
            nucleus: "oy".to_string(),
            coda: "".to_string()
        }]
    );
}

#[test]
fn vy() {
    let w: Word = Word::from("ey");
    assert_eq!(
        w.syllables,
        vec![Syllable {
            onset: "".to_string(),
            nucleus: "ey".to_string(),
            coda: "".to_string()
        }]
    );
}

#[test]
fn cvv() {
    let w: Word = Word::from("duo");
    assert_eq!(
        w.syllables,
        vec![Syllable {
            onset: "d".to_string(),
            nucleus: "uo".to_string(),
            coda: "".to_string()
        }]
    );
}

#[test]
fn cvvy() {
    let w: Word = Word::from("buey");
    assert_eq!(
        w.syllables,
        vec![Syllable {
            onset: "b".to_string(),
            nucleus: "uey".to_string(),
            coda: "".to_string()
        }]
    );
}

#[test]
fn gu_with_dieresis() {
    let w: Word = Word::from("güey");
    assert_eq!(
        w.syllables,
        vec![Syllable {
            onset: "g".to_string(),
            nucleus: "üey".to_string(),
            coda: "".to_string()
        }]
    );
}

#[test]
fn gui() {
    let w: Word = Word::from("guitarra");
    assert_eq!(
        w.syllables,
        vec![
            Syllable {
                onset: "gu".to_string(),
                nucleus: "i".to_string(),
                coda: "".to_string()
            },
            Syllable {
                onset: "t".to_string(),
                nucleus: "a".to_string(),
                coda: "".to_string()
            },
            Syllable {
                onset: "rr".to_string(),
                nucleus: "a".to_string(),
                coda: "".to_string()
            }
        ]
    );
}

#[test]
fn guia() {
    let w: Word = Word::from("guiada");
    assert_eq!(
        w.syllables,
        vec![
            Syllable {
                onset: "gu".to_string(),
                nucleus: "ia".to_string(),
                coda: "".to_string()
            },
            Syllable {
                onset: "d".to_string(),
                nucleus: "a".to_string(),
                coda: "".to_string()
            }
        ]
    );
}

#[test]
fn que() {
    let w: Word = Word::from("que");
    assert_eq!(
        w.syllables,
        vec![Syllable {
            onset: "qu".to_string(),
            nucleus: "e".to_string(),
            coda: "".to_string()
        }]
    );
}

#[test]
fn rry() {
    let w: Word = Word::from("curry");
    assert_eq!(
        w.syllables,
        vec![
            Syllable {
                onset: "c".to_string(),
                nucleus: "u".to_string(),
                coda: "".to_string()
            },
            Syllable {
                onset: "rr".to_string(),
                nucleus: "y".to_string(),
                coda: "".to_string()
            }
        ]
    );
}

#[test]
fn nry() {
    let w: Word = Word::from("henry");
    assert_eq!(
        w.syllables,
        vec![
            Syllable {
                onset: "h".to_string(),
                nucleus: "e".to_string(),
                coda: "n".to_string()
            },
            Syllable {
                onset: "r".to_string(),
                nucleus: "y".to_string(),
                coda: "".to_string()
            }
        ]
    );
}

#[test]
fn vg() {
    let w: Word = Word::from("blog");
    assert_eq!(
        w.syllables,
        vec![Syllable {
            onset: "bl".to_string(),
            nucleus: "o".to_string(),
            coda: "g".to_string()
        }]
    );
}

#[test]
fn vng() {
    let w: Word = Word::from("hong");
    assert_eq!(
        w.syllables,
        vec![Syllable {
            onset: "h".to_string(),
            nucleus: "o".to_string(),
            coda: "ng".to_string()
        }]
    );
}
