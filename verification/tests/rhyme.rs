use syllabize_es::Word;

#[test]
fn agudo() {
    let word: Word = Word::from("pié");
    assert_eq!(word.rhyme(), "é");
}

#[test]
fn corta() {
    let word: Word = Word::from("y");
    assert_eq!(word.rhyme(), "y");
}

#[test]
fn invalida() {
    let word: Word = Word::from("nn");
    assert_eq!(word.rhyme(), "");
}

#[test]
fn agudo2() {
    let word: Word = Word::from("huir");
    assert_eq!(word.rhyme(), "ir");
}

#[test]
fn llano() {
    let word: Word = Word::from("ciento");
    assert_eq!(word.rhyme(), "ento");
}

#[test]
fn esdrujulo() {
    let word: Word = Word::from("esdrújulo");
    assert_eq!(word.rhyme(), "újulo");
}
