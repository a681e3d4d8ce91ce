use mnemonic::{generate_mnemonic, WordCount};
use std::collections::HashSet;

#[test]
fn generated_twelve_word_phrase() {
    let m = generate_mnemonic(WordCount::Twelve).unwrap();
    assert_eq!(m.words().len(), 12);
}

#[test]
fn generated_twenty_four_word_phrase() {
    let m = generate_mnemonic(WordCount::TwentyFour).unwrap();
    assert_eq!(m.words().len(), 24);
}

#[test]
fn generated_words_come_from_english_wordlist() {
    let wl = bip39::Language::English.word_list();
    let m = generate_mnemonic(WordCount::TwentyFour).unwrap();
    for w in m.words() {
        assert!(wl.iter().any(|x| x == w));
    }
}

#[test]
fn generated_phrase_parses_as_valid_bip39() {
    let m = generate_mnemonic(WordCount::Twelve).unwrap();
    assert!(bip39::Mnemonic::parse(m.phrase().as_str()).is_ok());
}

#[test]
fn random_source_never_repeats() {
    let mut seen: HashSet<String> = HashSet::new();
    for _ in 0..1000 {
        let m = generate_mnemonic(WordCount::Twelve).unwrap();
        assert!(seen.insert(m.phrase()));
    }
}
