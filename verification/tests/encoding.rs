use mnemonic::{encode, Error, WordCount};

fn english() -> Vec<String> {
    bip39::Language::English.word_list().iter().map(|w| w.to_string()).collect()
}

fn round_trip(entropy: &[u8]) {
    let wl = english();
    let m = encode(&entropy.to_vec(), &wl).unwrap();
    let words = m.words();
    let n = entropy.len();
    let cs_bits = n / 4;
    let total = n * 8 + cs_bits;

    let mut bits: Vec<u8> = Vec::new();
    for w in words {
        let idx = wl.iter().position(|x| x == w).unwrap();
        assert!(idx < 2048);
        for k in 0..11 {
            bits.push(((idx >> (10 - k)) & 1) as u8);
        }
    }
    assert_eq!(bits.len(), total);

    let mut decoded = vec![0u8; n];
    for i in 0..n * 8 {
        decoded[i / 8] |= bits[i] << (7 - (i % 8));
    }
    assert_eq!(decoded.as_slice(), entropy);

    let digest = <sha2::Sha256 as sha2::Digest>::digest(entropy);
    for j in 0..cs_bits {
        let want = (digest[j / 8] >> (7 - (j % 8))) & 1;
        assert_eq!(bits[n * 8 + j], want);
    }
}

#[test]
fn twelve_words_from_sixteen_bytes() {
    let m = encode(&vec![0xa5u8; 16], &english()).unwrap();
    assert_eq!(m.words().len(), 12);
    assert_eq!(WordCount::Twelve.entropy_bytes(), 16);
}

#[test]
fn twenty_four_words_from_thirty_two_bytes() {
    let m = encode(&vec![0x5au8; 32], &english()).unwrap();
    assert_eq!(m.words().len(), 24);
    assert_eq!(WordCount::TwentyFour.entropy_bytes(), 32);
}

#[test]
fn intermediate_strengths_word_counts() {
    for (bytes, words) in [(20usize, 15usize), (24, 18), (28, 21)] {
        let m = encode(&vec![0x11u8; bytes], &english()).unwrap();
        assert_eq!(m.words().len(), words);
    }
}

#[test]
fn encode_is_deterministic() {
    let entropy = vec![0x3cu8; 32];
    let wl = english();
    let a = encode(&entropy, &wl).unwrap();
    let b = encode(&entropy, &wl).unwrap();
    assert_eq!(a.phrase(), b.phrase());
    assert_eq!(a.words(), b.words());
}

#[test]
fn checksum_round_trip_sixteen_bytes() {
    round_trip(&[0xc7u8; 16]);
}

#[test]
fn checksum_round_trip_thirty_two_bytes() {
    round_trip(&[0x7fu8; 32]);
}

#[test]
fn fifteen_bytes_rejected() {
    let r = encode(&vec![0u8; 15], &english());
    assert_eq!(r.err(), Some(Error::InvalidEntropyLength));
}

#[test]
fn other_unsupported_lengths_rejected() {
    for bytes in [0usize, 1, 17, 33, 64] {
        let r = encode(&vec![0u8; bytes], &english());
        assert_eq!(r.err(), Some(Error::InvalidEntropyLength));
    }
}

#[test]
fn short_wordlist_rejected() {
    let mut wl = english();
    wl.pop();
    let r = encode(&vec![0u8; 16], &wl);
    assert_eq!(r.err(), Some(Error::WordlistError));
}

#[test]
fn zero_entropy_reference_vector() {
    let m = encode(&vec![0u8; 32], &english()).unwrap();
    let mut want = String::new();
    for _ in 0..23 {
        want.push_str("abandon ");
    }
    want.push_str("art");
    assert_eq!(m.phrase(), want);
}

#[test]
fn zero_entropy_twelve_word_vector() {
    let m = encode(&vec![0u8; 16], &english()).unwrap();
    let mut want = String::new();
    for _ in 0..11 {
        want.push_str("abandon ");
    }
    want.push_str("about");
    assert_eq!(m.phrase(), want);
}

#[test]
fn matches_bip39_crate() {
    for entropy in [vec![0x42u8; 16], vec![0xeeu8; 32], vec![0x09u8; 20]] {
        let ours = encode(&entropy, &english()).unwrap().phrase();
        let theirs = bip39::Mnemonic::from_entropy(&entropy).unwrap().to_string();
        assert_eq!(ours, theirs);
    }
}
