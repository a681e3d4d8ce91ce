//! Security levels and the top-level phrase generator.

use vstd::prelude::*;
use crate::encoder::{encode, encode_result, mnemonic_words, Error, Mnemonic};

verus! {

/// A supported phrase strength: how many words the mnemonic will have.
pub enum WordCount {
    Twelve,
    TwentyFour,
}

impl WordCount {
    /// The number of entropy bytes that this strength requires.
    pub open spec fn entropy_bytes_spec(&self) -> nat {
        match self {
            WordCount::Twelve => 16,
            WordCount::TwentyFour => 32,
        }
    }

    /// The number of words in a mnemonic of this strength.
    pub open spec fn words_spec(&self) -> nat {
        match self {
            WordCount::Twelve => 12,
            WordCount::TwentyFour => 24,
        }
    }

    /// Sizing policy: maps this security level to its entropy length in bytes.
    pub fn entropy_bytes(&self) -> (n: usize)
        ensures
            n == self.entropy_bytes_spec(),
    {
        match self {
            WordCount::Twelve => 16,
            WordCount::TwentyFour => 32,
        }
    }
}

/// For every supported security level, encoding entropy of the level's byte
/// length succeeds and yields a mnemonic with exactly the level's word count.
pub proof fn lemma_word_count_matches_level(wc: WordCount, e: Seq<u8>, wl: Seq<Seq<char>>)
    requires
        e.len() == wc.entropy_bytes_spec(),
        wl.len() == 2048,
    ensures
        encode_result(e, wl) matches Ok(ws) && ws.len() == wc.words_spec(),
{
    assert(mnemonic_words(e, wl).len() == wc.words_spec());
}

/// Word `i` of the standard English wordlist, as the `bip39` crate ships it.
pub uninterp spec fn english_word(i: int) -> Seq<char>;

/// The standard English wordlist as a sequence of words.
pub open spec fn english_wordlist_spec() -> Seq<Seq<char>> {
    Seq::new(2048, |i: int| english_word(i))
}

/// Relies on `bip39::Language::English::word_list`: a fixed array of exactly
/// 2048 words, the same on every call.
#[verifier::external_body]
fn english_wordlist() -> (r: Vec<String>)
    ensures
        r@.len() == 2048,
        forall|i: int| 0 <= i < 2048 ==> #[trigger] r@[i]@ == english_word(i),
{
    bip39::Language::English.word_list().iter().map(|w| w.to_string()).collect()
}

/// Relies on `rand::rngs::SysRng`, the system's secure random source through
/// `getrandom`: `try_fill_bytes` either fills the whole buffer or reports
/// failure; nothing is promised of the bytes themselves.
#[verifier::external_body]
fn fill_random(n: usize) -> (r: Result<Vec<u8>, ()>)
    ensures
        r matches Ok(b) ==> b@.len() == n,
{
    let mut buf = vec![0u8; n];
    match rand::TryRng::try_fill_bytes(&mut rand::rngs::SysRng, buf.as_mut_slice()) {
        Ok(()) => Ok(buf),
        Err(_) => Err(()),
    }
}

/// Generate a mnemonic of the requested strength from the system's secure
/// random source and the standard English wordlist.
///
/// Whatever entropy came back from the random source, the result is its
/// encoding; only a failure of the source itself is reported as an error.
pub fn generate_mnemonic(word_count: WordCount) -> (r: Result<Mnemonic, Error>)
    ensures
        (r matches Ok(m) ==> exists|e: Seq<u8>|
            e.len() == word_count.entropy_bytes_spec() && m@ == mnemonic_words(
                e,
                english_wordlist_spec(),
            )),
        (r matches Ok(m) ==> m@.len() == word_count.words_spec()),
        (r matches Err(err) ==> err == Error::RandomSourceUnavailable),
{
    let n = word_count.entropy_bytes();
    let entropy = match fill_random(n) {
        Ok(b) => b,
        Err(_) => {
            return Err(Error::RandomSourceUnavailable);
        },
    };
    let wordlist = english_wordlist();
    proof {
        assert(wordlist.deep_view() =~= english_wordlist_spec());
    }
    match encode(&entropy, &wordlist) {
        Ok(m) => {
            proof {
                let e0 = entropy@;
                assert(e0.len() == word_count.entropy_bytes_spec() && m@ == mnemonic_words(
                    e0,
                    english_wordlist_spec(),
                ));
            }
            Ok(m)
        },
        Err(_) => {
            proof {
                assert(false);
            }
            Err(Error::WordlistError)
        },
    }
}

} // verus!
