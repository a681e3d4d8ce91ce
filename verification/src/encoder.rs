//! The mnemonic encoder: entropy bytes to a checksummed word sequence.
//!
//! The entropy bits, followed by the leading bits of the SHA-256 digest of
//! the entropy (the checksum), form one bit stream.  The stream is cut into
//! 11-bit groups, most significant bit first; each group indexes a fixed
//! 2048-entry wordlist, and the selected words, in order, are the mnemonic.

use vstd::prelude::*;
use crate::bits::{bit_of, two_pow, lemma_bit_of_is_bit, lemma_two_pow_monotonic};

verus! {

/// The SHA-256 digest of a byte sequence, as the `sha2` crate computes it.
pub uninterp spec fn sha256_of(bytes: Seq<u8>) -> Seq<u8>;

/// Relies on `sha2::Sha256` through the `Digest` trait: the digest is a pure
/// function of the input bytes, and a SHA-256 digest is always 32 bytes.
#[verifier::external_body]
fn sha256(bytes: &Vec<u8>) -> (r: Vec<u8>)
    ensures
        r@ == sha256_of(bytes@),
        r@.len() == 32,
{
    <sha2::Sha256 as sha2::Digest>::digest(bytes.as_slice()).to_vec()
}

/// Why a mnemonic could not be produced.
#[derive(Clone, Copy, Debug, PartialEq, Eq, Structural)]
pub enum Error {
    /// The entropy buffer is not one of the supported byte counts.
    InvalidEntropyLength,
    /// The secure random source failed to produce bytes.
    RandomSourceUnavailable,
    /// The wordlist does not have exactly 2048 entries.
    WordlistError,
}

/// The supported entropy lengths in bytes: the standard strengths.
pub open spec fn supported_entropy_len(n: nat) -> bool {
    n == 16 || n == 20 || n == 24 || n == 28 || n == 32
}

/// Checksum length in bits for `n` entropy bytes: one bit per 32 entropy bits.
pub open spec fn checksum_bits(n: nat) -> nat {
    n / 4
}

/// Length of the combined bit stream: all entropy bits, then the checksum.
pub open spec fn total_bits(n: nat) -> nat {
    8 * n + n / 4
}

/// Number of 11-bit groups in the stream, hence words in the mnemonic.
pub open spec fn word_count_of(n: nat) -> nat {
    total_bits(n) / 11
}

/// Bit `i` of the combined stream: the entropy bits first, then the leading
/// bits of the SHA-256 digest of the entropy.
pub open spec fn stream_bit(e: Seq<u8>, i: int) -> u8 {
    if i < 8 * e.len() {
        bit_of(e, i)
    } else {
        bit_of(sha256_of(e), i - 8 * e.len())
    }
}

/// The value of the first `k` bits of group `g`, most significant bit first.
pub open spec fn group_prefix(e: Seq<u8>, g: int, k: int) -> int
    decreases k,
{
    if k <= 0 {
        0
    } else {
        2 * group_prefix(e, g, k - 1) + stream_bit(e, 11 * g + (k - 1))
    }
}

/// The wordlist index of group `g`: its 11 stream bits read as an integer.
pub open spec fn group_index(e: Seq<u8>, g: int) -> int {
    group_prefix(e, g, 11)
}

/// The words of the mnemonic for entropy `e` over wordlist `wl`.
pub open spec fn mnemonic_words(e: Seq<u8>, wl: Seq<Seq<char>>) -> Seq<Seq<char>> {
    Seq::new(word_count_of(e.len()), |g: int| wl[group_index(e, g)])
}

/// What `encode` returns, as a function of its inputs.
pub open spec fn encode_result(e: Seq<u8>, wl: Seq<Seq<char>>) -> Result<Seq<Seq<char>>, Error> {
    if wl.len() != 2048 {
        Err(Error::WordlistError)
    } else if !supported_entropy_len(e.len()) {
        Err(Error::InvalidEntropyLength)
    } else {
        Ok(mnemonic_words(e, wl))
    }
}

/// A stream bit is 0 or 1, whatever the entropy and position.
pub proof fn lemma_stream_bit_is_bit(e: Seq<u8>, i: int)
    ensures
        stream_bit(e, i) == 0 || stream_bit(e, i) == 1,
{
    lemma_bit_of_is_bit(e, i);
    lemma_bit_of_is_bit(sha256_of(e), i - 8 * e.len());
}

proof fn lemma_two_pow_values()
    ensures
        two_pow(10) == 1024,
        two_pow(11) == 2048,
{
    assert(two_pow(0) == 1);
    assert(two_pow(1) == 2);
    assert(two_pow(2) == 4);
    assert(two_pow(3) == 8);
    assert(two_pow(4) == 16);
    assert(two_pow(5) == 32);
    assert(two_pow(6) == 64);
    assert(two_pow(7) == 128);
    assert(two_pow(8) == 256);
    assert(two_pow(9) == 512);
    assert(two_pow(10) == 1024);
    assert(two_pow(11) == 2048);
}

proof fn lemma_group_prefix_bound(e: Seq<u8>, g: int, k: int)
    ensures
        0 <= group_prefix(e, g, k) <= two_pow(k) - 1,
    decreases k,
{
    if k > 0 {
        lemma_group_prefix_bound(e, g, k - 1);
        lemma_stream_bit_is_bit(e, 11 * g + (k - 1));
    }
}

/// Every 11-bit group extracted during encoding lies in the wordlist index
/// range [0, 2047].
pub proof fn lemma_group_index_in_range(e: Seq<u8>, g: int)
    ensures
        0 <= group_index(e, g) < 2048,
{
    lemma_group_prefix_bound(e, g, 11);
    lemma_two_pow_values();
}

/// Bit `k` of a group index, counting bit 0 as the most significant of the
/// group's 11 bits.
pub open spec fn index_bit(idx: int, k: int) -> int {
    (idx / two_pow(10 - k)) % 2
}

proof fn lemma_group_prefix_bit(e: Seq<u8>, g: int, k: int, j: int)
    requires
        0 <= k < j <= 11,
    ensures
        (group_prefix(e, g, j) / two_pow(j - 1 - k)) % 2 == stream_bit(e, 11 * g + k),
    decreases j,
{
    let b = stream_bit(e, 11 * g + (j - 1)) as int;
    lemma_stream_bit_is_bit(e, 11 * g + (j - 1));
    let x = group_prefix(e, g, j - 1);
    lemma_group_prefix_bound(e, g, j - 1);
    if j == k + 1 {
        assert(two_pow(0) == 1);
        vstd::arithmetic::div_mod::lemma_fundamental_div_mod_converse(2 * x + b, 2, x, b);
        assert((2 * x + b) / 1 == 2 * x + b);
    } else {
        lemma_group_prefix_bit(e, g, k, j - 1);
        let m = two_pow(j - 2 - k);
        crate::bits::lemma_two_pow_positive(j - 2 - k);
        assert(two_pow(j - 1 - k) == 2 * m);
        vstd::arithmetic::div_mod::lemma_fundamental_div_mod(x, m);
        vstd::arithmetic::div_mod::lemma_mod_pos_bound(x, m);
        assert((2 * m) * (x / m) == 2 * (m * (x / m))) by (nonlinear_arith);
        vstd::arithmetic::div_mod::lemma_fundamental_div_mod_converse(
            2 * x + b,
            2 * m,
            x / m,
            2 * (x % m) + b,
        );
    }
}

/// The bit stream is recoverable from the word indices: bit `k` of group
/// `g` equals stream bit `11*g + k`.
pub proof fn lemma_group_bits_recoverable(e: Seq<u8>, g: int, k: int)
    requires
        0 <= k < 11,
    ensures
        index_bit(group_index(e, g), k) == stream_bit(e, 11 * g + k),
{
    lemma_group_prefix_bit(e, g, k, 11);
}

/// Round trip, entropy part: every entropy bit is recovered from the word
/// indices at its stream position.
pub proof fn lemma_entropy_bits_recoverable(e: Seq<u8>, i: int)
    requires
        0 <= i < 8 * e.len(),
    ensures
        index_bit(group_index(e, i / 11), i % 11) == bit_of(e, i),
{
    vstd::arithmetic::div_mod::lemma_fundamental_div_mod(i, 11);
    vstd::arithmetic::div_mod::lemma_mod_pos_bound(i, 11);
    lemma_group_bits_recoverable(e, i / 11, i % 11);
}

/// Round trip, checksum part: re-deriving the checksum from the entropy and
/// comparing it with the trailing bits recovered from the word indices must
/// match: the bit recovered at stream position `8*len + j` equals bit `j`
/// of the SHA-256 digest of the entropy.
pub proof fn lemma_checksum_round_trip(e: Seq<u8>, j: int)
    requires
        0 <= j < checksum_bits(e.len()),
    ensures
        index_bit(group_index(e, (8 * e.len() + j) / 11), (8 * e.len() + j) % 11) == bit_of(
            sha256_of(e),
            j,
        ),
{
    let i = 8 * e.len() + j;
    vstd::arithmetic::div_mod::lemma_fundamental_div_mod(i, 11);
    vstd::arithmetic::div_mod::lemma_mod_pos_bound(i, 11);
    lemma_group_bits_recoverable(e, i / 11, i % 11);
}

/// Determinism: the encoder's result is a function of the entropy and the
/// wordlist alone, so any two results of the same inputs are equal.
pub proof fn lemma_encode_deterministic(
    e: Seq<u8>,
    wl: Seq<Seq<char>>,
    r1: Result<Seq<Seq<char>>, Error>,
    r2: Result<Seq<Seq<char>>, Error>,
)
    requires
        r1 == encode_result(e, wl),
        r2 == encode_result(e, wl),
    ensures
        r1 == r2,
{
}

/// Reading a bit of `e + d` is reading a bit of `e`, or of `d` past the end
/// of `e`.
proof fn lemma_bit_of_append(e: Seq<u8>, d: Seq<u8>, i: int)
    requires
        0 <= i < 8 * (e.len() + d.len()),
    ensures
        bit_of(e + d, i) == if i < 8 * e.len() {
            bit_of(e, i)
        } else {
            bit_of(d, i - 8 * e.len())
        },
{
    let n = e.len() as int;
    if i < 8 * n {
        assert(i / 8 < n);
        assert((e + d)[i / 8] == e[i / 8]);
    } else {
        let j = i - 8 * n;
        assert(j / 8 == i / 8 - n && j % 8 == i % 8) by {
            vstd::arithmetic::div_mod::lemma_fundamental_div_mod(i, 8);
            vstd::arithmetic::div_mod::lemma_fundamental_div_mod_converse(
                j,
                8,
                i / 8 - n,
                i % 8,
            );
        };
        assert(n <= i / 8 < n + d.len());
        assert((e + d)[i / 8] == d[i / 8 - n]);
    }
}

/// A mnemonic: an ordered sequence of dictionary words.
pub struct Mnemonic {
    words: Vec<String>,
}

impl View for Mnemonic {
    type V = Seq<Seq<char>>;

    closed spec fn view(&self) -> Seq<Seq<char>> {
        self.words.deep_view()
    }
}

/// Words joined by single spaces: the display form of a mnemonic.
pub open spec fn joined(ws: Seq<Seq<char>>) -> Seq<char>
    decreases ws.len(),
{
    if ws.len() == 0 {
        Seq::empty()
    } else if ws.len() == 1 {
        ws[0]
    } else {
        joined(ws.drop_last()) + seq![' '] + ws.last()
    }
}

impl Mnemonic {
    /// The words of the mnemonic, in order.
    pub fn words(&self) -> (r: &Vec<String>)
        ensures
            r.deep_view() == self@,
    {
        &self.words
    }

    /// The display form of the mnemonic: its words joined by single spaces.
    pub fn phrase(&self) -> (r: String)
        ensures
            r@ == joined(self@),
    {
        let mut s = String::new();
        let mut i: usize = 0;
        while i < self.words.len()
            invariant
                i <= self.words@.len(),
                self@.len() == self.words@.len(),
                s@ == joined(self@.take(i as int)),
            decreases self.words@.len() - i,
        {
            proof {
                reveal_strlit(" ");
            }
            if i > 0 {
                s.append(" ");
            }
            s.append(self.words[i].as_str());
            proof {
                let prev = self@.take(i as int);
                let cur = self@.take(i as int + 1);
                assert(cur.drop_last() =~= prev);
                assert(cur.last() == self@[i as int]);
                assert(self@[i as int] == self.words@[i as int]@);
                if i == 0 {
                    assert(s@ =~= cur[0]);
                    assert(joined(cur) == cur[0]);
                } else {
                    assert(joined(cur) == joined(prev) + seq![' '] + cur.last());
                    assert(s@ =~= joined(prev) + seq![' '] + cur.last());
                }
            }
            i = i + 1;
        }
        proof {
            assert(self@.take(self.words@.len() as int) =~= self@);
        }
        s
    }
}

/// Encode entropy bytes as a mnemonic over the given wordlist.
///
/// The wordlist must have exactly 2048 entries and the entropy one of the
/// supported byte counts; each failure is reported by its own error and
/// nothing is produced.  On success the words are exactly the 11-bit groups
/// of the entropy-plus-checksum bit stream, looked up in the wordlist.
pub fn encode(entropy: &Vec<u8>, wordlist: &Vec<String>) -> (r: Result<Mnemonic, Error>)
    ensures
        (match r {
            Ok(m) => encode_result(entropy@, wordlist.deep_view()) == Ok::<
                Seq<Seq<char>>,
                Error,
            >(m@),
            Err(e) => encode_result(entropy@, wordlist.deep_view()) == Err::<
                Seq<Seq<char>>,
                Error,
            >(e),
        }),
        r is Ok <==> (wordlist@.len() == 2048 && supported_entropy_len(entropy@.len())),
{
    if wordlist.len() != 2048 {
        return Err(Error::WordlistError);
    }
    let n = entropy.len();
    if !(n == 16 || n == 20 || n == 24 || n == 28 || n == 32) {
        return Err(Error::InvalidEntropyLength);
    }
    let digest = sha256(entropy);

    // The combined buffer: entropy bytes, then the digest bytes.
    let mut buf: Vec<u8> = Vec::new();
    let mut i: usize = 0;
    while i < n
        invariant
            n == entropy@.len(),
            i <= n,
            buf@ == entropy@.take(i as int),
        decreases n - i,
    {
        buf.push(entropy[i]);
        i = i + 1;
    }
    assert(buf@ =~= entropy@);
    let mut j: usize = 0;
    while j < digest.len()
        invariant
            j <= digest@.len(),
            buf@ == entropy@ + digest@.take(j as int),
        decreases digest@.len() - j,
    {
        buf.push(digest[j]);
        j = j + 1;
    }
    assert(buf@ =~= entropy@ + digest@);

    let n_words = (n * 8 + n / 4) / 11;
    assert(n_words == word_count_of(entropy@.len()));
    assert(11 * (n_words as int) == total_bits(entropy@.len()));

    let mut out: Vec<String> = Vec::new();
    let mut g: usize = 0;
    while g < n_words
        invariant
            n == entropy@.len(),
            supported_entropy_len(entropy@.len()),
            digest@ == sha256_of(entropy@),
            digest@.len() == 32,
            buf@ == entropy@ + digest@,
            n_words == word_count_of(entropy@.len()),
            11 * (n_words as int) == total_bits(entropy@.len()),
            wordlist@.len() == 2048,
            g <= n_words,
            out@.len() == g,
            forall|t: int|
                0 <= t < g ==> out@[t]@ == wordlist.deep_view()[group_index(entropy@, t)],
        decreases n_words - g,
    {
        let mut idx: u16 = 0;
        let mut k: usize = 0;
        while k < 11
            invariant
                n == entropy@.len(),
                supported_entropy_len(entropy@.len()),
                digest@ == sha256_of(entropy@),
                digest@.len() == 32,
                buf@ == entropy@ + digest@,
                n_words == word_count_of(entropy@.len()),
                11 * (n_words as int) == total_bits(entropy@.len()),
                g < n_words,
                k <= 11,
                idx == group_prefix(entropy@, g as int, k as int),
                idx < two_pow(k as int),
            decreases 11 - k,
        {
            let pos = g * 11 + k;
            assert(pos < total_bits(entropy@.len()));
            assert(8 * buf@.len() >= total_bits(entropy@.len()));
            let byte = buf[pos / 8];
            let sh = 7 - (pos % 8);
            let b = (byte >> (sh as u8)) & 1;
            proof {
                assert(b == bit_of(buf@, pos as int));
                lemma_bit_of_append(entropy@, digest@, pos as int);
                assert(b == stream_bit(entropy@, pos as int));
                lemma_stream_bit_is_bit(entropy@, pos as int);
                lemma_two_pow_monotonic(k as int, 10);
                lemma_two_pow_values();
            }
            idx = idx * 2 + (b as u16);
            k = k + 1;
        }
        proof {
            lemma_group_index_in_range(entropy@, g as int);
        }
        assert(idx == group_index(entropy@, g as int));
        let word = wordlist[idx as usize].clone();
        out.push(word);
        g = g + 1;
    }
    let m = Mnemonic { words: out };
    proof {
        assert(m@ =~= mnemonic_words(entropy@, wordlist.deep_view()));
    }
    Ok(m)
}

} // verus!
