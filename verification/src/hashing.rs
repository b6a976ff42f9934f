//! Content hashes: the 64-bit digest that keys the keyword index and the
//! sixteen-digit hexadecimal form of it that keys the embedding cache.

use vstd::prelude::*;
use vstd::string::*;

verus! {

/// The XXH3 64-bit digest (seed 0, default secret) of a byte string.
pub uninterp spec fn xxh3_digest(bytes: Seq<u8>) -> u64;

/// `xxhash_rust::xxh3::xxh3_64` is a pure function of its input bytes; its
/// result is named `xxh3_digest` and nothing more is claimed of it.
pub assume_specification[ xxhash_rust::xxh3::xxh3_64 ](input: &[u8]) -> (digest: u64)
    ensures
        digest == xxh3_digest(input@),
;

/// The digest of a word, taken over its UTF-8 encoding.
pub open spec fn word_digest(word: Seq<char>) -> u64 {
    xxh3_digest(vstd::utf8::encode_utf8(word))
}

/// Hashes a word for the keyword index.
pub fn word_hash(word: &str) -> (h: u64)
    ensures
        h == word_digest(word@),
{
    xxhash_rust::xxh3::xxh3_64(word.as_bytes())
}

/// The sixteen lowercase hexadecimal digits.
pub open spec fn hex_digits() -> Seq<char> {
    "0123456789abcdef"@
}

/// A 64-bit value written as sixteen lowercase hexadecimal digits, most
/// significant first, padded with zeros.
pub open spec fn hex16(value: u64) -> Seq<char> {
    Seq::new(16, |i: int| hex_digits()[((value >> ((60 - 4 * i) as u64)) & 0xf) as int])
}

/// Writes a 64-bit value as sixteen hexadecimal digits.
pub fn to_hex16(value: u64) -> (text: String)
    ensures
        text@ == hex16(value),
{
    let digits = "0123456789abcdef";
    proof {
        reveal_strlit("0123456789abcdef");
    }
    let mut text = String::new();
    let mut i: u64 = 0;
    while i < 16
        invariant
            i <= 16,
            digits@ == hex_digits(),
            digits@.len() == 16,
            text@.len() == i,
            forall|j: int| 0 <= j < i ==> text@[j] == #[trigger] hex16(value)[j],
        decreases 16 - i,
    {
        let shift: u64 = 60 - 4 * i;
        let nibble: u64 = (value >> shift) & 0xf;
        assert(nibble < 16) by (bit_vector)
            requires
                nibble == (value >> shift) & 0xf,
        ;
        let digit = digits.get_char(nibble as usize);
        text.push(digit);
        i += 1;
    }
    text
}

/// The cache key of a text: its digest in hexadecimal.
pub open spec fn text_key(text: Seq<char>) -> Seq<char> {
    hex16(word_digest(text))
}

/// Computes the cache key of a text.
pub fn text_hash(text: &str) -> (key: String)
    ensures
        key@ == text_key(text@),
{
    to_hex16(word_hash(text))
}

} // verus!
