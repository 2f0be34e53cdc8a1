//! The words that the rings carry: bit patterns of samples and of complex numbers.
use vstd::prelude::*;

verus! {

/// The word of a sample with the given bit pattern.
pub fn sample_word(bits: u32) -> (word: u64)
    ensures
        word == bits,
{
    bits as u64
}

/// The bit pattern of the sample in a word.
pub fn sample_bits(word: u64) -> (bits: u32)
    ensures
        bits == word as int % 0x1_0000_0000,
{
    (word % 0x1_0000_0000) as u32
}

/// The word of a complex number with the given bit patterns of its parts.
pub open spec fn complex_as_word(re: u32, im: u32) -> int {
    re * 0x1_0000_0000 + im
}

/// The word of a complex number with the given bit patterns of its parts.
pub fn complex_word(re: u32, im: u32) -> (word: u64)
    ensures
        word == complex_as_word(re, im),
{
    re as u64 * 0x1_0000_0000 + im as u64
}

/// The bit patterns of the real and the imaginary part in a word.
pub open spec fn word_as_complex(word: u64) -> (int, int) {
    (word as int / 0x1_0000_0000, word as int % 0x1_0000_0000)
}

/// The bit patterns of the real and the imaginary part in a word.
pub fn complex_bits(word: u64) -> (bits: (u32, u32))
    ensures
        bits.0 == word_as_complex(word).0,
        bits.1 == word_as_complex(word).1,
{
    ((word / 0x1_0000_0000) as u32, (word % 0x1_0000_0000) as u32)
}

/// What is read from a word is what was written into it.
pub proof fn law_words_keep_their_parts(re: u32, im: u32)
    ensures
        0 <= complex_as_word(re, im) <= u64::MAX,
        word_as_complex(complex_as_word(re, im) as u64) == (re as int, im as int),
        re as int % 0x1_0000_0000 == re,
{
}

/// A word gives back the sample that was written into it, whatever stands in its upper half.
pub proof fn law_sample_is_read_back(bits: u32, word: u64, other: u64, back: u32)
    requires
        call_ensures(sample_word, (bits,), word),
        other as int % 0x1_0000_0000 == word as int % 0x1_0000_0000,
        call_ensures(sample_bits, (other,), back),
    ensures
        back == bits,
{
}

/// A word gives back both parts of the complex number that was written into it, and different
/// numbers have different words.
pub proof fn law_complex_is_read_back(
    re: u32,
    im: u32,
    word: u64,
    bits: (u32, u32),
    other_re: u32,
    other_im: u32,
    other: u64,
)
    requires
        call_ensures(complex_word, (re, im), word),
        call_ensures(complex_bits, (word,), bits),
        call_ensures(complex_word, (other_re, other_im), other),
    ensures
        bits == (re, im),
        word == other <==> re == other_re && im == other_im,
        word == re * 0x1_0000_0000 + im,
{
}

/// Every word is that of the complex number that is read from it.
pub proof fn law_every_word_is_complex(word: u64, bits: (u32, u32), back: u64)
    requires
        call_ensures(complex_bits, (word,), bits),
        call_ensures(complex_word, (bits.0, bits.1), back),
    ensures
        back == word,
{
}

} // verus!
