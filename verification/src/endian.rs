//! Little-endian words in a byte buffer.
use vstd::prelude::*;

verus! {

/// The 32-bit word whose little-endian bytes are `bytes[at..at + 4]`.
pub open spec fn le_word(bytes: Seq<u8>, at: int) -> u32 {
    (bytes[at] as int + 0x100 * (bytes[at + 1] as int) + 0x1_0000 * (bytes[at + 2] as int)
        + 0x100_0000 * (bytes[at + 3] as int)) as u32
}

/// Byte `k` (0 is the least significant) of the little-endian form of `word`.
pub open spec fn le_byte(word: u32, k: int) -> u8 {
    if k == 0 {
        (word as int % 0x100) as u8
    } else if k == 1 {
        (word as int / 0x100 % 0x100) as u8
    } else if k == 2 {
        (word as int / 0x1_0000 % 0x100) as u8
    } else {
        (word as int / 0x100_0000 % 0x100) as u8
    }
}

/// The word with the bytes of `word` in reverse order.
pub open spec fn swapped(word: u32) -> u32 {
    (le_byte(word, 3) as int + 0x100 * (le_byte(word, 2) as int) + 0x1_0000 * (le_byte(
        word,
        1,
    ) as int) + 0x100_0000 * (le_byte(word, 0) as int)) as u32
}

/// `buf` with the four bytes from `at` replaced by the little-endian form of
/// `word`.
pub open spec fn with_word(buf: Seq<u8>, at: int, word: u32) -> Seq<u8> {
    Seq::new(
        buf.len(),
        |j: int|
            if at <= j < at + 4 {
                le_byte(word, j - at)
            } else {
                buf[j]
            },
    )
}

/// The `count` little-endian words that start at `buf[at]`.
pub open spec fn words_at(buf: Seq<u8>, at: int, count: nat) -> Seq<u32> {
    Seq::new(count, |i: int| le_word(buf, at + 4 * i))
}

/// `buf` with the bytes from `at` replaced by the little-endian form of
/// `words`, one word after the other.
pub open spec fn with_words(buf: Seq<u8>, at: int, words: Seq<u32>) -> Seq<u8> {
    Seq::new(
        buf.len(),
        |j: int|
            if at <= j < at + 4 * words.len() {
                le_byte(words[(j - at) / 4], (j - at) % 4)
            } else {
                buf[j]
            },
    )
}

proof fn lemma_compose(b0: u8, b1: u8, b2: u8, b3: u8)
    by (bit_vector)
    ensures
        (b0 as u32) | ((b1 as u32) << 8) | ((b2 as u32) << 16) | ((b3 as u32) << 24) == (b0 as u32)
            + 0x100 * (b1 as u32) + 0x1_0000 * (b2 as u32) + 0x100_0000 * (b3 as u32),
{
}

proof fn lemma_decompose(w: u32)
    by (bit_vector)
    ensures
        w & 0xff == w % 0x100,
        (w >> 8) & 0xff == w / 0x100 % 0x100,
        (w >> 16) & 0xff == w / 0x1_0000 % 0x100,
        (w >> 24) & 0xff == w / 0x100_0000 % 0x100,
{
}

proof fn lemma_bytes_of_sum(b0: u8, b1: u8, b2: u8, b3: u8)
    by (bit_vector)
    ensures
        ({
            let w = (b0 as u32) + 0x100 * (b1 as u32) + 0x1_0000 * (b2 as u32) + 0x100_0000 * (
            b3 as u32);
            &&& w <= 0xffff_ffff
            &&& w % 0x100 == b0
            &&& w / 0x100 % 0x100 == b1
            &&& w / 0x1_0000 % 0x100 == b2
            &&& w / 0x100_0000 % 0x100 == b3
        }),
{
}

proof fn lemma_sum_of_bytes(w: u32)
    by (bit_vector)
    ensures
        (w % 0x100) + 0x100 * (w / 0x100 % 0x100) + 0x1_0000 * (w / 0x1_0000 % 0x100) + 0x100_0000
            * (w / 0x100_0000 % 0x100) == w,
{
}

/// The bytes of a word put together from four bytes are those bytes.
pub proof fn lemma_bytes_of_word(bytes: Seq<u8>, at: int)
    ensures
        le_byte(le_word(bytes, at), 0) == bytes[at],
        le_byte(le_word(bytes, at), 1) == bytes[at + 1],
        le_byte(le_word(bytes, at), 2) == bytes[at + 2],
        le_byte(le_word(bytes, at), 3) == bytes[at + 3],
{
    lemma_bytes_of_sum(bytes[at], bytes[at + 1], bytes[at + 2], bytes[at + 3]);
}

/// A word is put together again from its four bytes.
pub proof fn lemma_word_of_bytes(bytes: Seq<u8>, at: int, word: u32)
    requires
        bytes[at] == le_byte(word, 0),
        bytes[at + 1] == le_byte(word, 1),
        bytes[at + 2] == le_byte(word, 2),
        bytes[at + 3] == le_byte(word, 3),
    ensures
        le_word(bytes, at) == word,
{
    lemma_sum_of_bytes(word);
}

/// Reading back a word that was written gives the word, and writing a word
/// that was read changes nothing.
pub proof fn lemma_word_round_trip(buf: Seq<u8>, at: int, word: u32)
    requires
        0 <= at,
        at + 4 <= buf.len(),
    ensures
        le_word(with_word(buf, at, word), at) == word,
        with_word(buf, at, le_word(buf, at)) == buf,
{
    lemma_word_of_bytes(with_word(buf, at, word), at, word);
    lemma_bytes_of_word(buf, at);
    assert(with_word(buf, at, le_word(buf, at)) =~= buf);
}

/// Reads the little-endian word at `buf[at..at + 4]`.
pub fn read_word(buf: &[u8], at: usize) -> (word: u32)
    requires
        at + 4 <= buf@.len(),
    ensures
        word == le_word(buf@, at as int),
{
    let b0 = buf[at];
    let b1 = buf[at + 1];
    let b2 = buf[at + 2];
    let b3 = buf[at + 3];
    proof {
        lemma_compose(b0, b1, b2, b3);
    }
    (b0 as u32) | ((b1 as u32) << 8) | ((b2 as u32) << 16) | ((b3 as u32) << 24)
}

/// The four little-endian bytes of `word`.
pub fn word_bytes(word: u32) -> (bytes: [u8; 4])
    ensures
        forall|k: int| 0 <= k < 4 ==> bytes@[k] == le_byte(word, k),
{
    proof {
        lemma_decompose(word);
    }
    [
        (word & 0xff) as u8,
        ((word >> 8) & 0xff) as u8,
        ((word >> 16) & 0xff) as u8,
        ((word >> 24) & 0xff) as u8,
    ]
}

/// Writes `word` in little-endian form to `buf[at..at + 4]`.
pub fn write_word(buf: &mut [u8], at: usize, word: u32)
    requires
        at + 4 <= old(buf)@.len(),
    ensures
        final(buf)@ == with_word(old(buf)@, at as int, word),
{
    let bytes = word_bytes(word);
    buf[at] = bytes[0];
    buf[at + 1] = bytes[1];
    buf[at + 2] = bytes[2];
    buf[at + 3] = bytes[3];
    assert(buf@ =~= with_word(old(buf)@, at as int, word));
}

/// Reverses the byte order of `word`.
pub fn swap_word(word: u32) -> (r: u32)
    ensures
        r == swapped(word),
{
    let b = word_bytes(word);
    proof {
        lemma_compose(b[3], b[2], b[1], b[0]);
    }
    (b[3] as u32) | ((b[2] as u32) << 8) | ((b[1] as u32) << 16) | ((b[0] as u32) << 24)
}

} // verus!
