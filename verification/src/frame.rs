//! How the frame buffer's words become the bytes that the panel reads.
//!
//! The panel takes eight pixels per byte, the first of them in the most
//! significant bit; the frame buffer keeps pixel `i` in bit `i % BITS` of
//! word `i / BITS`. Each word is therefore sent as its bytes from the
//! lowest to the highest, each byte with its bits in reverse order.

use vstd::prelude::*;
use crate::bitset::{padding_clear, word_bit, word_bit_at, words_for, words_hold};

verus! {

/// Bit `j` of a byte, bit 0 the least significant.
pub open spec fn byte_bit(b: u8, j: int) -> bool {
    (b >> (j as u8)) & 1u8 == 1u8
}

/// Pixel `j` (0 to 7) of a byte as the panel reads it: bit `7 - j`.
pub open spec fn byte_pixel(b: u8, j: int) -> bool {
    byte_bit(b, 7 - j)
}

/// `b` with its bit order reversed: bit `7 - j` of the result is bit `j`
/// of `b`.
pub fn reverse_byte(b: u8) -> (r: u8)
    ensures
        forall|j: int| 0 <= j < 8 ==> #[trigger] byte_pixel(r, j) == byte_bit(b, j),
{
    let r = ((b & 0x01u8) << 7u8) | ((b & 0x02u8) << 5u8) | ((b & 0x04u8) << 3u8) | ((b & 0x08u8) << 1u8)
        | ((b & 0x10u8) >> 1u8) | ((b & 0x20u8) >> 3u8) | ((b & 0x40u8) >> 5u8) | ((b & 0x80u8) >> 7u8);
    assert forall|j: int| 0 <= j < 8 implies #[trigger] byte_pixel(r, j) == byte_bit(b, j) by {
        let ju = j as u8;
        assert(((r >> ((7u8 - ju) as u8)) & 1u8 == 1u8) == ((b >> ju) & 1u8 == 1u8)) by (bit_vector)
            requires
                ju < 8,
                r == ((b & 0x01u8) << 7u8) | ((b & 0x02u8) << 5u8) | ((b & 0x04u8) << 3u8)
                    | ((b & 0x08u8) << 1u8) | ((b & 0x10u8) >> 1u8) | ((b & 0x20u8) >> 3u8)
                    | ((b & 0x40u8) >> 5u8) | ((b & 0x80u8) >> 7u8);
        assert((7 - j) as u8 == ((7u8 - ju) as u8));
    }
    r
}

/// Two bytes whose eight pixels agree are the same byte.
proof fn lemma_byte_from_pixels(a: u8, b: u8)
    requires
        forall|j: int| 0 <= j < 8 ==> #[trigger] byte_pixel(a, j) == byte_pixel(b, j),
    ensures
        a == b,
{
    assert(byte_pixel(a, 0) == byte_pixel(b, 0));
    assert(byte_pixel(a, 1) == byte_pixel(b, 1));
    assert(byte_pixel(a, 2) == byte_pixel(b, 2));
    assert(byte_pixel(a, 3) == byte_pixel(b, 3));
    assert(byte_pixel(a, 4) == byte_pixel(b, 4));
    assert(byte_pixel(a, 5) == byte_pixel(b, 5));
    assert(byte_pixel(a, 6) == byte_pixel(b, 6));
    assert(byte_pixel(a, 7) == byte_pixel(b, 7));
    assert(a == b) by (bit_vector)
        requires
            ((a >> 7u8) & 1u8 == 1u8) == ((b >> 7u8) & 1u8 == 1u8),
            ((a >> 6u8) & 1u8 == 1u8) == ((b >> 6u8) & 1u8 == 1u8),
            ((a >> 5u8) & 1u8 == 1u8) == ((b >> 5u8) & 1u8 == 1u8),
            ((a >> 4u8) & 1u8 == 1u8) == ((b >> 4u8) & 1u8 == 1u8),
            ((a >> 3u8) & 1u8 == 1u8) == ((b >> 3u8) & 1u8 == 1u8),
            ((a >> 2u8) & 1u8 == 1u8) == ((b >> 2u8) & 1u8 == 1u8),
            ((a >> 1u8) & 1u8 == 1u8) == ((b >> 1u8) & 1u8 == 1u8),
            ((a >> 0u8) & 1u8 == 1u8) == ((b >> 0u8) & 1u8 == 1u8);
}

/// Bytes in one frame buffer word.
pub open spec fn bytes_per_word() -> nat {
    (usize::BITS / 8) as nat
}

/// Byte `k` carries bits `8k .. 8k + 8` of the word as pixels 0 to 7.
pub open spec fn carries_word_byte(b: u8, word: usize, k: int) -> bool {
    forall|j: int| 0 <= j < 8 ==> #[trigger] byte_pixel(b, j) == word_bit_at(word, 8 * k + j)
}

/// Byte `k` sent for `word`: the byte whose pixels 0 to 7 are bits
/// `8k .. 8k + 8` of the word.
pub open spec fn word_byte(word: usize, k: int) -> u8 {
    choose|b: u8| carries_word_byte(b, word, k)
}

/// The bytes sent for `word`.
pub open spec fn word_bytes_spec(word: usize) -> Seq<u8> {
    Seq::new(bytes_per_word(), |k: int| word_byte(word, k))
}

proof fn lemma_extract_bit(word: usize, s: usize, j: u8)
    by (bit_vector)
    requires
        j < 8,
        s + (j as usize) < usize::BITS,
    ensures
        ((((word >> s) & 0xffusize) as u8 >> j) & 1u8 == 1u8) == ((word >> (s + (j as usize))) & 1usize == 1usize),
{
}

/// The byte of bits `8k .. 8k + 8` of `word`, reversed, carries them;
/// and it is the only byte that does.
proof fn lemma_word_byte(word: usize, k: int, b: u8)
    requires
        0 <= k < bytes_per_word(),
        forall|j: int| 0 <= j < 8 ==> #[trigger] byte_pixel(b, j)
            == byte_bit(((word >> ((8 * k) as usize)) & 0xffusize) as u8, j),
    ensures
        carries_word_byte(b, word, k),
        word_byte(word, k) == b,
{
    assert(usize::BITS == 32 || usize::BITS == 64);
    let s = (8 * k) as usize;
    assert forall|j: int| 0 <= j < 8 implies #[trigger] byte_pixel(b, j) == word_bit_at(word, 8 * k + j) by {
        lemma_extract_bit(word, s, j as u8);
        assert(byte_bit(((word >> s) & 0xffusize) as u8, j) == word_bit_at(word, 8 * k + j));
    }
    assert(carries_word_byte(b, word, k));
    let c = word_byte(word, k);
    assert(carries_word_byte(c, word, k));
    assert forall|j: int| 0 <= j < 8 implies #[trigger] byte_pixel(c, j) == byte_pixel(b, j) by {
        assert(byte_pixel(c, j) == word_bit_at(word, 8 * k + j));
    }
    lemma_byte_from_pixels(c, b);
}

/// The bytes sent for a frame buffer word: pixel `j` of byte `k` is bit
/// `8k + j` of the word. The same bytes, in the same order, as the
/// word's bits reversed and then written most significant byte first.
pub fn word_bytes(word: usize) -> (bytes: Vec<u8>)
    ensures
        bytes@ == word_bytes_spec(word),
{
    let n: u32 = usize::BITS / 8;
    let mut bytes: Vec<u8> = Vec::new();
    let mut k: u32 = 0;
    while k < n
        invariant
            n == usize::BITS / 8,
            k <= n,
            bytes@ == Seq::new(k as nat, |i: int| word_byte(word, i)),
        decreases n - k,
    {
        let byte = reverse_byte(((word >> (8 * k)) & 0xff) as u8);
        proof {
            lemma_word_byte(word, k as int, byte);
        }
        bytes.push(byte);
        k = k + 1;
        assert(bytes@ =~= Seq::new(k as nat, |i: int| word_byte(word, i)));
    }
    bytes
}

/// All bytes sent for a run of frame buffer words, word after word.
pub open spec fn frame_data(words: Seq<usize>) -> Seq<u8>
    decreases words.len(),
{
    if words.len() == 0 {
        Seq::empty()
    } else {
        frame_data(words.drop_last()) + word_bytes_spec(words.last())
    }
}

/// Pixel `j` of byte `k` sent for a word is bit `8k + j` of the word.
proof fn lemma_word_byte_pixel(word: usize, k: int, j: int)
    requires
        0 <= k < bytes_per_word(),
        0 <= j < 8,
    ensures
        byte_pixel(word_byte(word, k), j) == word_bit_at(word, 8 * k + j),
{
    let b = reverse_byte_of(((word >> ((8 * k) as usize)) & 0xffusize) as u8);
    lemma_word_byte(word, k, b);
}

/// A byte with the bits of `a` in reverse order, which the proofs use as
/// a witness.
proof fn reverse_byte_of(a: u8) -> (r: u8)
    ensures
        forall|j: int| 0 <= j < 8 ==> #[trigger] byte_pixel(r, j) == byte_bit(a, j),
{
    let r = ((a & 0x01u8) << 7u8) | ((a & 0x02u8) << 5u8) | ((a & 0x04u8) << 3u8) | ((a & 0x08u8) << 1u8)
        | ((a & 0x10u8) >> 1u8) | ((a & 0x20u8) >> 3u8) | ((a & 0x40u8) >> 5u8) | ((a & 0x80u8) >> 7u8);
    assert forall|j: int| 0 <= j < 8 implies #[trigger] byte_pixel(r, j) == byte_bit(a, j) by {
        let ju = j as u8;
        assert(((r >> ((7u8 - ju) as u8)) & 1u8 == 1u8) == ((a >> ju) & 1u8 == 1u8)) by (bit_vector)
            requires
                ju < 8,
                r == ((a & 0x01u8) << 7u8) | ((a & 0x02u8) << 5u8) | ((a & 0x04u8) << 3u8)
                    | ((a & 0x08u8) << 1u8) | ((a & 0x10u8) >> 1u8) | ((a & 0x20u8) >> 3u8)
                    | ((a & 0x40u8) >> 5u8) | ((a & 0x80u8) >> 7u8);
        assert((7 - j) as u8 == ((7u8 - ju) as u8));
    }
    r
}

/// Byte `k` of the bytes for word `q` stands at `q * bytes_per_word() + k`.
proof fn lemma_frame_data_index(words: Seq<usize>)
    ensures
        frame_data(words).len() == words.len() * bytes_per_word(),
        forall|q: int, k: int| 0 <= q < words.len() && 0 <= k < bytes_per_word()
            ==> #[trigger] frame_data(words)[q * bytes_per_word() + k] == word_byte(words[q], k),
    decreases words.len(),
{
    if words.len() > 0 {
        let init = words.drop_last();
        lemma_frame_data_index(init);
        let n = bytes_per_word() as int;
        assert(frame_data(words).len() == words.len() * bytes_per_word()) by (nonlinear_arith)
            requires
                frame_data(words).len() == init.len() * bytes_per_word() + bytes_per_word(),
                init.len() == words.len() - 1;
        assert forall|q: int, k: int| 0 <= q < words.len() && 0 <= k < bytes_per_word()
            implies #[trigger] frame_data(words)[q * bytes_per_word() + k] == word_byte(words[q], k) by {
            if q < init.len() {
                assert(q * n + k < init.len() * n) by (nonlinear_arith)
                    requires 0 <= q < init.len(), 0 <= k < n;
                assert(words[q] == init[q]);
            } else {
                assert(q * n == init.len() * n);
            }
        }
    }
}

proof fn lemma_words_cover(w: int, len: int)
    requires
        len >= 0,
        w == words_for(len as nat),
    ensures
        len <= 8 * (w * bytes_per_word()),
{
    assert(usize::BITS == 32 || usize::BITS == 64);
    if usize::BITS == 32 {
        assert(w == (len + 31) / 32);
        assert(len <= 32 * w) by (nonlinear_arith)
            requires w == (len + 31) / 32, len >= 0;
        assert(bytes_per_word() == 4);
    } else {
        assert(w == (len + 63) / 64);
        assert(len <= 64 * w) by (nonlinear_arith)
            requires w == (len + 63) / 64, len >= 0;
        assert(bytes_per_word() == 8);
    }
}

/// The bytes sent for a run of words carry the words' bits in order,
/// eight per byte, the first of each eight in the most significant bit:
/// bit `i` of the run is bit `7 - i % 8` of byte `i / 8`.
proof fn lemma_frame_data_bits(words: Seq<usize>)
    ensures
        8 * frame_data(words).len() == words.len() * usize::BITS,
        forall|i: int| 0 <= i < 8 * frame_data(words).len()
            ==> #[trigger] byte_pixel(frame_data(words)[i / 8], i % 8) == word_bit(words, i),
{
    lemma_frame_data_index(words);
    let b = usize::BITS as int;
    let n = bytes_per_word() as int;
    assert(b == 32 || b == 64);
    assert(8 * n == b);
    assert(8 * frame_data(words).len() == words.len() * usize::BITS) by (nonlinear_arith)
        requires
            frame_data(words).len() == words.len() * n,
            8 * n == b,
            b == usize::BITS;
    assert forall|i: int| 0 <= i < 8 * frame_data(words).len()
        implies #[trigger] byte_pixel(frame_data(words)[i / 8], i % 8) == word_bit(words, i) by {
        let q = i / b;
        let r = i % b;
        assert(0 <= q < words.len() && i / 8 == q * n + r / 8 && i % 8 == r % 8 && 8 * (r / 8) + r % 8 == r) by {
            if b == 32 {
                assert(n == 4);
            } else {
                assert(n == 8);
            }
        }
        lemma_word_byte_pixel(words[q], r / 8, r % 8);
    }
}

/// The bytes sent for the frame buffer's words carry its pixels in order,
/// eight per byte, the first of each eight in the most significant bit:
/// pixel `i` is bit `7 - i % 8` of byte `i / 8`. Where the words are
/// clear past the last pixel, so are the bytes.
pub proof fn lemma_frame_data_holds_pixels(words: Seq<usize>, bits: Seq<bool>)
    requires
        words_hold(words, bits),
    ensures
        frame_data(words).len() == words.len() * bytes_per_word(),
        bits.len() <= 8 * frame_data(words).len(),
        forall|i: int| 0 <= i < bits.len() ==> #[trigger] byte_pixel(frame_data(words)[i / 8], i % 8) == bits[i],
        padding_clear(words, bits.len()) ==> forall|i: int| bits.len() <= i < 8 * frame_data(words).len()
            ==> !#[trigger] byte_pixel(frame_data(words)[i / 8], i % 8),
{
    lemma_frame_data_index(words);
    lemma_frame_data_bits(words);
    lemma_words_cover(words.len() as int, bits.len() as int);
    assert forall|i: int| 0 <= i < bits.len() implies #[trigger] byte_pixel(frame_data(words)[i / 8], i % 8) == bits[i] by {
        assert(word_bit(words, i) == bits[i]);
    }
    if padding_clear(words, bits.len()) {
        assert forall|i: int| bits.len() <= i < 8 * frame_data(words).len()
            implies !#[trigger] byte_pixel(frame_data(words)[i / 8], i % 8) by {
            assert(!word_bit(words, i));
        }
    }
}

} // verus!
