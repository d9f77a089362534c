//! Little-endian words: the one byte layout that every push block, request
//! block and upload image of the kit is written in.

use vstd::prelude::*;

verus! {

/// The four bytes of a word, lowest first.
pub open spec fn word_bytes(w: u32) -> Seq<u8> {
    seq![
        (w % 256) as u8,
        ((w / 256) % 256) as u8,
        ((w / 65536) % 256) as u8,
        (w / 16777216) as u8,
    ]
}

/// The word that four bytes spell, lowest first.
pub open spec fn word_value(b: Seq<u8>) -> int
    recommends
        b.len() == 4,
{
    b[0] + 256 * b[1] + 65536 * b[2] + 16777216 * b[3]
}

/// The bytes of a sequence of words, word after word.
pub open spec fn words_bytes(words: Seq<u32>) -> Seq<u8> {
    Seq::new(4 * words.len(), |i: int| word_bytes(words[i / 4])[i % 4])
}

/// The word at index `i` of a byte block.
pub open spec fn word_at(block: Seq<u8>, i: int) -> int {
    word_value(block.subrange(4 * i, 4 * i + 4))
}

/// The word of a signed value in two's complement.
pub open spec fn signed_word(t: i32) -> u32 {
    if t >= 0 {
        t as u32
    } else {
        (t + 0x1_0000_0000) as u32
    }
}

/// A word is spelled by its own four bytes.
pub proof fn lemma_word_round_trip(w: u32)
    ensures
        word_bytes(w).len() == 4,
        word_value(word_bytes(w)) == w,
{
}

/// Four bytes are the bytes of the word they spell.
pub proof fn lemma_bytes_round_trip(b: Seq<u8>)
    requires
        b.len() == 4,
    ensures
        0 <= word_value(b) <= u32::MAX,
        word_bytes(word_value(b) as u32) == b,
{
    let (b0, b1, b2, b3) = (b[0] as int, b[1] as int, b[2] as int, b[3] as int);
    let v = word_value(b);
    let q1 = b1 + 256 * b2 + 65536 * b3;
    let q2 = b2 + 256 * b3;
    assert(v == 256 * q1 + b0);
    assert(v / 256 == q1 && v % 256 == b0);
    assert(q1 == 256 * q2 + b1);
    assert(q1 / 256 == q2 && q1 % 256 == b1);
    assert(q2 / 256 == b3 && q2 % 256 == b2);
    assert(v == 65536 * q2 + (b0 + 256 * b1));
    assert(v / 65536 == q2);
    assert(v == 16777216 * b3 + (b0 + 256 * b1 + 65536 * b2));
    assert(v / 16777216 == b3);
    assert(word_bytes(v as u32) =~= b);
}

/// Reading word `i` of an encoded sequence gives that word back.
pub proof fn lemma_word_at(words: Seq<u32>, i: int)
    requires
        0 <= i < words.len(),
    ensures
        word_at(words_bytes(words), i) == words[i],
{
    let block = words_bytes(words);
    let four = block.subrange(4 * i, 4 * i + 4);
    assert forall|j: int| 0 <= j < 4 implies four[j] == word_bytes(words[i])[j] by {
        assert((4 * i + j) / 4 == i);
        assert((4 * i + j) % 4 == j);
    }
    assert(four =~= word_bytes(words[i]));
    lemma_word_round_trip(words[i]);
}

/// Every word of an encoded sequence reads back in its place.
pub proof fn law_words_read_back(words: Seq<u32>)
    ensures
        words_bytes(words).len() == 4 * words.len(),
        forall|i: int|
            0 <= i < words.len() ==> #[trigger] word_at(words_bytes(words), i) == words[i],
{
    assert forall|i: int| 0 <= i < words.len() implies #[trigger] word_at(words_bytes(words), i)
        == words[i] by {
        lemma_word_at(words, i);
    }
}

/// Words are stored lowest byte first, four bytes a word, in order: byte
/// `4 * i + j` of an encoded sequence is digit `j` of word `i` to base 256.
pub proof fn law_words_are_little_endian(words: Seq<u32>, i: int)
    requires
        0 <= i < words.len(),
    ensures
        words_bytes(words).len() == 4 * words.len(),
        words_bytes(words)[4 * i] + 256 * words_bytes(words)[4 * i + 1] + 65536 * words_bytes(
            words,
        )[4 * i + 2] + 16777216 * words_bytes(words)[4 * i + 3] == words[i],
{
    assert forall|j: int| 0 <= j < 4 implies #[trigger] words_bytes(words)[4 * i + j]
        == word_bytes(words[i])[j] by {
        assert((4 * i + j) / 4 == i);
        assert((4 * i + j) % 4 == j);
    }
    assert(words_bytes(words)[4 * i + 0] == word_bytes(words[i])[0]);
    assert(words_bytes(words)[4 * i + 1] == word_bytes(words[i])[1]);
    assert(words_bytes(words)[4 * i + 2] == word_bytes(words[i])[2]);
    assert(words_bytes(words)[4 * i + 3] == word_bytes(words[i])[3]);
    lemma_word_round_trip(words[i]);
}

/// A word is read from the four bytes at its place, lowest first.
pub proof fn law_words_are_read_little_endian(block: Seq<u8>, i: int)
    requires
        0 <= i,
        4 * i + 4 <= block.len(),
    ensures
        word_at(block, i) == block[4 * i] + 256 * block[4 * i + 1] + 65536 * block[4 * i + 2]
            + 16777216 * block[4 * i + 3],
{
    let four = block.subrange(4 * i, 4 * i + 4);
    assert(four[0] == block[4 * i]);
    assert(four[1] == block[4 * i + 1]);
    assert(four[2] == block[4 * i + 2]);
    assert(four[3] == block[4 * i + 3]);
}

/// The word of a signed value is the value itself, or the value plus two to the
/// power of 32 where it is negative.
pub proof fn law_signed_word_is_twos_complement(t: i32)
    ensures
        t >= 0 ==> signed_word(t) == t,
        t < 0 ==> signed_word(t) == t + 0x1_0000_0000,
{
}

/// The halves of a long word put it together again.
pub proof fn law_halves_make_the_word(w: u64)
    ensures
        low_word(w) + 0x1_0000_0000 * high_word(w) == w,
{
}

/// The bytes of a long word are its halves', the lower one's first.
pub proof fn law_long_word_is_its_halves(w: u64)
    ensures
        long_bytes(w).len() == 8,
        word_at(long_bytes(w), 0) == w % 0x1_0000_0000,
        word_at(long_bytes(w), 1) == w / 0x1_0000_0000,
{
    let b = long_bytes(w);
    assert(b.subrange(0, 4) =~= word_bytes(low_word(w)));
    assert(b.subrange(4, 8) =~= word_bytes(high_word(w)));
    lemma_word_round_trip(low_word(w));
    lemma_word_round_trip(high_word(w));
}

proof fn lemma_words_bytes_push(words: Seq<u32>, w: u32)
    ensures
        words_bytes(words.push(w)) == words_bytes(words) + word_bytes(w),
{
    let all = words.push(w);
    assert forall|i: int| 0 <= i < 4 * all.len() implies words_bytes(all)[i] == (words_bytes(words)
        + word_bytes(w))[i] by {
        if i < 4 * words.len() {
            assert(i / 4 < words.len());
        } else {
            assert(i / 4 == words.len());
            assert(i % 4 == i - 4 * words.len());
        }
    }
    assert(words_bytes(all) =~= words_bytes(words) + word_bytes(w));
}

/// Append the bytes of one word.
pub fn push_word(out: &mut Vec<u8>, w: u32)
    ensures
        final(out)@ == old(out)@ + word_bytes(w),
{
    out.push((w % 256) as u8);
    out.push(((w / 256) % 256) as u8);
    out.push(((w / 65536) % 256) as u8);
    out.push((w / 16777216) as u8);
    proof {
        assert(out@ =~= old(out)@ + word_bytes(w));
    }
}

/// The byte image of a slice of words.
pub fn words_to_bytes(words: &[u32]) -> (out: Vec<u8>)
    ensures
        out@ == words_bytes(words@),
{
    let mut out: Vec<u8> = Vec::new();
    let mut i: usize = 0;
    proof {
        assert(words_bytes(words@.take(0)) =~= Seq::<u8>::empty());
    }
    while i < words.len()
        invariant
            i <= words.len(),
            out@ == words_bytes(words@.take(i as int)),
        decreases words.len() - i,
    {
        push_word(&mut out, words[i]);
        proof {
            lemma_words_bytes_push(words@.take(i as int), words[i as int]);
            assert(words@.take(i as int).push(words[i as int]) =~= words@.take(i + 1));
        }
        i += 1;
    }
    proof {
        assert(words@.take(i as int) =~= words@);
    }
    out
}

/// The byte block of a fixed number of words.
pub fn block<const WORDS: usize, const BYTES: usize>(words: [u32; WORDS]) -> (out: [u8; BYTES])
    requires
        BYTES == 4 * WORDS,
    ensures
        out@ == words_bytes(words@),
{
    let mut out: [u8; BYTES] = [0u8; BYTES];
    let mut i: usize = 0;
    while i < WORDS
        invariant
            i <= WORDS,
            BYTES == 4 * WORDS,
            forall|j: int| 0 <= j < 4 * i ==> out@[j] == words_bytes(words@)[j],
        decreases WORDS - i,
    {
        let w: u32 = words[i];
        out[4 * i] = (w % 256) as u8;
        out[4 * i + 1] = ((w / 256) % 256) as u8;
        out[4 * i + 2] = ((w / 65536) % 256) as u8;
        out[4 * i + 3] = (w / 16777216) as u8;
        i += 1;
    }
    proof {
        assert(out@ =~= words_bytes(words@));
    }
    out
}

/// The word at index `i` of a byte block.
pub fn read_word(block: &[u8], i: usize) -> (w: u32)
    requires
        4 * i + 4 <= block.len(),
    ensures
        w == word_at(block@, i as int),
{
    let at: usize = 4 * i;
    proof {
        let four = block@.subrange(at as int, at + 4);
        assert(four[0] == block[at as int]);
        assert(four[1] == block[at + 1]);
        assert(four[2] == block[at + 2]);
        assert(four[3] == block[at + 3]);
    }
    (block[at] as u32) + 256 * (block[at + 1] as u32) + 65536 * (block[at + 2] as u32) + 16777216 * (
    block[at + 3] as u32)
}

/// The two's complement word of a signed value.
pub fn word_of_signed(t: i32) -> (w: u32)
    ensures
        w == signed_word(t),
{
    if t >= 0 {
        t as u32
    } else {
        u32::MAX - ((-(t + 1)) as u32)
    }
}

/// The lower half of a long word.
pub open spec fn low_word(w: u64) -> u32 {
    (w % 0x1_0000_0000) as u32
}

/// The upper half of a long word.
pub open spec fn high_word(w: u64) -> u32 {
    (w / 0x1_0000_0000) as u32
}

/// The lower half of a long word.
pub fn low_half(w: u64) -> (r: u32)
    ensures
        r == low_word(w),
{
    (w % 0x1_0000_0000) as u32
}

/// The upper half of a long word.
pub fn high_half(w: u64) -> (r: u32)
    ensures
        r == high_word(w),
{
    (w / 0x1_0000_0000) as u32
}

/// The eight bytes of a long word, lowest first.
pub open spec fn long_bytes(w: u64) -> Seq<u8> {
    word_bytes(low_word(w)) + word_bytes(high_word(w))
}

/// The eight bytes of a long word.
pub fn long_to_bytes(w: u64) -> (r: Vec<u8>)
    ensures
        r@ == long_bytes(w),
{
    let mut out: Vec<u8> = Vec::new();
    push_word(&mut out, low_half(w));
    push_word(&mut out, high_half(w));
    proof {
        assert(out@ =~= long_bytes(w));
    }
    out
}

} // verus!
