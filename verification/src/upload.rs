//! The bytes of a buffer of words, as the device receives them.

use vstd::bytes::{
    lemma_auto_spec_u32_to_from_le_bytes, spec_u32_from_le_bytes, spec_u32_to_le_bytes,
};
use vstd::prelude::*;

verus! {

/// The four bytes of `word`, lowest first if `little_endian` and highest
/// first if not.
pub open spec fn word_bytes(word: u32, little_endian: bool) -> Seq<u8> {
    if little_endian {
        spec_u32_to_le_bytes(word)
    } else {
        spec_u32_to_le_bytes(word).reverse()
    }
}

/// The word that four bytes stand for.
pub open spec fn word_of(bytes: Seq<u8>, little_endian: bool) -> u32 {
    if little_endian {
        spec_u32_from_le_bytes(bytes)
    } else {
        spec_u32_from_le_bytes(bytes.reverse())
    }
}

/// The bytes of `words`, word after word.
pub open spec fn image(words: Seq<u32>, little_endian: bool) -> Seq<u8> {
    Seq::new(4 * words.len(), |i: int| word_bytes(words[i / 4], little_endian)[i % 4])
}

/// The words that `bytes` stand for, four bytes each.
pub open spec fn words_of(bytes: Seq<u8>, little_endian: bool) -> Seq<u32> {
    Seq::new(bytes.len() / 4, |j: int| word_of(bytes.subrange(4 * j, 4 * j + 4), little_endian))
}

/// Whether `bytes` is what `words` look like in memory, in one of the two
/// byte orders that a machine can have.
pub open spec fn is_memory_image(bytes: Seq<u8>, words: Seq<u32>) -> bool {
    bytes == image(words, true) || bytes == image(words, false)
}

/// The wrapper around `bytemuck::cast_slice`, from words to bytes. The
/// cast cannot fail in this direction: bytes need no alignment, and every
/// word is four of them. It hands back the memory of the words themselves,
/// so the result holds four bytes for each word in the byte order of the
/// machine, which the contract leaves open.
#[verifier::external_body]
fn cast_words(words: &[u32]) -> (bytes: &[u8])
    ensures
        is_memory_image(bytes@, words@),
{
    bytemuck::cast_slice(words)
}

/// The bytes to upload for a buffer of words: the words as they lie in
/// memory.
pub fn upload_bytes(words: &Vec<u32>) -> (bytes: &[u8])
    ensures
        is_memory_image(bytes@, words@),
        bytes@.len() == 4 * words@.len(),
        exists|little_endian: bool| #[trigger] words_of(bytes@, little_endian) == words@,
{
    let bytes = cast_words(words.as_slice());
    proof {
        lemma_image_is_lossless(words@, true);
        lemma_image_is_lossless(words@, false);
    }
    bytes
}

/// Nothing is lost in the bytes: read back in the byte order in which they
/// were written, they give the words again.
pub proof fn lemma_image_is_lossless(words: Seq<u32>, little_endian: bool)
    ensures
        image(words, little_endian).len() == 4 * words.len(),
        words_of(image(words, little_endian), little_endian) == words,
{
    let bytes = image(words, little_endian);
    lemma_auto_spec_u32_to_from_le_bytes();
    assert forall|j: int| 0 <= j < words.len() implies word_of(
        #[trigger] bytes.subrange(4 * j, 4 * j + 4),
        little_endian,
    ) == words[j] by {
        let four = bytes.subrange(4 * j, 4 * j + 4);
        let expected = word_bytes(words[j], little_endian);
        assert(spec_u32_to_le_bytes(words[j]).len() == 4);
        assert(four =~= expected) by {
            assert forall|r: int| 0 <= r < 4 implies four[r] == expected[r] by {
                assert((4 * j + r) / 4 == j);
                assert((4 * j + r) % 4 == r);
            }
        }
        if !little_endian {
            assert(expected.reverse() =~= spec_u32_to_le_bytes(words[j]));
        }
    }
    assert(words_of(bytes, little_endian) =~= words);
}

} // verus!
