//! How program images come to lie in memory.
//!
//! An image is a sequence of big-endian instruction words without header.
//! It is stored in TEXT word by word, each word with its bytes reversed, so
//! that reading the word back gives the value that the image spells. An
//! image that ends within a word is padded with zeros; several images lie one
//! after the other; what would lie past the end of TEXT is dropped.

use crate::memory::{MEM_TEXT_SIZE, MEM_TEXT_START};
use vstd::prelude::*;

verus! {

/// Byte `i` of an image, zero past its end.
pub open spec fn image_byte(image: Seq<u8>, i: int) -> u8 {
    if 0 <= i < image.len() {
        image[i]
    } else {
        0
    }
}

/// The number of bytes that an image takes in memory: its length rounded
/// up to whole words.
pub open spec fn padded_len(image: Seq<u8>) -> int {
    4 * ((image.len() as int + 3) / 4)
}

/// The byte that lies `i` bytes into the stored image: within each word
/// the order of the bytes is reversed.
pub open spec fn stored_byte(image: Seq<u8>, i: int) -> u8 {
    image_byte(image, 4 * (i / 4) + 3 - i % 4)
}

/// The memory with the first `upto` bytes of an image stored `offset`
/// bytes into TEXT, as far as they fall within TEXT.
pub open spec fn load_prefix(mem: Map<int, u8>, offset: int, image: Seq<u8>, upto: int) -> Map<
    int,
    u8,
> {
    Map::new(
        |a: int| mem.dom().contains(a),
        |a: int|
            if MEM_TEXT_START + offset <= a < MEM_TEXT_START + offset + upto && a < MEM_TEXT_START
                + MEM_TEXT_SIZE {
                stored_byte(image, a - MEM_TEXT_START - offset)
            } else {
                mem[a]
            },
    )
}

/// The memory with an image stored `offset` bytes into TEXT.
pub open spec fn load_image(mem: Map<int, u8>, offset: int, image: Seq<u8>) -> Map<int, u8> {
    load_prefix(mem, offset, image, padded_len(image))
}

/// The memory with images stored one after the other, the first of them
/// `offset` bytes into TEXT.
pub open spec fn load_images(mem: Map<int, u8>, offset: int, images: Seq<Seq<u8>>) -> Map<int, u8>
    decreases images.len(),
{
    if images.len() == 0 {
        mem
    } else {
        load_images(
            load_image(mem, offset, images[0]),
            offset + padded_len(images[0]),
            images.drop_first(),
        )
    }
}

/// What is stored at or past the end of TEXT is dropped.
pub proof fn lemma_load_past_text(mem: Map<int, u8>, offset: int, image: Seq<u8>)
    requires
        offset >= MEM_TEXT_SIZE,
    ensures
        load_image(mem, offset, image) == mem,
{
    assert(load_image(mem, offset, image) =~= mem);
}

/// The number of words that an image takes in memory.
pub fn image_words(image: &[u8]) -> (words: usize)
    ensures
        4 * words == padded_len(image@),
{
    let whole: usize = image.len() / 4;
    if image.len() % 4 == 0 {
        whole
    } else {
        whole + 1
    }
}

/// The four bytes of the image from `pos` on, last first, zero where the
/// image has ended: the word at `pos` as it is stored.
pub fn reversed_word(image: &[u8], pos: usize) -> (buf: [u8; 4])
    requires
        pos + 4 <= usize::MAX,
    ensures
        forall|j: int| 0 <= j < 4 ==> buf@[j] == image_byte(image@, pos + 3 - j),
{
    let mut buf: [u8; 4] = [0; 4];
    let mut k: usize = 0;
    while k < 4
        invariant
            k <= 4,
            pos + 4 <= usize::MAX,
            forall|j: int| 4 - k <= j < 4 ==> buf@[j] == image_byte(image@, pos + 3 - j),
            forall|j: int| 0 <= j < 4 - k ==> buf@[j] == 0,
        decreases 4 - k,
    {
        if pos + k < image.len() {
            buf[3 - k] = image[pos + k];
        }
        k += 1;
    }
    buf
}

} // verus!
