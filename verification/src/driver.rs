//! The digest driver: splits a message into blocks, feeds them to the
//! compression core, and pads what is left into the final block or blocks.

use vstd::prelude::*;
use crate::buffer::ConstSlice;
use crate::compress::process_state;
use crate::digest::Digest;
use crate::laws::{lemma_block_words_agree, lemma_sha1_by_parts};
use crate::model::{
    absorb, be_bytes64, be_word, bit_length, block_words, compress, final_block_count, padding,
    sha1_of, zero_fill,
};

verus! {

/// The bytes of a message that did not fill a whole block: the first `len`
/// bytes of `data`.
struct Blocks {
    len: u32,
    data: [u8; 64],
}

impl Blocks {
    /// Fewer bytes are held back than make a block.
    #[verifier::type_invariant]
    spec fn is_partial(self) -> bool {
        self.len < 64
    }

    /// The bytes held back for the final block.
    spec fn pending(self) -> Seq<u8> {
        self.data@.subrange(0, self.len as int)
    }
}

/// Packing four bytes with shifts yields their big-endian word.
proof fn lemma_pack_word(b0: u8, b1: u8, b2: u8, b3: u8)
    ensures
        (b3 as u32) | ((b2 as u32) << 8) | ((b1 as u32) << 16) | ((b0 as u32) << 24)
            == be_word(b0, b1, b2, b3),
{
    let w0: u32 = b0 as u32;
    let w1: u32 = b1 as u32;
    let w2: u32 = b2 as u32;
    let w3: u32 = b3 as u32;
    assert(w3 | (w2 << 8u32) | (w1 << 16u32) | (w0 << 24u32)
        == w0 * 0x100_0000u32 + w1 * 0x1_0000u32 + w2 * 0x100u32 + w3) by (bit_vector)
        requires
            w0 < 0x100 && w1 < 0x100 && w2 < 0x100 && w3 < 0x100,
    ;
}

/// Shifting and truncating a 64-bit value yields its big-endian bytes.
proof fn lemma_length_bytes(x: u64)
    ensures
        seq![
            (x >> 56) as u8,
            (x >> 48) as u8,
            (x >> 40) as u8,
            (x >> 32) as u8,
            (x >> 24) as u8,
            (x >> 16) as u8,
            (x >> 8) as u8,
            x as u8,
        ] == be_bytes64(x),
{
    assert((x >> 56u64) as u8 == (x / 0x100_0000_0000_0000u64) as u8) by (bit_vector);
    assert((x >> 48u64) as u8 == (x / 0x1_0000_0000_0000u64 % 0x100u64) as u8) by (bit_vector);
    assert((x >> 40u64) as u8 == (x / 0x100_0000_0000u64 % 0x100u64) as u8) by (bit_vector);
    assert((x >> 32u64) as u8 == (x / 0x1_0000_0000u64 % 0x100u64) as u8) by (bit_vector);
    assert((x >> 24u64) as u8 == (x / 0x100_0000u64 % 0x100u64) as u8) by (bit_vector);
    assert((x >> 16u64) as u8 == (x / 0x1_0000u64 % 0x100u64) as u8) by (bit_vector);
    assert((x >> 8u64) as u8 == (x / 0x100u64 % 0x100u64) as u8) by (bit_vector);
    assert(x as u8 == (x % 0x100u64) as u8) by (bit_vector);
}

/// A buffer of one or two blocks that holds the tail of a message, the
/// marker byte behind it, the length field in its last eight bytes and
/// zeros in between is the tail with its padding.
proof fn lemma_final_bytes(last: Seq<u8>, tail: Seq<u8>, total: nat)
    requires
        tail.len() < 64,
        last.len() == 64 * final_block_count(tail.len()),
        forall|i: int| 0 <= i < tail.len() ==> last[i] == tail[i],
        last[tail.len() as int] == 0x80,
        forall|i: int| tail.len() < i < last.len() - 8 ==> last[i] == 0,
        last.subrange(last.len() - 8, last.len() as int) == be_bytes64(bit_length(total)),
    ensures
        last == tail + padding(tail.len(), total),
{
    let field = be_bytes64(bit_length(total));
    let front = seq![0x80u8] + Seq::new(zero_fill(tail.len()), |i: int| 0u8);
    let at = last.len() - 8;
    assert(field.len() == 8);
    assert forall|i: int| 0 <= i < last.len() implies last[i] == (tail + (front + field))[i] by {
        if i >= at {
            assert(last[i] == last.subrange(at, last.len() as int)[i - at]);
        }
    }
    assert(last =~= tail + (front + field));
}

/// Absorbing the padded tail of a message is compressing the one or two
/// blocks at the start of a buffer that holds the tail, the marker byte,
/// zeros, and the length field at the end of its last block.
proof fn lemma_final_blocks(start: Seq<u32>, last: Seq<u8>, tail: Seq<u8>, total: nat)
    requires
        tail.len() < 64,
        last.len() == 128,
        forall|i: int| 0 <= i < tail.len() ==> last[i] == tail[i],
        last[tail.len() as int] == 0x80,
        forall|i: int| tail.len() < i < 64 * final_block_count(tail.len()) - 8 ==> last[i] == 0,
        last.subrange(
            64 * final_block_count(tail.len()) - 8,
            64 * final_block_count(tail.len()) as int,
        ) == be_bytes64(bit_length(total)),
    ensures
        tail.len() < 56 ==> absorb(start, tail + padding(tail.len(), total), 1) == compress(
            start,
            block_words(last, 0),
        ),
        tail.len() >= 56 ==> absorb(start, tail + padding(tail.len(), total), 2) == compress(
            compress(start, block_words(last, 0)),
            block_words(last, 64),
        ),
{
    let count = final_block_count(tail.len());
    let end = 64 * count as int;
    let used = last.subrange(0, end);
    let ending = tail + padding(tail.len(), total);
    assert(used.subrange(end - 8, end) =~= last.subrange(end - 8, end));
    lemma_final_bytes(used, tail, total);
    assert(ending.subrange(0, 64) =~= last.subrange(0, 64));
    lemma_block_words_agree(last, 0, ending, 0);
    assert(absorb(start, ending, 0) == start);
    if count == 2 {
        assert(ending.subrange(64, 128) =~= last.subrange(64, 128));
        lemma_block_words_agree(last, 64, ending, 64);
        let first = absorb(start, ending, 1);
        assert(absorb(start, ending, 2) == compress(first, block_words(ending, 64)));
    }
}

/// The length field of a message whose length fits the machine's word.
proof fn lemma_bit_length(len: usize, tail_len: u32)
    requires
        len + tail_len <= usize::MAX,
    ensures
        ((len as u64 + tail_len as u64) as u64).wrapping_mul(8) == bit_length(
            (len + tail_len) as nat,
        ),
{
}

/// Packs the 64 bytes of `input` that start at `offset` into sixteen
/// big-endian words.
fn as_block(input: &[u8], offset: usize) -> (result: [u32; 16])
    requires
        offset + 64 <= input.len(),
    ensures
        result@ == block_words(input@, offset as int),
{
    let mut result = [0u32;16];
    let mut i: usize = 0;
    while i < 16
        invariant
            i <= 16,
            offset + 64 <= input.len(),
            forall|j: int| 0 <= j < i ==> result[j] == block_words(input@, offset as int)[j],
        decreases 16 - i,
    {
        let off = offset + (i * 4);
        proof {
            lemma_pack_word(input[off as int], input[off + 1], input[off + 2], input[off + 3]);
        }
        result[i] = (input[off + 3] as u32) | ((input[off + 2] as u32) << 8)
            | ((input[off + 1] as u32) << 16) | ((input[off] as u32) << 24);
        i += 1;
    }
    assert(result@ =~= block_words(input@, offset as int));
    result
}

/// Copies `num_elems` bytes of `slice`, from `offset` on, to the start of
/// `data`.
fn clone_from_slice<const N: usize>(
    data: [u8; N],
    slice: &[u8],
    offset: usize,
    num_elems: usize,
) -> (out: [u8; N])
    requires
        num_elems <= N,
        offset + num_elems <= slice.len(),
    ensures
        forall|i: int| 0 <= i < num_elems ==> out[i] == slice[offset + i],
        forall|i: int| num_elems <= i < N ==> out[i] == data[i],
{
    let mut out = data;
    let mut i: usize = 0;
    while i < num_elems
        invariant
            i <= num_elems <= N,
            offset + num_elems <= slice.len(),
            forall|j: int| 0 <= j < i ==> out[j] == slice[offset + j],
            forall|j: int| i <= j < N ==> out[j] == data[j],
        decreases num_elems - i,
    {
        out[i] = slice[offset + i];
        i += 1;
    }
    out
}

/// Copies all of `slice` into `data`, from index `offset` of `data` on.
fn clone_slice<const N: usize>(data: [u8; N], slice: &[u8], offset: usize) -> (out: [u8; N])
    requires
        offset + slice.len() <= N,
    ensures
        forall|i: int| offset <= i < offset + slice.len() ==> out[i] == slice[i - offset],
        forall|i: int| 0 <= i < offset || offset + slice.len() <= i < N ==> out[i] == data[i],
{
    let mut out = data;
    let mut i: usize = 0;
    while i < slice.len()
        invariant
            i <= slice.len(),
            offset + slice.len() <= N,
            forall|j: int| offset <= j < offset + i ==> out[j] == slice[j - offset],
            forall|j: int| 0 <= j < offset || offset + i <= j < N ==> out[j] == data[j],
        decreases slice.len() - i,
    {
        out[offset + i] = slice[i];
        i += 1;
    }
    out
}

/// Absorbs every whole block among the first `data_len` bytes of `data`
/// into `state`, and keeps the bytes that are left over in `blocks`.
///
/// Returns the buffer, the number of bytes absorbed, and the state. Where
/// nothing is left over, `blocks` comes back as it was.
fn process_blocks(blocks: Blocks, data: &[u8], data_len: usize, state: [u32; 5]) -> (out: (
    Blocks,
    usize,
    [u32; 5],
))
    requires
        data_len <= data.len(),
    ensures
        out.1 == data_len - data_len % 64,
        out.2@ == absorb(state@, data@, (data_len / 64) as nat),
        data_len % 64 == 0 ==> out.0 == blocks,
        data_len % 64 != 0 ==> out.0.len == data_len % 64
            && out.0.pending() == data@.subrange(out.1 as int, data_len as int),
{
    proof {
        use_type_invariant(&blocks);
    }
    let mut blocks = blocks;
    let mut state = state;
    let ghost start = state@;
    let mut len: usize = 0;
    while data_len - len >= 64
        invariant
            len <= data_len <= data.len(),
            len % 64 == 0,
            state@ == absorb(start, data@, (len / 64) as nat),
        decreases data_len - len,
    {
        let chunk_block = as_block(data, len);
        state = process_state(state, chunk_block);
        len += 64;
    }
    let left = data_len - len;
    if left > 0 {
        blocks.data = clone_from_slice(blocks.data, data, len, left);
        blocks.len = left as u32;
        assert(blocks.pending() =~= data@.subrange(len as int, data_len as int));
    }
    (blocks, len, state)
}

/// Pads the bytes held back in `blocks`, absorbs the final block or blocks
/// into `state`, and wraps the result. `len` is the number of message bytes
/// absorbed before.
fn digest(state: [u32; 5], len: usize, blocks: Blocks) -> (d: Digest)
    requires
        len + blocks.len <= usize::MAX,
    ensures
        d@ == absorb(
            state@,
            blocks.pending() + padding(blocks.len as nat, (len + blocks.len) as nat),
            final_block_count(blocks.len as nat),
        ),
{
    proof {
        use_type_invariant(&blocks);
    }
    let mut state = state;
    let bits = ((len as u64) + (blocks.len as u64)).wrapping_mul(8);
    let extra = [
        #[verifier::truncate] ((bits >> 56) as u8),
        #[verifier::truncate] ((bits >> 48) as u8),
        #[verifier::truncate] ((bits >> 40) as u8),
        #[verifier::truncate] ((bits >> 32) as u8),
        #[verifier::truncate] ((bits >> 24) as u8),
        #[verifier::truncate] ((bits >> 16) as u8),
        #[verifier::truncate] ((bits >> 8) as u8),
        #[verifier::truncate] (bits as u8),
    ];
    let mut last = [0u8;128];
    let blocklen = blocks.len as usize;
    last = clone_from_slice(last, &blocks.data, 0, blocklen);
    last[blocklen] = 0x80;

    proof {
        lemma_bit_length(len, blocks.len);
        lemma_length_bytes(bits);
    }
    if blocklen < 56 {
        last = clone_slice(last, &extra, 56);
        proof {
            assert(last@.subrange(56, 64) =~= extra@);
            lemma_final_blocks(state@, last@, blocks.pending(), (len + blocks.len) as nat);
        }
        state = process_state(state, as_block(&last, 0));
    } else {
        last = clone_slice(last, &extra, 120);
        proof {
            assert(last@.subrange(120, 128) =~= extra@);
            lemma_final_blocks(state@, last@, blocks.pending(), (len + blocks.len) as nat);
        }
        state = process_state(state, as_block(&last, 0));
        state = process_state(state, as_block(&last, 64));
    }
    Digest { data: state }
}

/// Computes the SHA-1 digest of `data`.
pub fn sha1(data: &[u8]) -> (d: Digest)
    ensures
        d@ == sha1_of(data@),
{
    let state: [u32; 5] = [0x67452301, 0xefcdab89, 0x98badcfe, 0x10325476, 0xc3d2e1f0];
    let blocks = Blocks { len: 0, data: [0;64] };
    let (blocks, len, state) = process_blocks(blocks, data, data.len(), state);
    proof {
        lemma_sha1_by_parts(data@);
        assert(blocks.pending() =~= data@.subrange(len as int, data@.len() as int));
    }
    digest(state, len, blocks)
}

/// Computes the SHA-1 digest of the bytes held in `data`.
pub fn sha1_from_const_slice(data: &ConstSlice) -> (d: Digest)
    ensures
        d@ == sha1_of(data@),
{
    sha1(data.as_slice())
}

} // verus!
