//! Laws of the model: what holds of every message, proved from the
//! definitions alone.

use vstd::prelude::*;
use crate::digest::{be_bytes32, digest_bytes, hex, is_lower_hex, lemma_hex_shape, Digest};
use crate::model::{
    absorb, be_bytes64, be_word, bit_length, block_words, ch, final_block_count, initial_state,
    maj, padded, padding, sha1_of, zero_fill,
};

verus! {

/// The two mixing functions with a choice in them, in their other usual
/// forms: `ch` takes the bit of `c` where the bit of `b` is set and that of
/// `d` where it is not, and `maj` is the bit of `d` where those of `b` and
/// `c` differ.
pub proof fn lemma_mixing_forms(b: u32, c: u32, d: u32)
    ensures
        ch(b, c, d) == (b & c) | (!b & d),
        maj(b, c, d) == ((b | c) & d) | (b & c),
{
    assert((b & (c ^ d)) ^ d == (b & c) | (!b & d)) by (bit_vector);
    assert((b & c) | (b & d) | (c & d) == ((b | c) & d) | (b & c)) by (bit_vector);
}

/// Packing the four bytes of a word gives the word back: the words of a
/// block are read as the bytes of a digest are written.
pub proof fn lemma_word_round_trip(w: u32)
    ensures
        be_bytes32(w).len() == 4,
        be_word(be_bytes32(w)[0], be_bytes32(w)[1], be_bytes32(w)[2], be_bytes32(w)[3]) == w,
{
}

/// The words of a block depend on its 64 bytes alone.
pub proof fn lemma_block_words_agree(a: Seq<u8>, at_a: int, b: Seq<u8>, at_b: int)
    requires
        0 <= at_a && at_a + 64 <= a.len(),
        0 <= at_b && at_b + 64 <= b.len(),
        a.subrange(at_a, at_a + 64) == b.subrange(at_b, at_b + 64),
    ensures
        block_words(a, at_a) == block_words(b, at_b),
{
    let block_a = a.subrange(at_a, at_a + 64);
    let block_b = b.subrange(at_b, at_b + 64);
    let words_a = block_words(a, at_a);
    let words_b = block_words(b, at_b);
    assert forall|j: int| 0 <= j < 16 implies words_a[j] == words_b[j] by {
        let i = 4 * j;
        assert(a[at_a + i] == block_a[i] && b[at_b + i] == block_b[i]);
        assert(a[at_a + i + 1] == block_a[i + 1] && b[at_b + i + 1] == block_b[i + 1]);
        assert(a[at_a + i + 2] == block_a[i + 2] && b[at_b + i + 2] == block_b[i + 2]);
        assert(a[at_a + i + 3] == block_a[i + 3] && b[at_b + i + 3] == block_b[i + 3]);
    }
    assert(block_words(a, at_a) =~= block_words(b, at_b));
}

/// Absorbing `n` blocks reads the first `64 * n` bytes alone.
pub proof fn lemma_absorb_agree(state: Seq<u32>, a: Seq<u8>, b: Seq<u8>, n: nat)
    requires
        64 * n <= a.len(),
        64 * n <= b.len(),
        a.subrange(0, 64 * n as int) == b.subrange(0, 64 * n as int),
    ensures
        absorb(state, a, n) == absorb(state, b, n),
    decreases n,
{
    if n > 0 {
        let m = (n - 1) as nat;
        let lo = 64 * m as int;
        let hi = 64 * n as int;
        assert(a.subrange(0, lo) =~= a.subrange(0, hi).subrange(0, lo));
        assert(b.subrange(0, lo) =~= b.subrange(0, hi).subrange(0, lo));
        assert(a.subrange(lo, lo + 64) =~= a.subrange(0, hi).subrange(lo, hi));
        assert(b.subrange(lo, lo + 64) =~= b.subrange(0, hi).subrange(lo, hi));
        lemma_absorb_agree(state, a, b, m);
        lemma_block_words_agree(a, lo, b, lo);
    }
}

/// Absorbing is incremental: `n + k` blocks can be absorbed as `n` blocks
/// first and then the `k` blocks that follow them, handed over on their own.
pub proof fn lemma_absorb_split(state: Seq<u32>, bytes: Seq<u8>, n: nat, rest: Seq<u8>, k: nat)
    requires
        64 * (n + k) <= bytes.len(),
        64 * k <= rest.len(),
        rest.subrange(0, 64 * k as int) == bytes.subrange(64 * n as int, 64 * (n + k) as int),
    ensures
        absorb(state, bytes, n + k) == absorb(absorb(state, bytes, n), rest, k),
    decreases k,
{
    if k > 0 {
        let m = (k - 1) as nat;
        let from = 64 * n as int;
        let lo = 64 * m as int;
        let hi = 64 * k as int;
        let shared = rest.subrange(0, hi);
        assert(rest.subrange(0, lo) =~= shared.subrange(0, lo));
        assert(bytes.subrange(from, from + lo) =~= shared.subrange(0, lo));
        assert(rest.subrange(lo, lo + 64) =~= shared.subrange(lo, hi));
        assert(bytes.subrange(from + lo, from + lo + 64) =~= shared.subrange(lo, hi));
        lemma_absorb_split(state, bytes, n, rest, m);
        lemma_block_words_agree(bytes, from + lo, rest, lo);
    }
}

/// The zero bytes are as few as can be: any number of them that brings the
/// message, the marker byte and the length field to a whole number of
/// blocks is at least `zero_fill`, which does so itself.
pub proof fn lemma_zero_fill_least(n: nat, k: nat)
    requires
        (n + 1 + k + 8) % 64 == 0,
    ensures
        (n + 1 + zero_fill(n) + 8) % 64 == 0,
        zero_fill(n) < 64,
        zero_fill(n) <= k,
{
}

/// The padding is the marker byte, the zero bytes and the eight bytes of
/// the length field.
proof fn lemma_padding_parts(tail_len: nat, total: nat)
    ensures
        padding(tail_len, total).len() == zero_fill(tail_len) + 9,
        padding(tail_len, total)[0] == 0x80,
        padding(tail_len, total).subrange(
            (zero_fill(tail_len) + 1) as int,
            (zero_fill(tail_len) + 9) as int,
        )
            == be_bytes64(bit_length(total)),
{
    let field = be_bytes64(bit_length(total));
    let front = seq![0x80u8] + Seq::new(zero_fill(tail_len), |i: int| 0u8);
    assert(field.len() == 8);
    assert(front.len() == zero_fill(tail_len) + 1);
    assert((front + field).subrange(front.len() as int, (front.len() + 8) as int) =~= field);
}

/// The padded message is a whole number of blocks. It holds the message,
/// then the marker byte, and ends with the length field. After the whole
/// blocks of the message come one block where its last partial block has
/// fewer than 56 bytes, and two blocks where it has 56 or more.
pub proof fn lemma_padded_shape(msg: Seq<u8>)
    ensures
        padded(msg).len() % 64 == 0,
        padded(msg).len() == 64 * (msg.len() / 64) + 64 * final_block_count(msg.len()),
        padded(msg).subrange(0, msg.len() as int) == msg,
        padded(msg)[msg.len() as int] == 0x80,
        padded(msg).subrange(padded(msg).len() - 8, padded(msg).len() as int)
            == be_bytes64(bit_length(msg.len())),
{
    let pad = padding(msg.len(), msg.len());
    lemma_padding_parts(msg.len(), msg.len());
    assert((msg + pad).subrange(0, msg.len() as int) =~= msg);
    let end = (msg.len() + pad.len()) as int;
    assert((msg + pad).subrange(end - 8, end) =~= pad.subrange(pad.len() - 8, pad.len() as int));
}

/// The digest of a message is what its last partial block yields, padded,
/// once the whole blocks before it have been absorbed.
pub proof fn lemma_sha1_by_parts(msg: Seq<u8>)
    ensures
        sha1_of(msg) == absorb(
            absorb(initial_state(), msg, msg.len() / 64),
            msg.subrange(msg.len() - msg.len() % 64, msg.len() as int)
                + padding(msg.len() % 64, msg.len()),
            final_block_count(msg.len() % 64),
        ),
{
    let n = msg.len() / 64;
    let k = final_block_count(msg.len() % 64);
    let tail = msg.subrange(msg.len() - msg.len() % 64, msg.len() as int);
    let rest = tail + padding(msg.len() % 64, msg.len());
    let whole = padded(msg);
    assert(zero_fill(msg.len() % 64) == zero_fill(msg.len()));
    assert(whole.len() == 64 * (n + k));
    assert(rest.len() == 64 * k);
    assert(rest.subrange(0, 64 * k as int) =~= whole.subrange(64 * n as int, 64 * (n + k) as int));
    assert(whole.subrange(0, 64 * n as int) =~= msg.subrange(0, 64 * n as int));
    lemma_absorb_split(initial_state(), whole, n, rest, k);
    lemma_absorb_agree(initial_state(), whole, msg, n);
}

/// Every digest has five words, twenty bytes and forty hexadecimal digits,
/// each of them one of `0` to `9` or `a` to `f`.
pub proof fn lemma_digest_shape(msg: Seq<u8>)
    ensures
        sha1_of(msg).len() == 5,
        digest_bytes(sha1_of(msg)).len() == 20,
        hex(digest_bytes(sha1_of(msg))).len() == 40,
        forall|i: int|
            0 <= i < 40 ==> is_lower_hex(#[trigger] hex(digest_bytes(sha1_of(msg)))[i]),
{
    lemma_padded_shape(msg);
    lemma_hex_shape(digest_bytes(sha1_of(msg)));
}

/// The digest is a function of the message: two digests of messages that
/// hold the same bytes are the same value, and so are their bytes and
/// their hexadecimal renderings.
pub proof fn lemma_same_message_same_digest(a: Seq<u8>, b: Seq<u8>, of_a: Digest, of_b: Digest)
    requires
        a.len() == b.len(),
        forall|i: int| 0 <= i < a.len() ==> a[i] == b[i],
        of_a@ == sha1_of(a),
        of_b@ == sha1_of(b),
    ensures
        of_a == of_b,
        digest_bytes(of_a@) == digest_bytes(of_b@),
        hex(digest_bytes(of_a@)) == hex(digest_bytes(of_b@)),
{
    assert(a =~= b);
    assert(of_a.data =~= of_b.data);
}

} // verus!
