//! The block compression core: eighty rounds over one 64-byte block.
//!
//! The message schedule is never held in full. A window of sixteen words is
//! kept in place of the block, and each round from the seventeenth on
//! replaces the oldest word of the window by the next schedule word.

use vstd::prelude::*;
use crate::laws::lemma_mixing_forms;
use crate::model::{
    ch, compress, maj, parity, registers_of, rotl, rounds, schedule_word, sum5, Registers,
};

verus! {

/// `window` holds the sixteen schedule words that round `t` and its
/// successors read: word `k` of the schedule sits at index `k % 16`.
#[verifier::opaque]
spec fn is_window(window: Seq<u32>, block: Seq<u32>, t: int) -> bool {
    &&& window.len() == 16
    &&& forall|k: int|
        window_start(t) <= k < window_start(t) + 16
            ==> window[k % 16] == #[trigger] schedule_word(block, k)
}

/// Index of the oldest schedule word that a window holds before round `t`.
spec fn window_start(t: int) -> int {
    if t <= 16 {
        0
    } else {
        t - 16
    }
}

/// The schedule word that takes the place of `window[i]`.
spec fn next_word(window: Seq<u32>, i: int) -> u32 {
    rotl(window[(i + 13) % 16] ^ window[(i + 8) % 16] ^ window[(i + 2) % 16] ^ window[i], 1)
}

/// The block itself is the window that the first round starts from.
proof fn lemma_window_initial(block: Seq<u32>)
    requires
        block.len() == 16,
    ensures
        is_window(block, block, 0),
{
    reveal(is_window);
}

/// In the first sixteen rounds the window already holds the round's word.
proof fn lemma_window_read(window: Seq<u32>, block: Seq<u32>, t: int)
    requires
        is_window(window, block, t),
        0 <= t < 16,
    ensures
        window[t] == schedule_word(block, t),
        is_window(window, block, t + 1),
{
    reveal(is_window);
    assert(window[t % 16] == schedule_word(block, t));
}

/// The places in the window of the four words that round `t` reads.
proof fn lemma_window_places(t: int)
    requires
        16 <= t,
    ensures
        (t % 16 + 13) % 16 == (t - 3) % 16,
        (t % 16 + 8) % 16 == (t - 8) % 16,
        (t % 16 + 2) % 16 == (t - 14) % 16,
        t % 16 == (t - 16) % 16,
{
}

/// From round sixteen on, the word computed from the window is the
/// round's schedule word.
proof fn lemma_window_next(window: Seq<u32>, block: Seq<u32>, t: int)
    requires
        is_window(window, block, t),
        16 <= t,
    ensures
        next_word(window, t % 16) == schedule_word(block, t),
{
    reveal(is_window);
    lemma_window_places(t);
    assert(window[(t - 3) % 16] == schedule_word(block, t - 3));
    assert(window[(t - 8) % 16] == schedule_word(block, t - 8));
    assert(window[(t - 14) % 16] == schedule_word(block, t - 14));
    assert(window[(t - 16) % 16] == schedule_word(block, t - 16));
}

/// Storing the schedule word of round `t` in its place advances the window
/// by one round.
proof fn lemma_window_advance(window: Seq<u32>, block: Seq<u32>, t: int)
    requires
        is_window(window, block, t),
        16 <= t,
    ensures
        is_window(window.update(t % 16, schedule_word(block, t)), block, t + 1),
{
    reveal(is_window);
    let next = window.update(t % 16, schedule_word(block, t));
    assert forall|k: int| t - 15 <= k < t + 1 implies next[k % 16]
        == #[trigger] schedule_word(block, k) by {
        if k != t {
            assert(k % 16 != t % 16);
            assert(window[k % 16] == schedule_word(block, k));
        }
    }
}

/// A chain of wrapping additions is the sum modulo 2^32.
proof fn lemma_wrapping_sum(f: u32, w: u32, k: u32, r: u32, z: u32)
    ensures
        z.wrapping_add(f.wrapping_add(w).wrapping_add(k).wrapping_add(r)) == sum5(r, f, z, k, w),
{
}

/// Masking with 15 is the remainder of the division by 16.
proof fn lemma_mask_is_remainder(x: usize)
    by (bit_vector)
    ensures
        x & 15 == x % 16,
{
}

/// Rotates `value` left by `bits` positions.
fn rol(value: u32, bits: usize) -> (r: u32)
    requires
        0 < bits < 32,
    ensures
        r == rotl(value, bits as u32),
{
    (value << bits) | (value >> (32 - bits))
}

/// Computes the schedule word that replaces `block[i]` in the window.
fn blk(block: &[u32], i: usize) -> (r: u32)
    requires
        i < 16 <= block.len(),
    ensures
        r == next_word(block@, i as int),
{
    proof {
        lemma_mask_is_remainder((i + 13) as usize);
        lemma_mask_is_remainder((i + 8) as usize);
        lemma_mask_is_remainder((i + 2) as usize);
    }
    let value = block[(i + 13) & 15] ^ block[(i + 8) & 15] ^ block[(i + 2) & 15] ^ block[i];
    rol(value, 1)
}

/// One of the first sixteen rounds, which read the block's own words.
///
/// The caller passes the working variables in the order of their roles in
/// this round; `w` and `z` are the two that the round changes.
fn r0(
    block: [u32; 16],
    v: u32,
    w: u32,
    x: u32,
    y: u32,
    z: u32,
    i: usize,
) -> (out: ([u32; 16], u32, u32))
    requires
        i < 16,
    ensures
        out.0 == block,
        out.1 == rotl(w, 30),
        out.2 == sum5(rotl(v, 5), ch(w, x, y), z, 0x5A82_7999, block[i as int]),
{
    let n = ((w & (x ^ y)) ^ y)
        .wrapping_add(block[i])
        .wrapping_add(0x5a82_7999)
        .wrapping_add(rol(v, 5));
    proof {
        lemma_wrapping_sum(ch(w, x, y), block[i as int], 0x5A82_7999, rotl(v, 5), z);
    }
    let z = z.wrapping_add(n);
    let w = rol(w, 30);
    (block, w, z)
}

/// One of rounds 16 to 19: as `r0`, after the window has been advanced.
fn r1(
    block: [u32; 16],
    v: u32,
    w: u32,
    x: u32,
    y: u32,
    z: u32,
    i: usize,
) -> (out: ([u32; 16], u32, u32))
    requires
        i < 16,
    ensures
        out.0@ == block@.update(i as int, next_word(block@, i as int)),
        out.1 == rotl(w, 30),
        out.2 == sum5(rotl(v, 5), ch(w, x, y), z, 0x5A82_7999, next_word(block@, i as int)),
{
    let mut block = block;
    block[i] = blk(&block, i);
    let n = ((w & (x ^ y)) ^ y)
        .wrapping_add(block[i])
        .wrapping_add(0x5a82_7999)
        .wrapping_add(rol(v, 5));
    proof {
        lemma_wrapping_sum(ch(w, x, y), block[i as int], 0x5A82_7999, rotl(v, 5), z);
    }
    let z = z.wrapping_add(n);
    let w = rol(w, 30);
    (block, w, z)
}

/// One of rounds 20 to 39.
fn r2(
    block: [u32; 16],
    v: u32,
    w: u32,
    x: u32,
    y: u32,
    z: u32,
    i: usize,
) -> (out: ([u32; 16], u32, u32))
    requires
        i < 16,
    ensures
        out.0@ == block@.update(i as int, next_word(block@, i as int)),
        out.1 == rotl(w, 30),
        out.2 == sum5(rotl(v, 5), parity(w, x, y), z, 0x6ED9_EBA1, next_word(block@, i as int)),
{
    let mut block = block;
    block[i] = blk(&block, i);
    let n = (w ^ x ^ y)
        .wrapping_add(block[i])
        .wrapping_add(0x6ed9_eba1)
        .wrapping_add(rol(v, 5));
    proof {
        lemma_wrapping_sum(parity(w, x, y), block[i as int], 0x6ED9_EBA1, rotl(v, 5), z);
    }
    let z = z.wrapping_add(n);
    let w = rol(w, 30);
    (block, w, z)
}

/// One of rounds 40 to 59.
fn r3(
    block: [u32; 16],
    v: u32,
    w: u32,
    x: u32,
    y: u32,
    z: u32,
    i: usize,
) -> (out: ([u32; 16], u32, u32))
    requires
        i < 16,
    ensures
        out.0@ == block@.update(i as int, next_word(block@, i as int)),
        out.1 == rotl(w, 30),
        out.2 == sum5(rotl(v, 5), maj(w, x, y), z, 0x8F1B_BCDC, next_word(block@, i as int)),
{
    let mut block = block;
    block[i] = blk(&block, i);
    proof {
        lemma_mixing_forms(w, x, y);
    }
    let n = (((w | x) & y) | (w & x))
        .wrapping_add(block[i])
        .wrapping_add(0x8f1b_bcdc)
        .wrapping_add(rol(v, 5));
    proof {
        lemma_wrapping_sum(maj(w, x, y), block[i as int], 0x8F1B_BCDC, rotl(v, 5), z);
    }
    let z = z.wrapping_add(n);
    let w = rol(w, 30);
    (block, w, z)
}

/// One of rounds 60 to 79.
fn r4(
    block: [u32; 16],
    v: u32,
    w: u32,
    x: u32,
    y: u32,
    z: u32,
    i: usize,
) -> (out: ([u32; 16], u32, u32))
    requires
        i < 16,
    ensures
        out.0@ == block@.update(i as int, next_word(block@, i as int)),
        out.1 == rotl(w, 30),
        out.2 == sum5(rotl(v, 5), parity(w, x, y), z, 0xCA62_C1D6, next_word(block@, i as int)),
{
    let mut block = block;
    block[i] = blk(&block, i);
    let n = (w ^ x ^ y)
        .wrapping_add(block[i])
        .wrapping_add(0xca62_c1d6)
        .wrapping_add(rol(v, 5));
    proof {
        lemma_wrapping_sum(parity(w, x, y), block[i as int], 0xCA62_C1D6, rotl(v, 5), z);
    }
    let z = z.wrapping_add(n);
    let w = rol(w, 30);
    (block, w, z)
}

/// Absorbs one block of sixteen words into the five state words.
pub fn process_state(state: [u32; 5], block: [u32; 16]) -> (next: [u32; 5])
    ensures
        next@ == compress(state@, block@),
{
    let mut a = state[0];
    let mut b = state[1];
    let mut c = state[2];
    let mut d = state[3];
    let mut e = state[4];
    let mut window = block;
    let mut t: usize = 0;
    proof {
        lemma_window_initial(block@);
    }
    while t < 80
        invariant
            t <= 80,
            (Registers { a, b, c, d, e }) == rounds(registers_of(state@), block@, t as nat),
            is_window(window@, block@, t as int),
        decreases 80 - t,
    {
        let i = t % 16;
        proof {
            if t < 16 {
                lemma_window_read(window@, block@, t as int);
            } else {
                lemma_window_next(window@, block@, t as int);
                lemma_window_advance(window@, block@, t as int);
            }
        }
        let (next_window, turned, mixed) = if t < 16 {
            r0(window, a, b, c, d, e, i)
        } else if t < 20 {
            r1(window, a, b, c, d, e, i)
        } else if t < 40 {
            r2(window, a, b, c, d, e, i)
        } else if t < 60 {
            r3(window, a, b, c, d, e, i)
        } else {
            r4(window, a, b, c, d, e, i)
        };
        window = next_window;
        e = d;
        d = c;
        c = turned;
        b = a;
        a = mixed;
        t += 1;
    }
    [
        state[0].wrapping_add(a),
        state[1].wrapping_add(b),
        state[2].wrapping_add(c),
        state[3].wrapping_add(d),
        state[4].wrapping_add(e),
    ]
}

} // verus!
