//! The mathematical definition of SHA-1 that the executable code is
//! verified against.
//!
//! A message is a `Seq<u8>`, a block is a `Seq<u32>` of sixteen words and a
//! chaining state is a `Seq<u32>` of five words.

use vstd::prelude::*;

verus! {

/// Rotation of a 32-bit word to the left by `n` bit positions, `0 < n < 32`.
pub open spec fn rotl(x: u32, n: u32) -> u32 {
    (x << n) | (x >> ((32 - n) as u32))
}

/// Sum of two words modulo 2^32.
pub open spec fn add32(x: u32, y: u32) -> u32 {
    ((x + y) % 0x1_0000_0000) as u32
}

/// Sum of five words modulo 2^32.
pub open spec fn sum5(a: u32, b: u32, c: u32, d: u32, e: u32) -> u32 {
    ((a + b + c + d + e) % 0x1_0000_0000) as u32
}

/// Mixing function of rounds 0 to 19: each bit of `b` selects the bit of
/// `c` or of `d`.
pub open spec fn ch(b: u32, c: u32, d: u32) -> u32 {
    (b & (c ^ d)) ^ d
}

/// Mixing function of rounds 20 to 39 and 60 to 79.
pub open spec fn parity(b: u32, c: u32, d: u32) -> u32 {
    b ^ c ^ d
}

/// Mixing function of rounds 40 to 59: the majority of the three bits.
pub open spec fn maj(b: u32, c: u32, d: u32) -> u32 {
    (b & c) | (b & d) | (c & d)
}

/// The mixing function of round `t`, `0 <= t < 80`.
pub open spec fn round_mix(t: int, b: u32, c: u32, d: u32) -> u32 {
    if t < 20 {
        ch(b, c, d)
    } else if t < 40 {
        parity(b, c, d)
    } else if t < 60 {
        maj(b, c, d)
    } else {
        parity(b, c, d)
    }
}

/// The additive constant of round `t`, `0 <= t < 80`.
pub open spec fn round_constant(t: int) -> u32 {
    if t < 20 {
        0x5A82_7999
    } else if t < 40 {
        0x6ED9_EBA1
    } else if t < 60 {
        0x8F1B_BCDC
    } else {
        0xCA62_C1D6
    }
}

/// Word `t` of the message schedule of `block`: the block's own sixteen
/// words, then the recurrence over the words 3, 8, 14 and 16 places back.
pub open spec fn schedule_word(block: Seq<u32>, t: int) -> u32
    decreases t,
{
    if t < 16 {
        block[t]
    } else {
        rotl(
            schedule_word(block, t - 3) ^ schedule_word(block, t - 8)
                ^ schedule_word(block, t - 14) ^ schedule_word(block, t - 16),
            1,
        )
    }
}

/// The five working variables of the compression function.
pub struct Registers {
    pub a: u32,
    pub b: u32,
    pub c: u32,
    pub d: u32,
    pub e: u32,
}

/// The working variables that hold the words of `state`.
pub open spec fn registers_of(state: Seq<u32>) -> Registers {
    Registers { a: state[0], b: state[1], c: state[2], d: state[3], e: state[4] }
}

/// One round: round `t` applied to `r` with schedule word `w`.
pub open spec fn round_step(r: Registers, t: int, w: u32) -> Registers {
    Registers {
        a: sum5(rotl(r.a, 5), round_mix(t, r.b, r.c, r.d), r.e, round_constant(t), w),
        b: r.a,
        c: rotl(r.b, 30),
        d: r.c,
        e: r.d,
    }
}

/// The working variables after the first `t` rounds over `block`.
pub open spec fn rounds(start: Registers, block: Seq<u32>, t: nat) -> Registers
    decreases t,
{
    if t == 0 {
        start
    } else {
        round_step(rounds(start, block, (t - 1) as nat), t - 1, schedule_word(block, t - 1))
    }
}

/// The compression function: the state that follows `state` once `block`
/// has been absorbed.
pub open spec fn compress(state: Seq<u32>, block: Seq<u32>) -> Seq<u32> {
    let r = rounds(registers_of(state), block, 80);
    seq![
        add32(state[0], r.a),
        add32(state[1], r.b),
        add32(state[2], r.c),
        add32(state[3], r.d),
        add32(state[4], r.e),
    ]
}

/// The state every digest starts from.
pub open spec fn initial_state() -> Seq<u32> {
    seq![0x6745_2301u32, 0xEFCD_AB89u32, 0x98BA_DCFEu32, 0x1032_5476u32, 0xC3D2_E1F0u32]
}

/// The word whose big-endian bytes are `b0`, `b1`, `b2`, `b3`.
pub open spec fn be_word(b0: u8, b1: u8, b2: u8, b3: u8) -> u32 {
    (b0 * 0x100_0000 + b1 * 0x1_0000 + b2 * 0x100 + b3) as u32
}

/// The sixteen words packed in the 64 bytes of `bytes` that start at
/// `offset`.
pub open spec fn block_words(bytes: Seq<u8>, offset: int) -> Seq<u32> {
    Seq::new(
        16,
        |i: int|
            be_word(
                bytes[offset + 4 * i],
                bytes[offset + 4 * i + 1],
                bytes[offset + 4 * i + 2],
                bytes[offset + 4 * i + 3],
            ),
    )
}

/// The state after the first `n` blocks of `bytes` have been absorbed into
/// `state`, one after the other.
pub open spec fn absorb(state: Seq<u32>, bytes: Seq<u8>, n: nat) -> Seq<u32>
    decreases n,
{
    if n == 0 {
        state
    } else {
        compress(absorb(state, bytes, (n - 1) as nat), block_words(bytes, 64 * (n - 1)))
    }
}

/// The length field of a message of `n` bytes: its length in bits, as a
/// 64-bit value. SHA-1 is defined for messages of fewer than 2^64 bits,
/// whose length the field holds in full; of a longer one it holds the low
/// 64 bits.
pub open spec fn bit_length(n: nat) -> u64 {
    ((n * 8) % 0x1_0000_0000_0000_0000) as u64
}

/// The eight bytes of `x`, most significant first.
pub open spec fn be_bytes64(x: u64) -> Seq<u8> {
    seq![
        (x / 0x100_0000_0000_0000) as u8,
        (x / 0x1_0000_0000_0000 % 0x100) as u8,
        (x / 0x100_0000_0000 % 0x100) as u8,
        (x / 0x1_0000_0000 % 0x100) as u8,
        (x / 0x100_0000 % 0x100) as u8,
        (x / 0x1_0000 % 0x100) as u8,
        (x / 0x100 % 0x100) as u8,
        (x % 0x100) as u8,
    ]
}

/// The number of zero bytes between the marker byte and the length field,
/// for a message whose last, partial block holds `n % 64` bytes.
pub open spec fn zero_fill(n: nat) -> nat {
    if n % 64 < 56 {
        (55 - n % 64) as nat
    } else {
        (119 - n % 64) as nat
    }
}

/// The number of blocks that the last `n % 64` bytes of a message of `n`
/// bytes take with their padding: one where the marker byte and the length
/// field fit behind them, else two.
pub open spec fn final_block_count(n: nat) -> nat {
    if n % 64 < 56 {
        1
    } else {
        2
    }
}

/// What follows the last `tail_len` message bytes in the final block or
/// blocks of a message of `total` bytes: the marker byte `0x80`, the zero
/// bytes, and the length field.
pub open spec fn padding(tail_len: nat, total: nat) -> Seq<u8> {
    seq![0x80u8] + Seq::new(zero_fill(tail_len), |i: int| 0u8) + be_bytes64(bit_length(total))
}

/// The message with its padding: a whole number of blocks.
pub open spec fn padded(msg: Seq<u8>) -> Seq<u8> {
    msg + padding(msg.len(), msg.len())
}

/// The SHA-1 digest of `msg`, as five words.
pub open spec fn sha1_of(msg: Seq<u8>) -> Seq<u32> {
    absorb(initial_state(), padded(msg), padded(msg).len() / 64)
}

} // verus!
