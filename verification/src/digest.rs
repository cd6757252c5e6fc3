//! The finished digest and its two renderings: twenty bytes, and forty
//! lowercase hexadecimal digits.

use vstd::prelude::*;
use vstd::string::{StrSliceExecFns, StringExecFns};

verus! {

/// The four bytes of `w`, most significant first.
pub open spec fn be_bytes32(w: u32) -> Seq<u8> {
    seq![
        (w / 0x100_0000) as u8,
        (w / 0x1_0000 % 0x100) as u8,
        (w / 0x100 % 0x100) as u8,
        (w % 0x100) as u8,
    ]
}

/// The bytes of a digest: those of each word in turn, four for each.
pub open spec fn digest_bytes(words: Seq<u32>) -> Seq<u8> {
    Seq::new(4 * words.len(), |i: int| be_bytes32(words[i / 4])[i % 4])
}

/// The sixteen hexadecimal digits, in lower case.
pub open spec fn hex_digits() -> Seq<char> {
    seq!['0', '1', '2', '3', '4', '5', '6', '7', '8', '9', 'a', 'b', 'c', 'd', 'e', 'f']
}

/// The hexadecimal rendering of `bytes`: two digits for each byte, the high
/// half first.
pub open spec fn hex(bytes: Seq<u8>) -> Seq<char> {
    Seq::new(
        2 * bytes.len(),
        |i: int|
            if i % 2 == 0 {
                hex_digits()[bytes[i / 2] as int / 16]
            } else {
                hex_digits()[bytes[i / 2] as int % 16]
            },
    )
}

/// `c` is one of `0` to `9` or `a` to `f`.
pub open spec fn is_lower_hex(c: char) -> bool {
    ('0' <= c && c <= '9') || ('a' <= c && c <= 'f')
}

/// Shifting and truncating a word yields its big-endian bytes.
proof fn lemma_word_bytes(w: u32)
    ensures
        (w >> 24) as u8 == (w / 0x100_0000) as u8,
        (w >> 16) as u8 == (w / 0x1_0000 % 0x100) as u8,
        (w >> 8) as u8 == (w / 0x100 % 0x100) as u8,
        w as u8 == (w % 0x100) as u8,
{
    assert((w >> 24u32) as u8 == (w / 0x100_0000u32) as u8) by (bit_vector);
    assert((w >> 16u32) as u8 == (w / 0x1_0000u32 % 0x100u32) as u8) by (bit_vector);
    assert((w >> 8u32) as u8 == (w / 0x100u32 % 0x100u32) as u8) by (bit_vector);
    assert(w as u8 == (w % 0x100u32) as u8) by (bit_vector);
}

/// Every character of a hexadecimal rendering is a lowercase hexadecimal
/// digit, and there are two of them for each byte.
pub proof fn lemma_hex_shape(bytes: Seq<u8>)
    ensures
        hex(bytes).len() == 2 * bytes.len(),
        forall|i: int| 0 <= i < hex(bytes).len() ==> is_lower_hex(#[trigger] hex(bytes)[i]),
{
    let digits = hex(bytes);
    assert forall|i: int| 0 <= i < digits.len() implies is_lower_hex(#[trigger] digits[i]) by {
        lemma_hex_digit(bytes[i / 2] as int / 16);
        lemma_hex_digit(bytes[i / 2] as int % 16);
    }
}

/// Each of the sixteen digits is a lowercase hexadecimal digit.
proof fn lemma_hex_digit(n: int)
    requires
        0 <= n < 16,
    ensures
        is_lower_hex(hex_digits()[n]),
{
}

/// Returns the digit for `n` as a string of one character.
fn hex_str(n: u8) -> (s: &'static str)
    requires
        n < 16,
    ensures
        s@ == seq![hex_digits()[n as int]],
{
    let digits = "0123456789abcdef";
    proof {
        reveal_strlit("0123456789abcdef");
        assert(digits@ =~= hex_digits());
    }
    let digit = digits.substring_ascii(n as usize, n as usize + 1);
    assert(digit@ =~= seq![hex_digits()[n as int]]);
    digit
}

/// A SHA-1 digest: five 32-bit words.
#[derive(Clone, Copy, Debug, PartialEq, Eq)]
pub struct Digest {
    pub(crate) data: [u32; 5],
}

impl View for Digest {
    type V = Seq<u32>;

    /// The five words of the digest.
    open(crate) spec fn view(&self) -> Seq<u32> {
        self.data@
    }
}

impl Digest {
    /// Returns the 160 bit (20 byte) digest as a byte array.
    pub fn as_bytes(&self) -> (bytes: [u8; 20])
        ensures
            bytes@ == digest_bytes(self@),
    {
        proof {
            lemma_word_bytes(self.data[0]);
            lemma_word_bytes(self.data[1]);
            lemma_word_bytes(self.data[2]);
            lemma_word_bytes(self.data[3]);
            lemma_word_bytes(self.data[4]);
        }
        let bytes = [
            #[verifier::truncate] ((self.data[0] >> 24) as u8),
            #[verifier::truncate] ((self.data[0] >> 16) as u8),
            #[verifier::truncate] ((self.data[0] >> 8) as u8),
            #[verifier::truncate] (self.data[0] as u8),
            #[verifier::truncate] ((self.data[1] >> 24) as u8),
            #[verifier::truncate] ((self.data[1] >> 16) as u8),
            #[verifier::truncate] ((self.data[1] >> 8) as u8),
            #[verifier::truncate] (self.data[1] as u8),
            #[verifier::truncate] ((self.data[2] >> 24) as u8),
            #[verifier::truncate] ((self.data[2] >> 16) as u8),
            #[verifier::truncate] ((self.data[2] >> 8) as u8),
            #[verifier::truncate] (self.data[2] as u8),
            #[verifier::truncate] ((self.data[3] >> 24) as u8),
            #[verifier::truncate] ((self.data[3] >> 16) as u8),
            #[verifier::truncate] ((self.data[3] >> 8) as u8),
            #[verifier::truncate] (self.data[3] as u8),
            #[verifier::truncate] ((self.data[4] >> 24) as u8),
            #[verifier::truncate] ((self.data[4] >> 16) as u8),
            #[verifier::truncate] ((self.data[4] >> 8) as u8),
            #[verifier::truncate] (self.data[4] as u8),
        ];
        assert(bytes@ =~= digest_bytes(self@));
        bytes
    }

    /// Renders the digest as forty lowercase hexadecimal digits.
    pub fn to_string(&self) -> (s: String)
        ensures
            s@ == hex(digest_bytes(self@)),
            s@.len() == 40,
            forall|i: int| 0 <= i < 40 ==> is_lower_hex(#[trigger] s@[i]),
    {
        let bytes = self.as_bytes();
        let mut s = String::new();
        let mut i: usize = 0;
        while i < 20
            invariant
                i <= 20,
                bytes@ == digest_bytes(self@),
                s@ == hex(bytes@.subrange(0, i as int)),
            decreases 20 - i,
        {
            let byte = bytes[i];
            let ghost before = s@;
            s.append(hex_str(byte / 16));
            s.append(hex_str(byte % 16));
            assert(s@ =~= hex(bytes@.subrange(0, i + 1))) by {
                let shorter = bytes@.subrange(0, i as int);
                let longer = bytes@.subrange(0, i + 1);
                let high = hex_digits()[byte as int / 16];
                let low = hex_digits()[byte as int % 16];
                assert(s@ == before + seq![high] + seq![low]);
                assert forall|k: int| 0 <= k < 2 * i implies hex(longer)[k] == hex(shorter)[k] by {
                    assert(longer[k / 2] == shorter[k / 2]);
                }
                assert(longer[i as int] == byte);
            }
            i += 1;
        }
        proof {
            assert(bytes@.subrange(0, 20) =~= bytes@);
            lemma_hex_shape(bytes@);
        }
        s
    }
}

} // verus!
