//! Fixed-width field masks and the 32-bit word decoding shared by all module families.
use vstd::prelude::*;

verus! {

pub const ONE_BIT: u32 = 0x1;

pub const TWO_BIT: u32 = 0x3;

pub const THREE_BIT: u32 = 0x7;

pub const FOUR_BIT: u32 = 0xF;

pub const FIVE_BIT: u32 = 0x1F;

pub const SEVEN_BIT: u32 = 0x7F;

pub const EIGHT_BIT: u32 = 0xFF;

pub const TEN_BIT: u32 = 0x3FF;

pub const SIXTEEN_BIT: u32 = 0xFFFF;

pub const THIRTY_BIT: u32 = 0x3FFFFFFF;

/// The value of four bytes read with the first one least significant.
pub open spec fn le_value(b0: u8, b1: u8, b2: u8, b3: u8) -> int {
    b0 as int + 256 * (b1 as int) + 65536 * (b2 as int) + 16777216 * (b3 as int)
}

/// The value of four bytes read with the first one most significant.
pub open spec fn be_value(b0: u8, b1: u8, b2: u8, b3: u8) -> int {
    le_value(b3, b2, b1, b0)
}

/// The little-endian word that starts at byte `4 * i` of `bytes`.
pub open spec fn word_of(bytes: Seq<u8>, i: int) -> u32 {
    le_value(bytes[4 * i], bytes[4 * i + 1], bytes[4 * i + 2], bytes[4 * i + 3]) as u32
}

/// The sequence of complete little-endian words in `bytes`; trailing bytes that
/// do not make a whole word are left out.
pub open spec fn words_of(bytes: Seq<u8>) -> Seq<u32> {
    Seq::new((bytes.len() / 4) as nat, |i: int| word_of(bytes, i))
}

proof fn lemma_le_value_bounds(b0: u8, b1: u8, b2: u8, b3: u8)
    ensures
        0 <= le_value(b0, b1, b2, b3) < 0x1_0000_0000,
{
}

fn combine_le(b0: u8, b1: u8, b2: u8, b3: u8) -> (r: u32)
    ensures
        r as int == le_value(b0, b1, b2, b3),
{
    let x0 = b0 as u32;
    let x1 = b1 as u32;
    let x2 = b2 as u32;
    let x3 = b3 as u32;
    assert(x1 << 8 == x1 * 256) by (bit_vector)
        requires
            x1 < 256,
    ;
    assert(x2 << 16 == x2 * 65536) by (bit_vector)
        requires
            x2 < 256,
    ;
    assert(x3 << 24 == x3 * 16777216) by (bit_vector)
        requires
            x3 < 256,
    ;
    x0 + (x1 << 8) + (x2 << 16) + (x3 << 24)
}

/// Reads the first four bytes as a big-endian word.
pub fn to_u32_be(bytes: &[u8]) -> (r: u32)
    requires
        bytes@.len() >= 4,
    ensures
        r as int == be_value(bytes@[0], bytes@[1], bytes@[2], bytes@[3]),
{
    combine_le(bytes[3], bytes[2], bytes[1], bytes[0])
}

/// Reads the first four bytes as a little-endian word.
pub fn to_u32_le(bytes: &[u8]) -> (r: u32)
    requires
        bytes@.len() >= 4,
    ensures
        r as int == le_value(bytes@[0], bytes@[1], bytes@[2], bytes@[3]),
        r == word_of(bytes@, 0),
{
    word_at(bytes, 0)
}

/// Reads the `i`-th little-endian word of `bytes`.
pub fn word_at(bytes: &[u8], i: usize) -> (r: u32)
    requires
        4 * i + 4 <= bytes@.len(),
    ensures
        r == word_of(bytes@, i as int),
        r == words_of(bytes@)[i as int],
{
    let len = bytes.len();
    assert(4 * i + 4 <= len);
    let k = 4 * i;
    combine_le(bytes[k], bytes[k + 1], bytes[k + 2], bytes[k + 3])
}

/// Decodes every complete little-endian word of `bytes`.
pub fn decode_words(bytes: &[u8]) -> (r: Vec<u32>)
    ensures
        r@ == words_of(bytes@),
{
    let n = bytes.len() / 4;
    let mut out: Vec<u32> = Vec::with_capacity(n);
    let mut i: usize = 0;
    while i < n
        invariant
            n == bytes@.len() / 4,
            i <= n,
            out@ == words_of(bytes@).take(i as int),
        decreases n - i,
    {
        let w = word_at(bytes, i);
        out.push(w);
        i += 1;
        assert(out@ =~= words_of(bytes@).take(i as int));
    }
    assert(out@ =~= words_of(bytes@));
    out
}

/// Bits `shift ..` of `word` under `mask`.
pub open spec fn field(word: u32, shift: u32, mask: u32) -> u32 {
    (word >> shift) & mask
}

} // verus!
