use vstd::prelude::*;

verus! {

/// One cell of the terrain: an 8-bit colour and an 8-bit altitude.
#[derive(Clone, Copy, Debug, PartialEq, Eq, Structural)]
pub struct Texel {
    pub color: u8,
    pub altitude: u8,
}

/// The colour held by one half of a packed word: bits 8 to 15 for the low half,
/// bits 24 to 31 for the high half.
pub open spec fn color_of(word: u32, high: bool) -> u8 {
    if high {
        (word >> 24u32) as u8
    } else {
        ((word >> 8u32) & 0xFF) as u8
    }
}

/// The altitude held by one half of a packed word: bits 0 to 7 for the low half,
/// bits 16 to 23 for the high half.
pub open spec fn altitude_of(word: u32, high: bool) -> u8 {
    if high {
        ((word >> 16u32) & 0xFF) as u8
    } else {
        (word & 0xFF) as u8
    }
}

/// The texel held by one half of a packed word. Two texels share a word: the one at
/// an even Morton index in the low half, the one at the following odd index in the
/// high half.
pub open spec fn unpack(word: u32, high: bool) -> Texel {
    Texel { color: color_of(word, high), altitude: altitude_of(word, high) }
}

/// The half-word that holds `t` in the given half, zero elsewhere.
pub open spec fn half_bits(high: bool, t: Texel) -> u32 {
    if high {
        ((t.color as u32) << 24u32) | ((t.altitude as u32) << 16u32)
    } else {
        ((t.color as u32) << 8u32) | (t.altitude as u32)
    }
}

/// `word` with the given half replaced by `t`.
pub open spec fn pack(word: u32, high: bool, t: Texel) -> u32 {
    if high {
        (word & 0x0000FFFF) | half_bits(true, t)
    } else {
        (word & 0xFFFF0000) | half_bits(false, t)
    }
}

/// `word` with `t` OR-ed into the given half.
pub open spec fn or_into(word: u32, high: bool, t: Texel) -> u32 {
    word | half_bits(high, t)
}

/// The texel `t` with `s` OR-ed into both of its channels.
pub open spec fn merge(t: Texel, s: Texel) -> Texel {
    Texel { color: t.color | s.color, altitude: t.altitude | s.altitude }
}

/// Storing a texel into one half of a packed word and reading that half back yields
/// the texel; the other half, its packing sibling, keeps the texel it held.
pub proof fn lemma_packing_round_trip(word: u32, high: bool, t: Texel)
    ensures
        unpack(pack(word, high, t), high) == t,
        unpack(pack(word, high, t), !high) == unpack(word, !high),
{
    let c = t.color;
    let a = t.altitude;
    assert(((((word & 0x0000FFFF) | (((c as u32) << 24u32) | ((a as u32) << 16u32))) >> 24u32)
        as u8) == c) by (bit_vector);
    assert((((((word & 0x0000FFFF) | (((c as u32) << 24u32) | ((a as u32) << 16u32))) >> 16u32)
        & 0xFF) as u8) == a) by (bit_vector);
    assert((((((word & 0x0000FFFF) | (((c as u32) << 24u32) | ((a as u32) << 16u32))) >> 8u32)
        & 0xFF) as u8) == (((word >> 8u32) & 0xFF) as u8)) by (bit_vector);
    assert(((((word & 0x0000FFFF) | (((c as u32) << 24u32) | ((a as u32) << 16u32))) & 0xFF)
        as u8) == ((word & 0xFF) as u8)) by (bit_vector);
    assert((((((word & 0xFFFF0000) | (((c as u32) << 8u32) | (a as u32))) >> 8u32) & 0xFF)
        as u8) == c) by (bit_vector);
    assert(((((word & 0xFFFF0000) | (((c as u32) << 8u32) | (a as u32))) & 0xFF) as u8) == a)
        by (bit_vector);
    assert(((((word & 0xFFFF0000) | (((c as u32) << 8u32) | (a as u32))) >> 24u32) as u8) == ((
    word >> 24u32) as u8)) by (bit_vector);
    assert((((((word & 0xFFFF0000) | (((c as u32) << 8u32) | (a as u32))) >> 16u32) & 0xFF)
        as u8) == (((word >> 16u32) & 0xFF) as u8)) by (bit_vector);
}

/// OR-ing a texel into one half of a packed word ORs it into the texel read from that
/// half and leaves the other half as it was.
pub proof fn lemma_or_into(word: u32, high: bool, t: Texel)
    ensures
        unpack(or_into(word, high, t), high) == merge(unpack(word, high), t),
        unpack(or_into(word, high, t), !high) == unpack(word, !high),
{
    let c = t.color;
    let a = t.altitude;
    assert((((word | (((c as u32) << 24u32) | ((a as u32) << 16u32))) >> 24u32) as u8) == ((
    word >> 24u32) as u8) | c) by (bit_vector);
    assert(((((word | (((c as u32) << 24u32) | ((a as u32) << 16u32))) >> 16u32) & 0xFF)
        as u8) == (((word >> 16u32) & 0xFF) as u8) | a) by (bit_vector);
    assert(((((word | (((c as u32) << 24u32) | ((a as u32) << 16u32))) >> 8u32) & 0xFF) as u8)
        == (((word >> 8u32) & 0xFF) as u8)) by (bit_vector);
    assert((((word | (((c as u32) << 24u32) | ((a as u32) << 16u32))) & 0xFF) as u8) == ((word
        & 0xFF) as u8)) by (bit_vector);
    assert(((((word | (((c as u32) << 8u32) | (a as u32))) >> 8u32) & 0xFF) as u8) == (((word
        >> 8u32) & 0xFF) as u8) | c) by (bit_vector);
    assert((((word | (((c as u32) << 8u32) | (a as u32))) & 0xFF) as u8) == ((word & 0xFF)
        as u8) | a) by (bit_vector);
    assert((((word | (((c as u32) << 8u32) | (a as u32))) >> 24u32) as u8) == ((word >> 24u32)
        as u8)) by (bit_vector);
    assert(((((word | (((c as u32) << 8u32) | (a as u32))) >> 16u32) & 0xFF) as u8) == (((word
        >> 16u32) & 0xFF) as u8)) by (bit_vector);
}

/// Reads the texel held by one half of a packed word.
pub fn unpack_half(word: u32, high: bool) -> (r: Texel)
    ensures
        r == unpack(word, high),
{
    if high {
        Texel { color: (word >> 24u32) as u8, altitude: ((word >> 16u32) & 0xFF) as u8 }
    } else {
        Texel { color: ((word >> 8u32) & 0xFF) as u8, altitude: (word & 0xFF) as u8 }
    }
}

fn half_bits_exec(high: bool, t: Texel) -> (r: u32)
    ensures
        r == half_bits(high, t),
{
    if high {
        ((t.color as u32) << 24u32) | ((t.altitude as u32) << 16u32)
    } else {
        ((t.color as u32) << 8u32) | (t.altitude as u32)
    }
}

/// Replaces the texel in one half of a packed word.
pub fn pack_half(word: u32, high: bool, t: Texel) -> (r: u32)
    ensures
        r == pack(word, high, t),
        unpack(r, high) == t,
        unpack(r, !high) == unpack(word, !high),
{
    proof {
        lemma_packing_round_trip(word, high, t);
    }
    if high {
        (word & 0x0000FFFF) | half_bits_exec(true, t)
    } else {
        (word & 0xFFFF0000) | half_bits_exec(false, t)
    }
}

/// ORs a texel into one half of a packed word.
pub fn or_into_half(word: u32, high: bool, t: Texel) -> (r: u32)
    ensures
        r == or_into(word, high, t),
        unpack(r, high) == merge(unpack(word, high), t),
        unpack(r, !high) == unpack(word, !high),
{
    proof {
        lemma_or_into(word, high, t);
    }
    word | half_bits_exec(high, t)
}

} // verus!
