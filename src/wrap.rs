use vstd::prelude::*;
use vstd::arithmetic::div_mod::{
    lemma_fundamental_div_mod,
    lemma_mod_breakdown,
    lemma_mod_multiples_basic,
    lemma_mod_multiples_vanish,
};
use crate::morton::is_pow2;

verus! {

/// Every power of two up to `m`, itself a power of two, divides `m`.
proof fn lemma_pow2_divides(d: nat, m: nat)
    requires
        is_pow2(d),
        is_pow2(m),
        d <= m,
    ensures
        m % d == 0,
    decreases m,
{
    if d == 1 {
    } else {
        assert(m >= 2 && m % 2 == 0);
        lemma_pow2_divides(d / 2, m / 2);
        let k = (m / 2) / (d / 2);
        lemma_fundamental_div_mod((m / 2) as int, (d / 2) as int);
        assert(m / 2 == k * (d / 2));
        assert(m == k * d) by (nonlinear_arith)
            requires
                m / 2 == k * (d / 2),
                m % 2 == 0,
                d % 2 == 0,
        ;
        lemma_mod_multiples_basic(k as int, d as int);
    }
}

/// For a power of two `d`, masking with `d - 1` keeps the remainder modulo `d`.
proof fn lemma_mask_is_mod(x: u32, d: nat)
    requires
        is_pow2(d),
        d <= 0x10000,
    ensures
        x & ((d - 1) as u32) == x % (d as u32),
    decreases d,
{
    if d == 1 {
        assert(x & 0 == 0) by (bit_vector);
    } else {
        let e = d / 2;
        let m = (e - 1) as u32;
        lemma_mask_is_mod(x >> 1u32, e);
        assert(x & ((2 * m + 1) as u32) == (x & 1) + 2 * ((x >> 1u32) & m)) by (bit_vector)
            requires
                m < 0x8000,
        ;
        assert(x & 1 == x % 2 && x >> 1u32 == x / 2) by (bit_vector);
        lemma_mod_breakdown(x as int, 2, e as int);
    }
}

/// A coordinate brought into `[0, d)` for a power of two `d`: its remainder modulo `d`,
/// negative coordinates included.
pub open spec fn wrapped(c: int, d: nat) -> nat {
    (c % (d as int)) as nat
}

/// Wraps a coordinate into `[0, d)` by masking its two's-complement bits with `d - 1`;
/// the result is the coordinate modulo `d`.
pub fn wrap_coordinate(c: i32, d: usize) -> (r: usize)
    requires
        is_pow2(d as nat),
        d <= 0x10000,
    ensures
        r == wrapped(c as int, d as nat),
        r < d,
{
    let u = c as u32;
    let r = u & ((d - 1) as u32);
    proof {
        lemma_mask_is_mod(u, d as nat);
        assert((c as u32) as int == if c >= 0 { c as int } else { c as int + 0x1_0000_0000 }) by (bit_vector);
        reveal_with_fuel(is_pow2, 34);
        assert(is_pow2(0x1_0000_0000));
        lemma_pow2_divides(d as nat, 0x1_0000_0000);
        let k = 0x1_0000_0000int / (d as int);
        lemma_fundamental_div_mod(0x1_0000_0000int, d as int);
        assert(0x1_0000_0000int == d * k);
        lemma_mod_multiples_vanish(k, c as int, d as int);
    }
    r as usize
}

} // verus!
