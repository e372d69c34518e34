use vstd::prelude::*;

verus! {

/// Spreads the bits of `v` apart: bit `i` of `v` becomes bit `2 * i` of the result.
pub open spec fn spread(v: nat) -> nat
    decreases v,
{
    if v == 0 {
        0
    } else {
        v % 2 + 4 * spread(v / 2)
    }
}

/// The Morton (Z-order) code of `(x, y)`: the bits of `x` in the even positions and
/// the bits of `y` in the odd positions.
pub open spec fn morton(x: nat, y: nat) -> nat {
    spread(x) + 2 * spread(y)
}

/// `d` is a power of two.
pub open spec fn is_pow2(d: nat) -> bool
    decreases d,
{
    if d == 1 {
        true
    } else if d >= 2 && d % 2 == 0 {
        is_pow2(d / 2)
    } else {
        false
    }
}

/// The lowest bit of each coordinate lands in the two lowest bits of the code; the
/// rest is the code of the halved coordinates, shifted up by two bits.
pub proof fn lemma_morton_step(x: nat, y: nat)
    ensures
        morton(x, y) == x % 2 + 2 * (y % 2) + 4 * morton(x / 2, y / 2),
{
    assert(spread(x) == x % 2 + 4 * spread(x / 2));
    assert(spread(y) == y % 2 + 4 * spread(y / 2));
}

/// For coordinates below a power of two `d`, the code is below `d * d`.
pub proof fn lemma_morton_bound(x: nat, y: nat, d: nat)
    requires
        is_pow2(d),
        x < d,
        y < d,
    ensures
        morton(x, y) < d * d,
    decreases d,
{
    lemma_morton_step(x, y);
    if d == 1 {
        assert(x == 0 && y == 0);
        assert(morton(0, 0) == 0) by {
            assert(spread(0) == 0);
        }
    } else {
        let e = d / 2;
        lemma_morton_bound(x / 2, y / 2, e);
        assert(d * d == 4 * (e * e)) by (nonlinear_arith)
            requires
                d == 2 * e,
        ;
    }
}

/// The Morton code tells coordinates apart: equal codes come from equal coordinates.
pub proof fn lemma_morton_injective(x1: nat, y1: nat, x2: nat, y2: nat)
    requires
        morton(x1, y1) == morton(x2, y2),
    ensures
        x1 == x2,
        y1 == y2,
    decreases x1 + y1 + x2 + y2,
{
    lemma_morton_step(x1, y1);
    lemma_morton_step(x2, y2);
    let m = morton(x1, y1);
    let lo1 = x1 % 2 + 2 * (y1 % 2);
    let lo2 = x2 % 2 + 2 * (y2 % 2);
    assert(lo1 == lo2 && morton(x1 / 2, y1 / 2) == morton(x2 / 2, y2 / 2)) by {
        assert(m == lo1 + 4 * morton(x1 / 2, y1 / 2));
        assert(m == lo2 + 4 * morton(x2 / 2, y2 / 2));
        assert(0 <= lo1 < 4 && 0 <= lo2 < 4);
    }
    if x1 + y1 + x2 + y2 > 0 {
        lemma_morton_injective(x1 / 2, y1 / 2, x2 / 2, y2 / 2);
    }
}

/// One step of the bit-interleaving trick on a 16-bit value held in a `u32`.
pub open spec fn spread_bits(v: u32) -> u32 {
    let a = (v | (v << 8u32)) & 0x00FF00FFu32;
    let b = (a | (a << 4u32)) & 0x0F0F0F0Fu32;
    let c = (b | (b << 2u32)) & 0x33333333u32;
    (c | (c << 1u32)) & 0x55555555u32
}

proof fn lemma_spread_bits_step(v: u32)
    requires
        v < 0x10000,
    ensures
        spread_bits(v) == (v & 1) + spread_bits(v >> 1u32) * 4,
        spread_bits(v) < 0x55555556,
{
    assert(spread_bits(v) == (v & 1) + spread_bits(v >> 1u32) * 4 && spread_bits(v) < 0x55555556) by (bit_vector)
        requires
            v < 0x10000,
    ;
}

proof fn lemma_spread_bits_is_spread(v: u32)
    requires
        v < 0x10000,
    ensures
        spread_bits(v) as nat == spread(v as nat),
    decreases v,
{
    lemma_spread_bits_step(v);
    assert(v & 1 == v % 2 && v >> 1u32 == v / 2) by (bit_vector);
    if v != 0 {
        lemma_spread_bits_is_spread(v >> 1u32);
    }
}

proof fn lemma_interleave_is_sum(a: u32, b: u32)
    requires
        a & 0xAAAAAAAA == 0,
        b & 0xAAAAAAAA == 0,
    ensures
        a | (b << 1u32) == a + 2 * b,
{
    assert(a | (b << 1u32) == a + 2 * b) by (bit_vector)
        requires
            a & 0xAAAAAAAA == 0,
            b & 0xAAAAAAAA == 0,
    ;
}

/// Spreads the low 16 bits of `v` onto the even bit positions.
fn spread_u32(v: u32) -> (r: u32)
    requires
        v < 0x10000,
    ensures
        r == spread_bits(v),
        r as nat == spread(v as nat),
        r & 0xAAAAAAAA == 0,
{
    let mut s: u32 = v;
    s = (s | (s << 8u32)) & 0x00FF00FF;
    s = (s | (s << 4u32)) & 0x0F0F0F0F;
    s = (s | (s << 2u32)) & 0x33333333;
    s = (s | (s << 1u32)) & 0x55555555;
    proof {
        lemma_spread_bits_is_spread(v);
        assert(spread_bits(v) & 0xAAAAAAAA == 0) by (bit_vector);
    }
    s
}

/// The Morton code of a grid coordinate: the bits of `x_pos` and `y_pos` interleaved,
/// `x_pos` on the even and `y_pos` on the odd bit positions. Both coordinates hold at
/// most 16 bits.
pub fn calc_z_order(x_pos: usize, y_pos: usize) -> (r: usize)
    requires
        x_pos < 0x10000,
        y_pos < 0x10000,
    ensures
        r as nat == morton(x_pos as nat, y_pos as nat),
{
    let x = spread_u32(x_pos as u32);
    let y = spread_u32(y_pos as u32);
    proof {
        lemma_interleave_is_sum(x, y);
    }
    (x | (y << 1u32)) as usize
}

/// The side of the grid that `test_z_curve` walks.
pub const Z_CURVE_SIDE: usize = 1024;

/// Fills a buffer of `1024 * 1024` cells so that the cell at the Morton code of `(x, y)`
/// holds `y * 1024 + x`, then reads every coordinate back through its code. Returns
/// whether every value came back; no two coordinates share a code, so it always does.
pub fn test_z_curve() -> (r: bool)
    ensures
        r,
{
    let n: usize = Z_CURVE_SIDE;
    let mut buf: Vec<i32> = vec![-1; 1024 * 1024];
    proof {
        reveal_with_fuel(is_pow2, 11);
    }
    let mut x: usize = 0;
    while x < n
        invariant
            n == 1024,
            is_pow2(1024),
            x <= n,
            buf@.len() == n * n,
            forall|a: nat, b: nat|
                a < x && b < n ==> #[trigger] buf@[morton(a, b) as int] == b * n + a,
        decreases n - x,
    {
        let mut y: usize = 0;
        while y < n
            invariant
                n == 1024,
                is_pow2(1024),
                x < n,
                y <= n,
                buf@.len() == n * n,
                forall|a: nat, b: nat|
                    (a < x && b < n) || (a == x && b < y) ==> #[trigger] buf@[morton(a, b) as int]
                        == b * n + a,
            decreases n - y,
        {
            let h = calc_z_order(x, y);
            proof {
                lemma_morton_bound(x as nat, y as nat, 1024);
                assert(y * n + x < 0x100000) by (nonlinear_arith)
                    requires
                        x < 1024,
                        y < 1024,
                        n == 1024,
                ;
            }
            let ghost prev = buf@;
            buf.set(h, (y * n + x) as i32);
            proof {
                assert forall|a: nat, b: nat|
                    (a < x && b < n) || (a == x && b < y + 1) implies #[trigger] buf@[morton(
                        a,
                        b,
                    ) as int] == b * n + a by {
                    lemma_morton_bound(a, b, 1024);
                    if a != x || b != y {
                        if morton(a, b) == morton(x as nat, y as nat) {
                            lemma_morton_injective(a, b, x as nat, y as nat);
                        }
                        assert(prev[morton(a, b) as int] == b * n + a);
                    }
                }
            }
            y = y + 1;
        }
        x = x + 1;
    }
    let mut x: usize = 0;
    while x < n
        invariant
            n == 1024,
            is_pow2(1024),
            x <= n,
            buf@.len() == n * n,
            forall|a: nat, b: nat|
                a < n && b < n ==> #[trigger] buf@[morton(a, b) as int] == b * n + a,
        decreases n - x,
    {
        let mut y: usize = 0;
        while y < n
            invariant
                n == 1024,
                is_pow2(1024),
                x < n,
                y <= n,
                buf@.len() == n * n,
                forall|a: nat, b: nat|
                    a < n && b < n ==> #[trigger] buf@[morton(a, b) as int] == b * n + a,
            decreases n - y,
        {
            let h = calc_z_order(x, y);
            proof {
                lemma_morton_bound(x as nat, y as nat, 1024);
                assert(buf@[morton(x as nat, y as nat) as int] == y * n + x);
            }
            if buf[h] != (y * n + x) as i32 {
                return false;
            }
            y = y + 1;
        }
        x = x + 1;
    }
    true
}

} // verus!
