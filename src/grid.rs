use vstd::prelude::*;
use crate::morton::{calc_z_order, is_pow2, lemma_morton_bound, lemma_morton_injective, morton};
use crate::texel::{merge, or_into_half, pack_half, unpack, unpack_half, Texel};
use crate::wrap::{wrap_coordinate, wrapped};

verus! {

/// The largest side a grid may have: Morton codes interleave 16-bit coordinates.
pub const MAX_SIDE: usize = 0x10000;

/// Why a grid could not be built or loaded.
#[derive(Clone, Copy, Debug, PartialEq, Eq, Structural)]
pub enum GridError {
    /// A side of the grid is not a power of two.
    NotPowerOfTwo,
    /// A side of the grid is larger than `MAX_SIDE`.
    TooLarge,
    /// A source raster does not hold exactly `width * height` bytes.
    SizeMismatch,
}

/// The number of packed words that hold every Morton code of a square of side `side`.
pub open spec fn words_for(side: nat) -> nat {
    if side <= 1 {
        1
    } else {
        side * side / 2
    }
}

/// The side of the square that Morton codes of a `width x height` grid fill.
pub open spec fn square_side(width: nat, height: nat) -> nat {
    if width >= height {
        width
    } else {
        height
    }
}

/// Whether `width` and `height` are acceptable grid sides.
pub open spec fn valid_dims(width: nat, height: nat) -> bool {
    is_pow2(width) && is_pow2(height) && width <= MAX_SIDE && height <= MAX_SIDE
}

/// The texel that the sources give for `(x, y)`, read in row-major order.
pub open spec fn source_texel(colors: Seq<u8>, altitudes: Seq<u8>, width: nat, x: nat, y: nat) -> Texel {
    Texel { color: colors[(y * width + x) as int], altitude: altitudes[(y * width + x) as int] }
}

/// A `width x height` terrain grid, stored two texels to a 32-bit word in Morton order.
pub struct TerrainGrid {
    width: usize,
    height: usize,
    color_altitude: Vec<u32>,
}

/// Whether `d` is a power of two, found by halving it while it is even.
pub fn is_power_of_two(d: usize) -> (r: bool)
    ensures
        r == is_pow2(d as nat),
{
    if d == 0 {
        return false;
    }
    let mut v: usize = d;
    while v > 1 && v % 2 == 0
        invariant
            v >= 1,
            is_pow2(v as nat) == is_pow2(d as nat),
        decreases v,
    {
        v = v / 2;
    }
    v == 1
}

impl TerrainGrid {
    pub closed spec fn spec_width(&self) -> usize {
        self.width
    }

    pub closed spec fn spec_height(&self) -> usize {
        self.height
    }

    /// The texels in Morton order: cell `n` sits in word `n / 2`, in its high half when
    /// `n` is odd.
    pub closed spec fn cells(&self) -> Seq<Texel> {
        Seq::new(
            2 * self.color_altitude@.len(),
            |n: int| unpack(self.color_altitude@[n / 2], n % 2 == 1),
        )
    }

    /// The sides are valid and the storage holds every Morton code of the grid.
    pub closed spec fn wf(&self) -> bool {
        &&& valid_dims(self.width as nat, self.height as nat)
        &&& self.color_altitude@.len() == words_for(
            square_side(self.width as nat, self.height as nat),
        )
    }

    /// The texel at `(x, y)`, for `x < width` and `y < height`.
    pub open spec fn texel(&self, x: nat, y: nat) -> Texel {
        self.cells()[morton(x, y) as int]
    }

    /// The texel at any integer coordinate, wrapped into the grid on both axes.
    pub open spec fn wrapped_texel(&self, x: int, y: int) -> Texel {
        self.texel(
            wrapped(x, self.spec_width() as nat),
            wrapped(y, self.spec_height() as nat),
        )
    }

    /// A well-formed grid has valid sides.
    pub proof fn lemma_valid_dims(&self)
        requires
            self.wf(),
        ensures
            valid_dims(self.spec_width() as nat, self.spec_height() as nat),
    {
    }

    /// The Morton code of every coordinate of the grid indexes a stored texel.
    pub proof fn lemma_cell_in_range(&self, x: nat, y: nat)
        requires
            self.wf(),
            x < self.spec_width(),
            y < self.spec_height(),
        ensures
            morton(x, y) < self.cells().len(),
            morton(x, y) < 0x1_0000_0000,
    {
        let side = square_side(self.width as nat, self.height as nat);
        lemma_morton_bound(x, y, side);
        if side >= 2 {
            let k = side / 2;
            assert(side == 2 * k);
            assert(side * side == 2 * (k * side)) by (nonlinear_arith)
                requires
                    side == 2 * k,
            ;
        }
        assert(side * side <= 0x1_0000_0000) by (nonlinear_arith)
            requires
                side <= 0x10000,
        ;
    }

    /// A grid of the given sides with every texel zero: colour 0, altitude 0.
    pub fn new(width: usize, height: usize) -> (r: Result<TerrainGrid, GridError>)
        ensures
            match r {
                Ok(g) => {
                    &&& valid_dims(width as nat, height as nat)
                    &&& g.wf()
                    &&& g.width() == width
                    &&& g.height() == height
                    &&& forall|n: int|
                        0 <= n < g.cells().len() ==> #[trigger] g.cells()[n] == (Texel {
                            color: 0,
                            altitude: 0,
                        })
                },
                Err(e) => {
                    &&& !valid_dims(width as nat, height as nat)
                    &&& e == if !(is_pow2(width as nat) && is_pow2(height as nat)) {
                        GridError::NotPowerOfTwo
                    } else {
                        GridError::TooLarge
                    }
                },
            },
    {
        if !(is_power_of_two(width) && is_power_of_two(height)) {
            return Err(GridError::NotPowerOfTwo);
        }
        if width > MAX_SIDE || height > MAX_SIDE {
            return Err(GridError::TooLarge);
        }
        let side = if width >= height {
            width
        } else {
            height
        };
        proof {
            if side >= 2 {
                assert(side % 2 == 0);
                let k = side / 2;
                assert(side * side == 2 * (k * side)) by (nonlinear_arith)
                    requires
                        side == 2 * k,
                ;
                assert((side / 2) * side <= 0x8000_0000) by (nonlinear_arith)
                    requires
                        side <= 0x10000,
                        side == 2 * k,
                ;
            }
        }
        let words: usize = if side <= 1 {
            1
        } else {
            (side / 2) * side
        };
        let g = TerrainGrid { width, height, color_altitude: vec![0u32; words] };
        proof {
            assert(((0u32 >> 24u32) as u8) == 0 && (((0u32 >> 16u32) & 0xFF) as u8) == 0 && (((
            0u32 >> 8u32) & 0xFF) as u8) == 0 && ((0u32 & 0xFF) as u8) == 0) by (bit_vector);
        }
        Ok(g)
    }

    /// The texel at Morton index `n`.
    pub fn texel_at(&self, n: usize) -> (r: Texel)
        requires
            self.wf(),
            n < self.cells().len(),
        ensures
            r == self.cells()[n as int],
    {
        proof {
            assert(n >> 1 == n / 2 && n & 1 == n % 2) by (bit_vector);
        }
        let word = self.color_altitude[n >> 1];
        unpack_half(word, n & 1 == 1)
    }

    /// Stores `t` at Morton index `n`; every other texel, the one that shares its word
    /// included, keeps its value.
    pub fn set_texel_at(&mut self, n: usize, t: Texel)
        requires
            old(self).wf(),
            n < old(self).cells().len(),
        ensures
            final(self).wf(),
            final(self).width() == old(self).width(),
            final(self).height() == old(self).height(),
            final(self).cells() == old(self).cells().update(n as int, t),
    {
        proof {
            assert(n >> 1 == n / 2 && n & 1 == n % 2) by (bit_vector);
        }
        let i = n >> 1;
        let word = self.color_altitude[i];
        let packed = pack_half(word, n & 1 == 1, t);
        self.color_altitude.set(i, packed);
        assert(self.cells() =~= old(self).cells().update(n as int, t));
    }

    /// ORs `t` into the texel at Morton index `n`; every other texel keeps its value.
    fn or_texel_at(&mut self, n: usize, t: Texel)
        requires
            old(self).wf(),
            n < old(self).cells().len(),
        ensures
            final(self).wf(),
            final(self).width() == old(self).width(),
            final(self).height() == old(self).height(),
            final(self).cells() == old(self).cells().update(
                n as int,
                merge(old(self).cells()[n as int], t),
            ),
    {
        proof {
            assert(n >> 1 == n / 2 && n & 1 == n % 2) by (bit_vector);
        }
        let i = n >> 1;
        let word = self.color_altitude[i];
        let merged = or_into_half(word, n & 1 == 1, t);
        self.color_altitude.set(i, merged);
        assert(self.cells() =~= old(self).cells().update(
            n as int,
            merge(old(self).cells()[n as int], t),
        ));
    }

    /// The texel at `(x, y)`: the word at half the Morton code, the half its lowest bit
    /// selects.
    pub fn lookup(&self, x: usize, y: usize) -> (r: Texel)
        requires
            self.wf(),
            x < self.width(),
            y < self.height(),
        ensures
            r == self.texel(x as nat, y as nat),
    {
        proof {
            self.lemma_cell_in_range(x as nat, y as nat);
        }
        let n = calc_z_order(x, y);
        self.texel_at(n)
    }

    /// The texel at an integer coordinate, wrapped into the grid on each axis by masking
    /// with the side minus one.
    pub fn lookup_wrapped(&self, x: i32, y: i32) -> (r: Texel)
        requires
            self.wf(),
        ensures
            r == self.wrapped_texel(x as int, y as int),
    {
        let wx = wrap_coordinate(x, self.width);
        let wy = wrap_coordinate(y, self.height);
        self.lookup(wx, wy)
    }

    /// The width of the grid.
    #[verifier::when_used_as_spec(spec_width)]
    pub fn width(&self) -> (r: usize)
        ensures
            r == self.spec_width(),
    {
        self.width
    }

    /// The height of the grid.
    #[verifier::when_used_as_spec(spec_height)]
    pub fn height(&self) -> (r: usize)
        ensures
            r == self.spec_height(),
    {
        self.height
    }
}

} // verus!

verus! {

/// Loads terrain from two rasters in row-major order, one of colours and one of
/// altitudes, each of exactly `width * height` bytes: the pair read at `(x, y)` is OR-ed
/// into the texel at `(x, y)`. Sources of any other size leave the grid as it was.
pub fn load_map(colors: &[u8], altitudes: &[u8], map: &mut TerrainGrid) -> (r: Result<
    (),
    GridError,
>)
    requires
        old(map).wf(),
    ensures
        final(map).wf(),
        final(map).width() == old(map).width(),
        final(map).height() == old(map).height(),
        r.is_err() <==> (colors@.len() != old(map).width() * old(map).height() || altitudes@.len()
            != old(map).width() * old(map).height()),
        r.is_err() ==> r == Err::<(), GridError>(GridError::SizeMismatch) && *final(map)
            == *old(map),
        r.is_ok() ==> forall|x: nat, y: nat|
            x < old(map).width() && y < old(map).height() ==> #[trigger] final(map).texel(x, y)
                == merge(
                old(map).texel(x, y),
                source_texel(colors@, altitudes@, old(map).width() as nat, x, y),
            ),
{
    let w = map.width();
    let h = map.height();
    proof {
        map.lemma_valid_dims();
        assert(w * h <= 0x1_0000_0000) by (nonlinear_arith)
            requires
                w <= 0x10000,
                h <= 0x10000,
        ;
    }
    let count = (w as u64) * (h as u64);
    if colors.len() as u64 != count || altitudes.len() as u64 != count {
        return Err(GridError::SizeMismatch);
    }
    let ghost orig = *map;
    let ghost cs = colors@;
    let ghost als = altitudes@;
    let mut i: usize = 0;
    let mut y: usize = 0;
    while y < h
        invariant
            map.wf(),
            map.width() == w,
            map.height() == h,
            orig.width() == w,
            orig.height() == h,
            orig.wf(),
            cs == colors@,
            als == altitudes@,
            cs.len() == w * h,
            als.len() == w * h,
            y <= h,
            i == y * w,
            forall|a: nat, b: nat|
                a < w && b < h ==> #[trigger] map.texel(a, b) == if b < y {
                    merge(orig.texel(a, b), source_texel(cs, als, w as nat, a, b))
                } else {
                    orig.texel(a, b)
                },
        decreases h - y,
    {
        let mut x: usize = 0;
        while x < w
            invariant
                map.wf(),
                map.width() == w,
                map.height() == h,
                orig.width() == w,
                orig.height() == h,
                orig.wf(),
                cs == colors@,
                als == altitudes@,
                cs.len() == w * h,
                als.len() == w * h,
                y < h,
                x <= w,
                i == y * w + x,
                forall|a: nat, b: nat|
                    a < w && b < h ==> #[trigger] map.texel(a, b) == if b < y || (b == y && a
                        < x) {
                        merge(orig.texel(a, b), source_texel(cs, als, w as nat, a, b))
                    } else {
                        orig.texel(a, b)
                    },
            decreases w - x,
        {
            proof {
                assert(y * w + x < w * h) by (nonlinear_arith)
                    requires
                        x < w,
                        y < h,
                ;
                map.lemma_cell_in_range(x as nat, y as nat);
            }
            let t = Texel { color: colors[i], altitude: altitudes[i] };
            let n = calc_z_order(x, y);
            let ghost prev = *map;
            map.or_texel_at(n, t);
            proof {
                assert forall|a: nat, b: nat| a < w && b < h implies #[trigger] map.texel(a, b)
                    == if b < y || (b == y && a < x + 1) {
                    merge(orig.texel(a, b), source_texel(cs, als, w as nat, a, b))
                } else {
                    orig.texel(a, b)
                } by {
                    map.lemma_cell_in_range(a, b);
                    assert(prev.texel(a, b) == prev.cells()[morton(a, b) as int]);
                    if a != x || b != y {
                        if morton(a, b) == morton(x as nat, y as nat) {
                            lemma_morton_injective(a, b, x as nat, y as nat);
                        }
                    }
                }
            }
            i = i + 1;
            x = x + 1;
        }
        proof {
            assert((y + 1) * w == y * w + w) by (nonlinear_arith);
        }
        y = y + 1;
    }
    Ok(())
}

/// Wrapped lookups repeat with the grid's period on each axis: the texel at
/// `x + width` is the texel at `x`, and the texel at `y + height` the texel at `y`.
pub proof fn lemma_wrap_period(map: &TerrainGrid, x: int, y: int)
    requires
        map.wf(),
    ensures
        map.wrapped_texel(x + map.width(), y) == map.wrapped_texel(x, y),
        map.wrapped_texel(x, y + map.height()) == map.wrapped_texel(x, y),
{
    let w = map.width() as int;
    let h = map.height() as int;
    vstd::arithmetic::div_mod::lemma_mod_add_multiples_vanish(x, w);
    vstd::arithmetic::div_mod::lemma_mod_add_multiples_vanish(y, h);
    assert(x + w == w + x);
    assert(y + h == h + y);
}

} // verus!
