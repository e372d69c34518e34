use vstd::prelude::*;
use crate::dither::{dither_bit, lit};
use crate::framebuffer::Framebuffer;

verus! {

/// How a render pixel maps onto the bitmap: one output pixel, or a 2x2 block of output
/// pixels each dithered at its own position.
#[derive(Clone, Copy, Debug, PartialEq, Eq, Structural)]
pub enum PixelScale {
    Single,
    Double,
}

/// `n` render pixels measured in output pixels.
pub open spec fn scaled(scale: PixelScale, n: nat) -> nat {
    match scale {
        PixelScale::Single => n,
        PixelScale::Double => 2 * n,
    }
}

/// The render column or row that output column or row `p` belongs to.
pub open spec fn render_index(scale: PixelScale, p: nat) -> nat {
    match scale {
        PixelScale::Single => p,
        PixelScale::Double => p / 2,
    }
}

/// One depth sample of a column: the screen row its terrain top projects to, and its
/// colour.
#[derive(Clone, Copy, Debug, PartialEq, Eq, Structural)]
pub struct Sample {
    pub row: u16,
    pub color: u8,
}

/// The colour that the samples of a column, taken front to back, give render row `r`:
/// that of the first sample whose projected row reaches `r`, if any.
pub open spec fn first_cover(samples: Seq<Sample>, r: nat) -> Option<u8>
    decreases samples.len(),
{
    if samples.len() == 0 {
        None
    } else {
        match first_cover(samples.drop_last(), r) {
            Some(c) => Some(c),
            None => if samples.last().row <= r {
                Some(samples.last().color)
            } else {
                None
            },
        }
    }
}

/// The skyline after drawing `samples` front to back from a column whose skyline
/// started at `bottom`: the highest (smallest) row drawn so far.
pub open spec fn skyline(samples: Seq<Sample>, bottom: nat) -> nat
    decreases samples.len(),
{
    if samples.len() == 0 {
        bottom
    } else {
        let s = skyline(samples.drop_last(), bottom);
        if samples.last().row < s {
            samples.last().row as nat
        } else {
            s
        }
    }
}

/// Whether sample `i` of a column pass draws render row `r`: the rows from its
/// projected row up to, not including, the skyline that the samples before it left.
pub open spec fn draws(samples: Seq<Sample>, bottom: nat, i: int, r: nat) -> bool {
    samples[i].row <= r < skyline(samples.take(i), bottom)
}

/// Above the skyline no sample has reached a row; at or below it, one has.
proof fn lemma_cover_below_skyline(samples: Seq<Sample>, bottom: nat, r: nat)
    requires
        r < bottom,
    ensures
        first_cover(samples, r).is_some() <==> skyline(samples, bottom) <= r,
    decreases samples.len(),
{
    if samples.len() > 0 {
        lemma_cover_below_skyline(samples.drop_last(), bottom, r);
    }
}

proof fn lemma_skyline_step(samples: Seq<Sample>, bottom: nat, k: int)
    requires
        0 <= k < samples.len(),
    ensures
        skyline(samples.take(k + 1), bottom) == if samples[k].row < skyline(samples.take(k), bottom) {
            samples[k].row as nat
        } else {
            skyline(samples.take(k), bottom)
        },
        forall|r: nat| #[trigger] first_cover(samples.take(k + 1), r) == match first_cover(samples.take(k), r) {
            Some(c) => Some(c),
            None => if samples[k].row <= r {
                Some(samples[k].color)
            } else {
                None
            },
        },
{
    assert(samples.take(k + 1).drop_last() =~= samples.take(k));
    assert(samples.take(k + 1).last() == samples[k]);
}

/// Within one column pass the skyline never moves down, and every row that a sample
/// draws lies strictly above every row that an earlier sample drew: no row is drawn
/// twice.
pub proof fn lemma_skyline_monotone(samples: Seq<Sample>, bottom: nat, j: int, k: int)
    requires
        0 <= j <= k <= samples.len(),
    ensures
        skyline(samples.take(k), bottom) <= skyline(samples.take(j), bottom),
        j < k ==> forall|r1: nat, r2: nat|
            draws(samples, bottom, j, r1) && draws(samples, bottom, k, r2) ==> r2 < r1,
    decreases k - j,
{
    if j < k {
        lemma_skyline_step(samples, bottom, j);
        lemma_skyline_monotone(samples, bottom, j + 1, k);
    }
}

/// Draws render pixel `(col, row)` with colour `color`: each output pixel of its block
/// is lit by the dither threshold at its own position. Every other pixel keeps its value.
fn fill_block(frame: &mut Framebuffer, scale: PixelScale, col: usize, row: usize, color: u8)
    requires
        old(frame).wf(),
        scaled(scale, col as nat + 1) <= old(frame).pixel_width(),
        scaled(scale, row as nat + 1) <= old(frame).rows(),
    ensures
        final(frame).wf(),
        final(frame).stride() == old(frame).stride(),
        final(frame).rows() == old(frame).rows(),
        forall|px: nat, py: nat|
            px < old(frame).pixel_width() && py < old(frame).rows() ==> #[trigger] final(frame).pixel(px, py)
                == if render_index(scale, px) == col && render_index(scale, py) == row {
                lit(color, px, py)
            } else {
                old(frame).pixel(px, py)
            },
{
    proof {
        frame.lemma_pixel_width_fits();
    }
    match scale {
        PixelScale::Single => {
            frame.set_pixel(col, row, dither_bit(color, col, row));
        },
        PixelScale::Double => {
            let x = 2 * col;
            let y = 2 * row;
            frame.set_pixel(x, y, dither_bit(color, x, y));
            frame.set_pixel(x + 1, y, dither_bit(color, x + 1, y));
            frame.set_pixel(x, y + 1, dither_bit(color, x, y + 1));
            frame.set_pixel(x + 1, y + 1, dither_bit(color, x + 1, y + 1));
        },
    }
}

/// Draws one depth sample of column `col` against the column's skyline: the render rows
/// from the sample's projected row up to, not including, the skyline, in the sample's
/// colour, dithered pixel by pixel. Returns the new skyline, the smaller of the two rows.
/// Rows at or below the skyline, drawn by nearer samples, are left as they are.
pub fn draw_sample(
    frame: &mut Framebuffer,
    scale: PixelScale,
    col: usize,
    skyline: u16,
    sample: Sample,
) -> (r: u16)
    requires
        old(frame).wf(),
        scaled(scale, col as nat + 1) <= old(frame).pixel_width(),
        scaled(scale, skyline as nat) <= old(frame).rows(),
    ensures
        r == if sample.row < skyline {
            sample.row
        } else {
            skyline
        },
        final(frame).wf(),
        final(frame).stride() == old(frame).stride(),
        final(frame).rows() == old(frame).rows(),
        forall|px: nat, py: nat|
            px < old(frame).pixel_width() && py < old(frame).rows() ==> #[trigger] final(frame).pixel(px, py)
                == if render_index(scale, px) == col && sample.row <= render_index(scale, py)
                < skyline {
                lit(sample.color, px, py)
            } else {
                old(frame).pixel(px, py)
            },
{
    let ghost start = *frame;
    let mut k: u16 = sample.row;
    while k < skyline
        invariant
            frame.wf(),
            frame.stride() == start.stride(),
            frame.rows() == start.rows(),
            k == sample.row || k <= skyline,
            k >= sample.row,
            scaled(scale, col as nat + 1) <= start.pixel_width(),
            scaled(scale, skyline as nat) <= start.rows(),
            forall|px: nat, py: nat|
                px < start.pixel_width() && py < start.rows() ==> #[trigger] frame.pixel(px, py)
                    == if render_index(scale, px) == col && sample.row <= render_index(scale, py)
                    < k {
                    lit(sample.color, px, py)
                } else {
                    start.pixel(px, py)
                },
        decreases skyline - k,
    {
        fill_block(frame, scale, col, k as usize, sample.color);
        k = k + 1;
    }
    if sample.row < skyline {
        sample.row
    } else {
        skyline
    }
}

/// Renders one screen column from its depth samples, nearest first, over a skyline that
/// starts at `bottom`, the number of render rows. Each render row below `bottom` that
/// some sample reaches takes the colour of the first such sample, dithered pixel by
/// pixel; every other pixel keeps its value.
pub fn render_column(
    frame: &mut Framebuffer,
    scale: PixelScale,
    col: usize,
    bottom: u16,
    samples: &[Sample],
)
    requires
        old(frame).wf(),
        scaled(scale, col as nat + 1) <= old(frame).pixel_width(),
        scaled(scale, bottom as nat) <= old(frame).rows(),
    ensures
        final(frame).wf(),
        final(frame).stride() == old(frame).stride(),
        final(frame).rows() == old(frame).rows(),
        forall|px: nat, py: nat|
            px < old(frame).pixel_width() && py < old(frame).rows() ==> #[trigger] final(frame).pixel(px, py)
                == if render_index(scale, px) == col && render_index(scale, py) < bottom {
                match first_cover(samples@, render_index(scale, py)) {
                    Some(c) => lit(c, px, py),
                    None => old(frame).pixel(px, py),
                }
            } else {
                old(frame).pixel(px, py)
            },
{
    let ghost start = *frame;
    let mut sky: u16 = bottom;
    let mut i: usize = 0;
    while i < samples.len()
        invariant
            frame.wf(),
            frame.stride() == start.stride(),
            frame.rows() == start.rows(),
            scaled(scale, col as nat + 1) <= start.pixel_width(),
            scaled(scale, bottom as nat) <= start.rows(),
            i <= samples@.len(),
            sky as nat == skyline(samples@.take(i as int), bottom as nat),
            sky <= bottom,
            forall|px: nat, py: nat|
                px < start.pixel_width() && py < start.rows() ==> #[trigger] frame.pixel(px, py)
                    == if render_index(scale, px) == col && render_index(scale, py) < bottom {
                    match first_cover(samples@.take(i as int), render_index(scale, py)) {
                        Some(c) => lit(c, px, py),
                        None => start.pixel(px, py),
                    }
                } else {
                    start.pixel(px, py)
                },
        decreases samples@.len() - i,
    {
        let ghost before = *frame;
        let sample = samples[i];
        proof {
            lemma_skyline_step(samples@, bottom as nat, i as int);
        }
        sky = draw_sample(frame, scale, col, sky, sample);
        proof {
            assert forall|px: nat, py: nat|
                px < start.pixel_width() && py < start.rows() implies #[trigger] frame.pixel(px, py)
                    == if render_index(scale, px) == col && render_index(scale, py) < bottom {
                    match first_cover(samples@.take(i + 1), render_index(scale, py)) {
                        Some(c) => lit(c, px, py),
                        None => start.pixel(px, py),
                    }
                } else {
                    start.pixel(px, py)
                } by {
                let rr = render_index(scale, py);
                if render_index(scale, px) == col && rr < bottom {
                    lemma_cover_below_skyline(samples@.take(i as int), bottom as nat, rr);
                    assert(before.pixel(px, py) == frame.pixel(px, py) || sample.row <= rr);
                }
            }
        }
        i = i + 1;
    }
    assert(samples@.take(samples@.len() as int) =~= samples@);
}

/// The farthest depth a column samples, in hundredths of a grid cell.
pub const VIEW_DISTANCE: u32 = 40000;

/// Depth of the `k`-th sample of a column, in hundredths of a grid cell. The march
/// starts at depth 1 with step 1, and the step grows by 0.04 after every sample, so
/// near terrain is sampled densely and far terrain sparsely.
pub open spec fn depth(k: nat) -> nat {
    100 + 100 * k + 2 * k * (k + 1)
}

/// The depths at which every column is sampled, nearest first, in hundredths of a grid
/// cell: `depth(k)` for each `k` whose depth lies below `view_distance`.
pub fn depth_schedule(view_distance: u32) -> (r: Vec<u32>)
    ensures
        forall|i: int| 0 <= i < r@.len() ==> #[trigger] r@[i] == depth(i as nat),
        forall|i: int| 0 <= i < r@.len() ==> #[trigger] depth(i as nat) < view_distance,
        depth(r@.len()) >= view_distance,
{
    let mut r: Vec<u32> = Vec::new();
    let mut z: u64 = 100;
    let mut dz: u64 = 100;
    let ghost mut k: nat = 0;
    while z < view_distance as u64
        invariant
            z == depth(k),
            dz == 100 + 4 * k,
            r@.len() == k,
            z <= 0x2_0000_0000,
            dz <= z,
            forall|i: int| 0 <= i < r@.len() ==> #[trigger] r@[i] == depth(i as nat),
            forall|i: int| 0 <= i < r@.len() ==> #[trigger] depth(i as nat) < view_distance,
        decreases 0x4_0000_0000 - z,
    {
        r.push(z as u32);
        proof {
            assert(depth(k + 1) == depth(k) + 100 + 4 * (k + 1)) by (nonlinear_arith);
        }
        dz = dz + 4;
        z = z + dz;
        proof {
            k = k + 1;
        }
    }
    r
}

} // verus!
