use vstd::prelude::*;
use crate::framebuffer::Framebuffer;

verus! {

/// The 4x4 ordered-dither thresholds, row by row, scaled to the range 0 to 255.
pub const DITHER_MATRIX_256_2: [u8; 16] = [
    0,
    128,
    32,
    159,
    191,
    64,
    223,
    96,
    48,
    175,
    16,
    143,
    239,
    112,
    207,
    80,
];

/// The threshold of the dither cell at `(x mod 4, y mod 4)`.
pub open spec fn dither_threshold(x: nat, y: nat) -> u8 {
    DITHER_MATRIX_256_2@[(4 * (y % 4) + x % 4) as int]
}

/// Whether a pixel of the given colour at screen position `(x, y)` is lit (white): its
/// colour lies above the threshold of its dither cell.
pub open spec fn lit(color: u8, x: nat, y: nat) -> bool {
    color > dither_threshold(x, y)
}

/// The sixteen thresholds of the matrix are pairwise distinct.
pub proof fn lemma_thresholds_distinct(i: int, j: int)
    requires
        0 <= i < 16,
        0 <= j < 16,
        i != j,
    ensures
        DITHER_MATRIX_256_2@[i] != DITHER_MATRIX_256_2@[j],
{
    assert(DITHER_MATRIX_256_2@ == seq![
        0u8, 128, 32, 159, 191, 64, 223, 96, 48, 175, 16, 143, 239, 112, 207, 80,
    ]);
}

/// The threshold that the dither matrix gives the pixel at `(x, y)`, read at
/// `(x mod 4, y mod 4)`.
pub fn threshold(x: usize, y: usize) -> (r: u8)
    ensures
        r == dither_threshold(x as nat, y as nat),
{
    DITHER_MATRIX_256_2[4 * (y % 4) + x % 4]
}

/// Whether a pixel of colour `color` at `(x, y)` is lit after dithering.
pub fn dither_bit(color: u8, x: usize, y: usize) -> (r: bool)
    ensures
        r == lit(color, x as nat, y as nat),
{
    color > threshold(x, y)
}

/// The thresholds span the intensity range: colour 0 lights no pixel and colour 255
/// lights every pixel, whatever its position.
pub proof fn lemma_dither_extremes(x: nat, y: nat)
    ensures
        !lit(0, x, y),
        lit(255, x, y),
{
    assert(DITHER_MATRIX_256_2@ == seq![
        0u8, 128, 32, 159, 191, 64, 223, 96, 48, 175, 16, 143, 239, 112, 207, 80,
    ]);
}

/// Dithers a greyscale image of `width` columns, row after row, into the top-left of a
/// bitmap: each pixel is lit when its colour lies above the threshold of its dither
/// cell. Pixels outside the image keep their value.
pub fn dither_frame(colors: &[u8], width: usize, frame: &mut Framebuffer)
    requires
        old(frame).wf(),
        width <= old(frame).pixel_width(),
        colors@.len() == width * old(frame).rows(),
    ensures
        final(frame).wf(),
        final(frame).stride() == old(frame).stride(),
        final(frame).rows() == old(frame).rows(),
        forall|x: nat, y: nat|
            x < old(frame).pixel_width() && y < old(frame).rows() ==> #[trigger] final(frame).pixel(x, y)
                == if x < width {
                lit(colors@[(y * width + x) as int], x, y)
            } else {
                old(frame).pixel(x, y)
            },
{
    let ghost start = *frame;
    let rows = frame.rows();
    let mut y: usize = 0;
    let mut i: usize = 0;
    while y < rows
        invariant
            frame.wf(),
            frame.stride() == start.stride(),
            frame.rows() == rows,
            start.rows() == rows,
            width <= start.pixel_width(),
            colors@.len() == width * rows,
            y <= rows,
            i == y * width,
            forall|a: nat, b: nat|
                a < start.pixel_width() && b < rows ==> #[trigger] frame.pixel(a, b) == if a < width
                    && b < y {
                    lit(colors@[(b * width + a) as int], a, b)
                } else {
                    start.pixel(a, b)
                },
        decreases rows - y,
    {
        let mut x: usize = 0;
        while x < width
            invariant
                frame.wf(),
                frame.stride() == start.stride(),
                frame.rows() == rows,
                start.rows() == rows,
                width <= start.pixel_width(),
                colors@.len() == width * rows,
                y < rows,
                x <= width,
                i == y * width + x,
                forall|a: nat, b: nat|
                    a < start.pixel_width() && b < rows ==> #[trigger] frame.pixel(a, b) == if a
                        < width && (b < y || (b == y && a < x)) {
                        lit(colors@[(b * width + a) as int], a, b)
                    } else {
                        start.pixel(a, b)
                    },
            decreases width - x,
        {
            proof {
                assert(y * width + x < width * rows) by (nonlinear_arith)
                    requires
                        x < width,
                        y < rows,
                ;
            }
            let on = dither_bit(colors[i], x, y);
            frame.set_pixel(x, y, on);
            i = i + 1;
            x = x + 1;
        }
        proof {
            assert((y + 1) * width == y * width + width) by (nonlinear_arith);
        }
        y = y + 1;
    }
}

} // verus!
