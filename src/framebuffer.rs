use vstd::prelude::*;

verus! {

/// Bit `k` of a byte counted from the most significant end: pixel `k` of the eight
/// pixels that the byte holds.
pub open spec fn bit_of(b: u8, k: u8) -> bool {
    (b >> (7 - k) as u8) & 1 == 1
}

proof fn lemma_set_bit(b: u8, k: u8, j: u8, on: bool)
    by (bit_vector)
    requires
        k < 8,
        j < 8,
    ensures
        bit_of(if on { b | (0x80u8 >> k) } else { b & !(0x80u8 >> k) }, j) == if j == k {
            on
        } else {
            bit_of(b, j)
        },
{
}

proof fn lemma_full_byte(j: u8)
    by (bit_vector)
    requires
        j < 8,
    ensures
        bit_of(0xFF, j),
{
}

/// Distinct pixels of a row-major bitmap lie in distinct bytes or in distinct bits of
/// one byte.
proof fn lemma_byte_index_unique(x1: nat, y1: nat, x2: nat, y2: nat, stride: nat)
    requires
        x1 < stride * 8,
        x2 < stride * 8,
        y1 * stride + x1 / 8 == y2 * stride + x2 / 8,
    ensures
        y1 == y2,
        x1 / 8 == x2 / 8,
{
    let a = x1 / 8;
    let b = x2 / 8;
    assert(a < stride && b < stride);
    if y1 < y2 {
        assert(y1 * stride + a < y2 * stride) by (nonlinear_arith)
            requires
                y1 < y2,
                a < stride,
        ;
    } else if y2 < y1 {
        assert(y2 * stride + b < y1 * stride) by (nonlinear_arith)
            requires
                y2 < y1,
                b < stride,
        ;
    }
}

proof fn lemma_byte_index_bound(x: nat, y: nat, stride: nat, rows: nat)
    requires
        x < stride * 8,
        y < rows,
    ensures
        y * stride + x / 8 < rows * stride,
        y * stride + x / 8 < stride * rows,
{
    assert(y * stride + x / 8 < rows * stride && rows * stride == stride * rows) by (nonlinear_arith)
        requires
            x / 8 < stride,
            y < rows,
    ;
}

/// A packed monochrome bitmap: `rows` rows of `stride` bytes, eight pixels to a byte
/// with the leftmost pixel in the most significant bit; a set bit is white. The stride
/// may hold more pixels than the visible width.
pub struct Framebuffer {
    bytes: Vec<u8>,
    stride: usize,
    rows: usize,
}

impl Framebuffer {
    pub closed spec fn spec_stride(&self) -> usize {
        self.stride
    }

    pub closed spec fn spec_rows(&self) -> usize {
        self.rows
    }

    /// The bytes of the bitmap, row after row.
    pub closed spec fn spec_bytes(&self) -> Seq<u8> {
        self.bytes@
    }

    /// The bytes hold exactly `rows` rows of `stride` bytes.
    pub closed spec fn wf(&self) -> bool {
        &&& self.bytes@.len() == self.stride * self.rows
        &&& self.stride * self.rows <= usize::MAX
        &&& self.stride * 8 <= usize::MAX
    }

    /// The pixels of a row can be counted in a `usize`.
    pub proof fn lemma_pixel_width_fits(&self)
        requires
            self.wf(),
        ensures
            self.pixel_width() <= usize::MAX,
    {
    }

    /// The pixels in a row, padding included.
    pub open spec fn pixel_width(&self) -> nat {
        (self.spec_stride() * 8) as nat
    }

    /// Whether the pixel at `(x, y)` is white, for `x < pixel_width()` and `y < rows`.
    pub closed spec fn pixel(&self, x: nat, y: nat) -> bool {
        bit_of(self.bytes@[(y * self.stride + x / 8) as int], (x % 8) as u8)
    }

    /// An all-white bitmap of `rows` rows of `stride` bytes.
    pub fn new(stride: usize, rows: usize) -> (r: Framebuffer)
        requires
            stride * rows <= usize::MAX,
            stride * 8 <= usize::MAX,
        ensures
            r.wf(),
            r.spec_stride() == stride,
            r.spec_rows() == rows,
            forall|x: nat, y: nat|
                x < r.pixel_width() && y < rows ==> #[trigger] r.pixel(x, y),
    {
        let r = Framebuffer { bytes: vec![0xFFu8; stride * rows], stride, rows };
        proof {
            assert forall|x: nat, y: nat| x < r.pixel_width() && y < rows implies #[trigger] r.pixel(
                x,
                y,
            ) by {
                lemma_byte_index_bound(x, y, stride as nat, rows as nat);
                assert(r.bytes@[(y * stride + x / 8) as int] == 0xFF);
                lemma_full_byte((x % 8) as u8);
            }
        }
        r
    }

    /// Makes every pixel white, padding included.
    pub fn clear(&mut self)
        requires
            old(self).wf(),
        ensures
            final(self).wf(),
            final(self).stride() == old(self).stride(),
            final(self).rows() == old(self).rows(),
            forall|x: nat, y: nat|
                x < final(self).pixel_width() && y < final(self).rows() ==> #[trigger] final(self).pixel(x, y),
    {
        let mut i: usize = 0;
        while i < self.bytes.len()
            invariant
                self.wf(),
                self.stride == old(self).stride,
                self.rows == old(self).rows,
                i <= self.bytes@.len(),
                forall|j: int| 0 <= j < i ==> #[trigger] self.bytes@[j] == 0xFF,
            decreases self.bytes@.len() - i,
        {
            self.bytes.set(i, 0xFF);
            i = i + 1;
        }
        proof {
            assert forall|x: nat, y: nat| x < self.pixel_width() && y < self.rows() implies #[trigger] self.pixel(
                x,
                y,
            ) by {
                lemma_byte_index_bound(x, y, self.stride as nat, self.rows as nat);
                assert(self.bytes@[(y * self.stride + x / 8) as int] == 0xFF);
                lemma_full_byte((x % 8) as u8);
            }
        }
    }

    /// The row stride in bytes.
    #[verifier::when_used_as_spec(spec_stride)]
    pub fn stride(&self) -> (r: usize)
        ensures
            r == self.spec_stride(),
    {
        self.stride
    }

    /// The number of rows.
    #[verifier::when_used_as_spec(spec_rows)]
    pub fn rows(&self) -> (r: usize)
        ensures
            r == self.spec_rows(),
    {
        self.rows
    }

    /// The bytes of the bitmap, row after row, ready for a display.
    pub fn bytes(&self) -> (r: &[u8])
        ensures
            r@ == self.spec_bytes(),
    {
        self.bytes.as_slice()
    }

    /// Whether the pixel at `(x, y)` is white.
    pub fn get_pixel(&self, x: usize, y: usize) -> (r: bool)
        requires
            self.wf(),
            x < self.pixel_width(),
            y < self.rows(),
        ensures
            r == self.pixel(x as nat, y as nat),
    {
        proof {
            lemma_byte_index_bound(x as nat, y as nat, self.stride as nat, self.rows as nat);
        }
        let b = self.bytes[y * self.stride + x / 8];
        (b >> (7 - (x % 8) as u8)) & 1 == 1
    }

    /// Sets the pixel at `(x, y)` to white when `on`, to black otherwise; every other
    /// pixel keeps its value.
    pub fn set_pixel(&mut self, x: usize, y: usize, on: bool)
        requires
            old(self).wf(),
            x < old(self).pixel_width(),
            y < old(self).rows(),
        ensures
            final(self).wf(),
            final(self).stride() == old(self).stride(),
            final(self).rows() == old(self).rows(),
            forall|a: nat, b: nat|
                a < old(self).pixel_width() && b < old(self).rows() ==> #[trigger] final(self).pixel(a, b)
                    == if a == x && b == y {
                    on
                } else {
                    old(self).pixel(a, b)
                },
    {
        proof {
            lemma_byte_index_bound(x as nat, y as nat, self.stride as nat, self.rows as nat);
        }
        let i = y * self.stride + x / 8;
        let k = (x % 8) as u8;
        let b = self.bytes[i];
        let nb = if on {
            b | (0x80u8 >> k)
        } else {
            b & !(0x80u8 >> k)
        };
        self.bytes.set(i, nb);
        proof {
            assert forall|a: nat, c: nat|
                a < old(self).pixel_width() && c < old(self).rows() implies #[trigger] self.pixel(
                a,
                c,
            ) == if a == x && c == y {
                on
            } else {
                old(self).pixel(a, c)
            } by {
                let j = c * self.stride + a / 8;
                lemma_byte_index_bound(a, c, self.stride as nat, self.rows as nat);
                if j == i {
                    lemma_byte_index_unique(a, c, x as nat, y as nat, self.stride as nat);
                    lemma_set_bit(b, k, (a % 8) as u8, on);
                }
            }
        }
    }
}

} // verus!
