//! The pixel grid that a rendering is written to, held in an image buffer of
//! the `image` crate.

use vstd::prelude::*;

verus! {

/// An 8-bit RGB image buffer of the `image` crate. The verifier sees nothing
/// inside it: what it holds is known only through `buffer_pixels` and the
/// three functions below.
#[verifier::external_body]
pub struct PixelBuffer {
    inner: image::RgbImage,
}

/// The pixels that a buffer holds: for each coordinate pair of the image,
/// column first, the red, green and blue level there.
pub uninterp spec fn buffer_pixels(buffer: PixelBuffer) -> Map<(int, int), Seq<u8>>;

/// The coordinate pairs of an image of the given size.
pub open spec fn grid(width: int, height: int) -> Set<(int, int)> {
    Set::new(|p: (int, int)| 0 <= p.0 < width && 0 <= p.1 < height)
}

/// The index of the first byte of the pixel at `(x, y)` in the rows of an
/// image of the given width, laid end to end.
pub open spec fn byte_index(width: int, x: int, y: int) -> int {
    3 * (y * width + x)
}

/// `image::RgbImage::new`: an image of the given size whose every channel is
/// zero. The crate panics where the number of bytes overflows `usize`, and
/// the vector it allocates where that number is above `isize::MAX`; the
/// precondition excludes both.
#[verifier::external_body]
fn buffer_new(width: u32, height: u32) -> (buffer: PixelBuffer)
    requires
        3 * (width * height) <= isize::MAX,
    ensures
        buffer_pixels(buffer) == Map::new(
            |p: (int, int)| grid(width as int, height as int).contains(p),
            |p: (int, int)| seq![0u8, 0u8, 0u8],
        ),
{
    PixelBuffer { inner: image::RgbImage::new(width, height) }
}

/// `ImageBuffer::put_pixel`: replaces the pixel at `(x, y)` and leaves every
/// other pixel, and the size of the image, as it was. The crate panics on a
/// coordinate pair outside the image; the precondition excludes those, so
/// that the call does not unwind.
#[verifier::external_body]
fn buffer_put(buffer: &mut PixelBuffer, x: u32, y: u32, rgb: [u8; 3])
    requires
        buffer_pixels(*old(buffer)).dom().contains((x as int, y as int)),
    ensures
        buffer_pixels(*final(buffer)) == buffer_pixels(*old(buffer)).insert((x as int, y as int), rgb@),
        buffer_pixels(*final(buffer)).dom() == buffer_pixels(*old(buffer)).dom(),
    no_unwind
{
    buffer.inner.put_pixel(x, y, image::Rgb(rgb))
}

/// `ImageBuffer::get_pixel`: the pixel at `(x, y)`. The crate panics on a
/// coordinate pair outside the image; the precondition excludes those.
#[verifier::external_body]
fn buffer_get(buffer: &PixelBuffer, x: u32, y: u32) -> (rgb: [u8; 3])
    requires
        buffer_pixels(*buffer).dom().contains((x as int, y as int)),
    ensures
        rgb@ == buffer_pixels(*buffer)[(x as int, y as int)],
{
    buffer.inner.get_pixel(x, y).0
}

/// A grid of RGB pixels of a fixed size. Pixel `(0, 0)` is the top left one;
/// `x` counts columns and `y` rows. Every canvas is well formed, and the
/// functions that take one say so in their `ensures`.
pub struct Canvas {
    width: u32,
    height: u32,
    buffer: PixelBuffer,
}

impl View for Canvas {
    type V = Map<(int, int), Seq<u8>>;

    /// The colour at each coordinate pair.
    closed spec fn view(&self) -> Map<(int, int), Seq<u8>> {
        buffer_pixels(self.buffer)
    }
}

impl Canvas {
    /// The number of columns.
    pub closed spec fn width_spec(&self) -> u32 {
        self.width
    }

    /// The number of rows.
    pub closed spec fn height_spec(&self) -> u32 {
        self.height
    }

    /// The canvas holds one colour of three channels for each coordinate
    /// pair of its size, and for no other.
    pub open spec fn wf(&self) -> bool {
        &&& self@.dom() == grid(self.width_spec() as int, self.height_spec() as int)
        &&& forall|p: (int, int)| self@.dom().contains(p) ==> (#[trigger] self@[p]).len() == 3
    }

    /// Every canvas is well formed.
    #[verifier::type_invariant]
    closed spec fn inv(&self) -> bool {
        self.wf()
    }

    /// Whether an image of this size can be held in memory at all.
    pub open spec fn fits(width: u32, height: u32) -> bool {
        3 * (width * height) <= isize::MAX
    }

    /// A black canvas of the given size, where one of that size can be held.
    pub fn new(width: u32, height: u32) -> (canvas: Option<Canvas>)
        ensures
            canvas is Some <==> Canvas::fits(width, height),
            canvas matches Some(c) ==> {
                &&& c.wf()
                &&& c.width_spec() == width
                &&& c.height_spec() == height
                &&& forall|p: (int, int)|
                    grid(width as int, height as int).contains(p) ==> #[trigger] c@[p] == seq![
                        0u8,
                        0u8,
                        0u8,
                    ]
            },
    {
        assert(width * height <= 0xffff_ffff * 0xffff_ffff) by (nonlinear_arith)
            requires
                0 <= width <= 0xffff_ffff,
                0 <= height <= 0xffff_ffff,
        ;
        let pixels: u64 = width as u64 * height as u64;
        if 3 * (pixels as u128) <= isize::MAX as u128 {
            let buffer = buffer_new(width, height);
            assert(buffer_pixels(buffer).dom() =~= grid(width as int, height as int));
            Some(Canvas { width, height, buffer })
        } else {
            None
        }
    }

    /// The number of columns.
    pub fn width(&self) -> (w: u32)
        ensures
            w == self.width_spec(),
    {
        self.width
    }

    /// The number of rows.
    pub fn height(&self) -> (h: u32)
        ensures
            h == self.height_spec(),
    {
        self.height
    }

    /// Sets the pixel at `(x, y)`.
    pub fn put(&mut self, x: u32, y: u32, rgb: [u8; 3])
        requires
            x < old(self).width_spec(),
            y < old(self).height_spec(),
        ensures
            old(self).wf(),
            final(self).wf(),
            final(self).width_spec() == old(self).width_spec(),
            final(self).height_spec() == old(self).height_spec(),
            final(self)@ == old(self)@.insert((x as int, y as int), rgb@),
    {
        proof {
            use_type_invariant(&*self);
        }
        assert(grid(self.width as int, self.height as int).contains((x as int, y as int)));
        assert(rgb@.len() == 3);
        buffer_put(&mut self.buffer, x, y, rgb);
    }

    /// The pixel at `(x, y)`, where the canvas has one there.
    pub fn pixel(&self, x: u32, y: u32) -> (rgb: Option<[u8; 3]>)
        ensures
            self.wf(),
            rgb is Some <==> x < self.width_spec() && y < self.height_spec(),
            rgb matches Some(c) ==> c@ == self@[(x as int, y as int)],
    {
        proof {
            use_type_invariant(self);
        }
        if x < self.width && y < self.height {
            assert(grid(self.width as int, self.height as int).contains((x as int, y as int)));
            Some(buffer_get(&self.buffer, x, y))
        } else {
            None
        }
    }

    /// The bytes of the image: its rows from the top, each from the left,
    /// three bytes to the pixel.
    pub fn to_bytes(&self) -> (bytes: Vec<u8>)
        ensures
            self.wf(),
            is_image_bytes(bytes@, self@, self.width_spec() as int, self.height_spec() as int),
    {
        proof {
            use_type_invariant(self);
        }
        let mut bytes: Vec<u8> = Vec::new();
        let mut y: u32 = 0;
        while y < self.height
            invariant
                self.wf(),
                y <= self.height,
                bytes@.len() == byte_index(self.width as int, 0, y as int),
                forall|i: int, j: int|
                    0 <= i < self.width && 0 <= j < y ==> #[trigger] holds_pixel(
                        bytes@,
                        self@,
                        self.width as int,
                        i,
                        j,
                    ),
            decreases self.height - y,
        {
            let mut x: u32 = 0;
            while x < self.width
                invariant
                    self.wf(),
                    y < self.height,
                    x <= self.width,
                    bytes@.len() == byte_index(self.width as int, x as int, y as int),
                    forall|i: int, j: int|
                        0 <= i < self.width && 0 <= j <= y && (j < y || i < x) ==> #[trigger] holds_pixel(
                            bytes@,
                            self@,
                            self.width as int,
                            i,
                            j,
                        ),
                decreases self.width - x,
            {
                assert(grid(self.width as int, self.height as int).contains((x as int, y as int)));
                let rgb = buffer_get(&self.buffer, x, y);
                let ghost before = bytes@;
                bytes.push(rgb[0]);
                bytes.push(rgb[1]);
                bytes.push(rgb[2]);
                proof {
                    let w = self.width as int;
                    assert(bytes@ =~= before + rgb@);
                    assert(self@[(x as int, y as int)].len() == 3);
                    assert forall|i: int, j: int|
                        0 <= i < w && 0 <= j <= y && (j < y || i < x + 1) implies #[trigger] holds_pixel(
                        bytes@,
                        self@,
                        w,
                        i,
                        j,
                    ) by {
                        let at = byte_index(w, i, j);
                        if j == y && i == x {
                            assert(bytes@.subrange(at, at + 3) =~= rgb@);
                        } else {
                            assert(holds_pixel(before, self@, w, i, j));
                            assert(bytes@.subrange(at, at + 3) =~= before.subrange(at, at + 3));
                        }
                    }
                }
                x += 1;
            }
            proof {
                lemma_next_row(self.width as int, y as int);
            }
            y += 1;
        }
        bytes
    }
}

/// The three bytes of `bytes` that stand for the pixel at `(x, y)` of an
/// image of the given width are the colour that `pixels` has there.
pub open spec fn holds_pixel(
    bytes: Seq<u8>,
    pixels: Map<(int, int), Seq<u8>>,
    width: int,
    x: int,
    y: int,
) -> bool {
    let at = byte_index(width, x, y);
    0 <= at && at + 3 <= bytes.len() && bytes.subrange(at, at + 3) == pixels[(x, y)]
}

/// `bytes` is the image `pixels` of the given size written out: its rows from
/// the top, each from the left, three bytes to the pixel.
pub open spec fn is_image_bytes(
    bytes: Seq<u8>,
    pixels: Map<(int, int), Seq<u8>>,
    width: int,
    height: int,
) -> bool {
    &&& bytes.len() == byte_index(width, 0, height)
    &&& forall|x: int, y: int|
        0 <= x < width && 0 <= y < height ==> #[trigger] holds_pixel(bytes, pixels, width, x, y)
}

/// The place of a byte in an image: byte `n` of an image of the given size
/// is channel `n % 3` of the pixel in column `(n / 3) % width` and row
/// `(n / 3) / width`.
proof fn lemma_byte_place(n: int, width: int, height: int)
    requires
        0 <= width,
        0 <= height,
        0 <= n < byte_index(width, 0, height),
    ensures
        0 <= (n / 3) % width < width,
        0 <= (n / 3) / width < height,
        n == byte_index(width, (n / 3) % width, (n / 3) / width) + n % 3,
{
    let p = n / 3;
    assert(width > 0 && height > 0 && p < height * width) by (nonlinear_arith)
        requires
            0 <= width,
            0 <= height,
            0 <= n < 3 * (height * width),
            p == n / 3,
    ;
    assert(p == width * (p / width) + p % width && 0 <= p % width < width && 0 <= p / width) by (nonlinear_arith)
        requires
            width > 0,
            p >= 0,
    ;
    assert(p / width < height) by (nonlinear_arith)
        requires
            p < height * width,
            p == width * (p / width) + p % width,
            0 <= p % width,
            width > 0,
    ;
    assert((p / width) * width == width * (p / width)) by (nonlinear_arith);
}

/// An image has one sequence of bytes: two that both write out the same
/// pixels at the same size are equal.
pub proof fn lemma_image_bytes_unique(
    one: Seq<u8>,
    other: Seq<u8>,
    pixels: Map<(int, int), Seq<u8>>,
    width: int,
    height: int,
)
    requires
        0 <= width,
        0 <= height,
        is_image_bytes(one, pixels, width, height),
        is_image_bytes(other, pixels, width, height),
    ensures
        one == other,
{
    assert forall|n: int| 0 <= n < one.len() implies one[n] == other[n] by {
        lemma_byte_place(n, width, height);
        let x = (n / 3) % width;
        let y = (n / 3) / width;
        let at = byte_index(width, x, y);
        assert(holds_pixel(one, pixels, width, x, y));
        assert(holds_pixel(other, pixels, width, x, y));
        assert(one.subrange(at, at + 3)[n % 3] == one[n]);
        assert(other.subrange(at, at + 3)[n % 3] == other[n]);
    }
    assert(one =~= other);
}

/// The row after `y` begins where row `y` ends.
proof fn lemma_next_row(width: int, y: int)
    ensures
        byte_index(width, width, y) == byte_index(width, 0, y + 1),
{
    assert((y + 1) * width == y * width + width) by (nonlinear_arith);
}

} // verus!
