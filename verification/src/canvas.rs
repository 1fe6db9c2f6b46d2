//! The pixel buffer that workers fill and the display reads.
//!
//! A `Canvas` keeps its pixels in a `macroquad` image, so that the display can
//! upload them as they are. Pixels are stored row after row, each with 8 bits
//! for red, green and blue.

use vstd::prelude::*;
use macroquad::color::Color;
use macroquad::texture::Image;

verus! {

#[verifier::external_type_specification]
#[verifier::external_body]
pub struct ExImage(Image);

/// The pixels of an image, row after row, each as its red, green and blue
/// byte: what `Image::get_image_data` gives, without the fourth byte of each
/// pixel. This speaks of images as `Image::gen_image_color` makes them, whose
/// `bytes` hold four bytes for each of `width * height` pixels.
pub uninterp spec fn image_pixels(image: Image) -> Seq<(u8, u8, u8)>;

/// The number of pixels in one row of an image: its field `width`.
pub uninterp spec fn image_width(image: Image) -> int;

/// The largest width and height that an image can have.
pub const MAX_SIDE: u32 = 0xFFFF;

/// `Image::gen_image_color` with `BLACK`: an image `width` pixels wide that
/// holds `width * height` pixels, every one of them black.
#[verifier::external_body]
fn black_image(width: u16, height: u16) -> (image: Image)
    ensures
        image_width(image) == width,
        image_pixels(image) == Seq::new((width * height) as nat, |i: int| (0u8, 0u8, 0u8)),
{
    Image::gen_image_color(width, height, macroquad::color::BLACK)
}

/// `Image::set_pixel` with the colour that `Color::from_rgba` makes of the
/// three bytes and full opacity: the pixel in column `x` of row `y` becomes
/// `(r, g, b)`, and nothing else changes. The bytes come back as they went in
/// because `n / 255 * 255`, computed in single precision, is `n` for each byte
/// `n`.
#[verifier::external_body]
fn store_pixel(image: &mut Image, x: u32, y: u32, r: u8, g: u8, b: u8)
    requires
        0 <= x < image_width(*old(image)),
        y * image_width(*old(image)) + x < image_pixels(*old(image)).len(),
    ensures
        image_width(*final(image)) == image_width(*old(image)),
        image_pixels(*final(image)) == image_pixels(*old(image)).update(
            y * image_width(*old(image)) + x,
            (r, g, b),
        ),
    no_unwind
{
    image.set_pixel(x, y, Color::from_rgba(r, g, b, 255))
}

/// `Image::get_pixel`, turned back into bytes by `Color`'s `Into<[u8; 4]>`:
/// the red, green and blue byte of the pixel in column `x` of row `y`.
#[verifier::external_body]
fn load_pixel(image: &Image, x: u32, y: u32) -> (rgb: (u8, u8, u8))
    requires
        0 <= x < image_width(*image),
        y * image_width(*image) + x < image_pixels(*image).len(),
    ensures
        rgb == image_pixels(*image)[y * image_width(*image) + x],
{
    let bytes: [u8; 4] = image.get_pixel(x, y).into();
    (bytes[0], bytes[1], bytes[2])
}

/// A `width` by `height` grid of RGB pixels.
pub struct Canvas {
    width: u32,
    height: u32,
    image: Image,
}

impl Canvas {
    #[verifier::type_invariant]
    spec fn well_formed(self) -> bool {
        &&& self.width <= MAX_SIDE
        &&& self.height <= MAX_SIDE
        &&& image_width(self.image) == self.width
        &&& image_pixels(self.image).len() == self.width * self.height
    }

    /// The number of pixels in a row.
    pub closed spec fn spec_width(self) -> int {
        self.width as int
    }

    /// The number of rows.
    pub closed spec fn spec_height(self) -> int {
        self.height as int
    }

    /// The pixels, row after row: the pixel in column `x` of row `y` stands at
    /// `y * width + x`.
    pub closed spec fn view(self) -> Seq<(u8, u8, u8)> {
        image_pixels(self.image)
    }

    /// The pixel in column `x` of row `y`.
    pub open spec fn spec_pixel(self, x: int, y: int) -> (u8, u8, u8) {
        self@[y * self.spec_width() + x]
    }

    /// A canvas of the given size with every pixel black.
    pub fn new(width: u32, height: u32) -> (canvas: Canvas)
        requires
            width <= MAX_SIDE,
            height <= MAX_SIDE,
        ensures
            canvas.spec_width() == width,
            canvas.spec_height() == height,
            canvas@ == Seq::new((width * height) as nat, |i: int| (0u8, 0u8, 0u8)),
    {
        let image = black_image(width as u16, height as u16);
        Canvas { width, height, image }
    }

    /// The number of pixels in a row.
    pub fn width(&self) -> (width: u32)
        ensures
            width == self.spec_width(),
            width <= MAX_SIDE,
    {
        proof {
            use_type_invariant(self);
        }
        self.width
    }

    /// The number of rows.
    pub fn height(&self) -> (height: u32)
        ensures
            height == self.spec_height(),
            height <= MAX_SIDE,
    {
        proof {
            use_type_invariant(self);
        }
        self.height
    }

    /// Stores `(r, g, b)` as the pixel in column `x` of row `y`; every other
    /// pixel and the size stay as they are.
    pub fn set_pixel(&mut self, x: u32, y: u32, r: u8, g: u8, b: u8)
        requires
            x < old(self).spec_width(),
            y < old(self).spec_height(),
        ensures
            final(self).spec_width() == old(self).spec_width(),
            final(self).spec_height() == old(self).spec_height(),
            final(self)@ == old(self)@.update(y * old(self).spec_width() + x, (r, g, b)),
            forall|i: int, j: int|
                0 <= i < old(self).spec_width() && 0 <= j < old(self).spec_height()
                    ==> #[trigger] final(self).spec_pixel(i, j) == if i == x && j == y {
                    (r, g, b)
                } else {
                    old(self).spec_pixel(i, j)
                },
    {
        proof {
            use_type_invariant(&*self);
            lemma_index_in_grid(x as int, y as int, self.width as int, self.height as int);
        }
        let ghost before = *self;
        store_pixel(&mut self.image, x, y, r, g, b);
        proof {
            let width = self.width as int;
            assert forall|i: int, j: int| 0 <= i < width && 0 <= j < self.height implies #[trigger] self.spec_pixel(
                i,
                j,
            ) == if i == x && j == y {
                (r, g, b)
            } else {
                before.spec_pixel(i, j)
            } by {
                lemma_index_in_grid(i, j, width, self.height as int);
                if j * width + i == y * width + x {
                    lemma_index_is_injective(i, j, x as int, y as int, width);
                }
            }
        }
    }

    /// The pixel in column `x` of row `y`.
    pub fn get_pixel(&self, x: u32, y: u32) -> (rgb: (u8, u8, u8))
        requires
            x < self.spec_width(),
            y < self.spec_height(),
        ensures
            rgb == self.spec_pixel(x as int, y as int),
    {
        proof {
            use_type_invariant(self);
            lemma_index_in_grid(x as int, y as int, self.width as int, self.height as int);
        }
        load_pixel(&self.image, x, y)
    }

    /// The image behind the canvas, for the display to upload.
    pub fn image(&self) -> (image: &Image)
        ensures
            image_pixels(*image) == self@,
            image_width(*image) == self.spec_width(),
    {
        proof {
            use_type_invariant(self);
        }
        &self.image
    }
}

/// In a grid of `width` by `height` cells stored row after row, the cell in
/// column `x` of row `y` has a place of its own below `width * height`.
pub proof fn lemma_index_in_grid(x: int, y: int, width: int, height: int)
    requires
        0 <= x < width,
        0 <= y < height,
    ensures
        0 <= y * width + x < width * height,
{
    assert(y * width + x < width * height) by (nonlinear_arith)
        requires
            0 <= x < width,
            0 <= y,
            y + 1 <= height,
    ;
    assert(0 <= y * width) by (nonlinear_arith)
        requires
            0 <= y,
            0 <= width,
    ;
}

/// Two different cells of a grid stored row after row have different places.
pub proof fn lemma_index_is_injective(x1: int, y1: int, x2: int, y2: int, width: int)
    requires
        0 <= x1 < width,
        0 <= x2 < width,
        0 <= y1,
        0 <= y2,
        y1 * width + x1 == y2 * width + x2,
    ensures
        x1 == x2,
        y1 == y2,
{
    if y1 < y2 {
        assert(y2 * width >= y1 * width + width) by (nonlinear_arith)
            requires
                y1 + 1 <= y2,
                width > 0,
        ;
    }
    if y2 < y1 {
        assert(y1 * width >= y2 * width + width) by (nonlinear_arith)
            requires
                y2 + 1 <= y1,
                width > 0,
        ;
    }
}

} // verus!
