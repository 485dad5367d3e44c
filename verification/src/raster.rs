//! RGBA8 rasters stored as one row-major byte buffer.

use vstd::arithmetic::div_mod::{
    lemma_div_pos_is_pos, lemma_fundamental_div_mod, lemma_fundamental_div_mod_converse,
    lemma_mod_bound, lemma_multiply_divide_lt,
};
use vstd::arithmetic::mul::lemma_mul_is_commutative;
use vstd::prelude::*;

verus! {

/// Position in a row-major RGBA8 buffer of channel `c` of the pixel `(x, y)`
/// of an image that is `width` pixels wide.
pub open spec fn offset(width: int, x: int, y: int, c: int) -> int {
    4 * (y * width + x) + c
}

/// Column of the pixel that byte `b` of a buffer of the given width belongs to.
pub open spec fn pixel_x(width: int, b: int) -> int {
    (b / 4) % width
}

/// Row of the pixel that byte `b` of a buffer of the given width belongs to.
pub open spec fn pixel_y(width: int, b: int) -> int {
    (b / 4) / width
}

/// Every byte of the buffer of a `width` by `height` image belongs to one
/// channel of one pixel of the image, and stands at that channel's offset.
pub proof fn lemma_pixel_of_byte(width: int, height: int, b: int)
    requires
        width > 0,
        0 <= b < 4 * width * height,
    ensures
        0 <= pixel_x(width, b) < width,
        0 <= pixel_y(width, b) < height,
        0 <= b % 4 < 4,
        b == offset(width, pixel_x(width, b), pixel_y(width, b), b % 4),
{
    let q = b / 4;
    assert(4 * width * height == 4 * (width * height)) by (nonlinear_arith);
    lemma_mod_bound(q, width);
    lemma_div_pos_is_pos(q, width);
    lemma_multiply_divide_lt(q, width, height);
    lemma_fundamental_div_mod(q, width);
    lemma_mul_is_commutative(width, q / width);
}

/// Every channel of every pixel of a `width` by `height` image has a byte of
/// its own in the buffer, from which the pixel and the channel can be read
/// back.
pub proof fn lemma_byte_of_pixel(width: int, height: int, x: int, y: int, c: int)
    requires
        0 <= x < width,
        0 <= y < height,
        0 <= c < 4,
    ensures
        0 <= offset(width, x, y, c) < 4 * width * height,
        pixel_x(width, offset(width, x, y, c)) == x,
        pixel_y(width, offset(width, x, y, c)) == y,
        offset(width, x, y, c) % 4 == c,
{
    let q = y * width + x;
    assert(0 <= y * width && y * width + width <= height * width) by (nonlinear_arith)
        requires
            0 <= y < height,
            0 < width,
    ;
    assert(4 * width * height == 4 * (height * width)) by (nonlinear_arith);
    lemma_fundamental_div_mod_converse(q, width, y, x);
}

/// A fully transparent buffer of `len` bytes.
pub open spec fn transparent(len: int) -> Seq<u8> {
    Seq::new(len as nat, |b: int| 0u8)
}

/// The buffer `bottom`, `bottom_w` pixels wide, after the `top_w` by `top_h`
/// image `top` has been copied over it with its upper left corner at
/// `(x, y)`. Pixels of `top` that fall outside `bottom` are dropped; every
/// pixel of `bottom` that `top` covers takes all four bytes of the covering
/// pixel, and every other byte stays.
pub open spec fn replaced(
    bottom: Seq<u8>,
    bottom_w: int,
    top: Seq<u8>,
    top_w: int,
    top_h: int,
    x: int,
    y: int,
) -> Seq<u8> {
    Seq::new(
        bottom.len(),
        |b: int|
            {
                let px = pixel_x(bottom_w, b);
                let py = pixel_y(bottom_w, b);
                if bottom_w > 0 && x <= px < x + top_w && y <= py < y + top_h {
                    top[offset(top_w, px - x, py - y, b % 4)]
                } else {
                    bottom[b]
                }
            },
    )
}

/// Where `top` lies wholly within `bottom`, copying it leaves each of its
/// rows in one piece: row `r` of `top`, `4 * top_w` bytes long, stands in the
/// result from the byte `((y + r) * bottom_w + x) * 4` on.
pub proof fn lemma_replaced_row(
    bottom: Seq<u8>,
    bottom_w: int,
    bottom_h: int,
    top: Seq<u8>,
    top_w: int,
    top_h: int,
    x: int,
    y: int,
    r: int,
)
    requires
        bottom.len() == 4 * bottom_w * bottom_h,
        top.len() == 4 * top_w * top_h,
        0 <= x,
        0 <= y,
        0 <= top_w,
        x + top_w <= bottom_w,
        y + top_h <= bottom_h,
        0 <= r < top_h,
    ensures
        0 <= ((y + r) * bottom_w + x) * 4,
        ((y + r) * bottom_w + x) * 4 + 4 * top_w <= bottom.len(),
        0 <= r * top_w * 4,
        r * top_w * 4 + 4 * top_w <= top.len(),
        replaced(bottom, bottom_w, top, top_w, top_h, x, y).subrange(
            ((y + r) * bottom_w + x) * 4,
            ((y + r) * bottom_w + x) * 4 + 4 * top_w,
        ) == top.subrange(r * top_w * 4, r * top_w * 4 + 4 * top_w),
{
    let to = ((y + r) * bottom_w + x) * 4;
    let from = r * top_w * 4;
    let after = replaced(bottom, bottom_w, top, top_w, top_h, x, y);
    assert(from == 4 * (r * top_w)) by (nonlinear_arith)
        requires
            from == r * top_w * 4,
    ;
    if top_w == 0 {
        assert(r * top_w == 0) by (nonlinear_arith)
            requires
                top_w == 0,
        ;
        assert(0 <= (y + r) * bottom_w && (y + r) * bottom_w + bottom_w <= bottom_h * bottom_w)
            by (nonlinear_arith)
            requires
                0 <= y + r < bottom_h,
                0 <= bottom_w,
        ;
        assert(4 * bottom_w * bottom_h == 4 * (bottom_h * bottom_w)) by (nonlinear_arith);
    } else {
        lemma_byte_of_pixel(bottom_w, bottom_h, x, y + r, 0);
        lemma_byte_of_pixel(bottom_w, bottom_h, x + top_w - 1, y + r, 3);
        lemma_byte_of_pixel(top_w, top_h, 0, r, 0);
        lemma_byte_of_pixel(top_w, top_h, top_w - 1, r, 3);
        let copied = after.subrange(to, to + 4 * top_w);
        let row = top.subrange(from, from + 4 * top_w);
        assert forall|k: int| 0 <= k < 4 * top_w implies #[trigger] copied[k] == row[k] by {
            lemma_byte_of_pixel(bottom_w, bottom_h, x + k / 4, y + r, k % 4);
            lemma_byte_of_pixel(top_w, top_h, k / 4, r, k % 4);
        }
    }
}

/// Allocates the buffer of a `width` by `height` image through
/// `image::RgbaImage::new` and takes it out with `into_raw`.
///
/// `new` fills a vector of `4 * width * height` bytes with zeros. It panics
/// when it cannot count them in `usize`, which the precondition rules out.
#[verifier::external_body]
fn zeroed_rgba(width: u32, height: u32) -> (buf: Vec<u8>)
    requires
        width >= 1,
        height >= 1,
        4 * width * height <= usize::MAX,
    ensures
        buf@ == transparent(4 * width * height),
{
    image::RgbaImage::new(width, height).into_raw()
}

/// Copies `top` over `bottom` at `(x, y)` with `image::imageops::replace`.
///
/// Both buffers are handed to the image crate as they are, through
/// `ImageBuffer::from_raw`, which accepts a buffer of the length that the
/// dimensions call for, and `bottom` is taken back with `into_raw`.
/// `replace` clips `top` to the bounds of `bottom`, then writes each
/// remaining pixel of `top` with `put_pixel` at its place shifted by
/// `(x, y)`. The pixel `(px, py)` of an image occupies the four bytes from
/// `4 * (py * width + px)` on.
#[verifier::external_body]
fn replace_rgba(
    bottom: &mut Vec<u8>,
    bottom_w: u32,
    bottom_h: u32,
    top: &Vec<u8>,
    top_w: u32,
    top_h: u32,
    x: u32,
    y: u32,
)
    requires
        bottom_w >= 1,
        bottom_h >= 1,
        top_w >= 1,
        top_h >= 1,
        old(bottom)@.len() == 4 * bottom_w * bottom_h,
        top@.len() == 4 * top_w * top_h,
    ensures
        final(bottom)@ == replaced(
            old(bottom)@,
            bottom_w as int,
            top@,
            top_w as int,
            top_h as int,
            x as int,
            y as int,
        ),
{
    let below = std::mem::take(bottom);
    let mut below = image::RgbaImage::from_raw(bottom_w, bottom_h, below).unwrap();
    let above = image::ImageBuffer::<image::Rgba<u8>, &[u8]>::from_raw(top_w, top_h, top.as_slice());
    image::imageops::replace(&mut below, &above.unwrap(), i64::from(x), i64::from(y));
    *bottom = below.into_raw();
}

/// An RGBA8 image: `height` rows of `width` pixels, four bytes each.
#[derive(Debug, Clone, PartialEq, Eq)]
pub struct Raster {
    pub width: u32,
    pub height: u32,
    pub data: Vec<u8>,
}

impl Raster {
    /// The buffer holds exactly four bytes for every pixel.
    pub open spec fn wf(&self) -> bool {
        self.data@.len() == 4 * self.width * self.height
    }

    /// Channel `c` of the pixel `(x, y)`.
    pub open spec fn channel(&self, x: int, y: int, c: int) -> u8 {
        self.data@[offset(self.width as int, x, y, c)]
    }

    /// Wraps a buffer, provided that it has the length the dimensions call for.
    pub fn new(width: u32, height: u32, data: Vec<u8>) -> (r: Option<Raster>)
        ensures
            data@.len() == 4 * width * height ==> r == Some(Raster { width, height, data }),
            data@.len() != 4 * width * height ==> r is None,
    {
        assert(width * height <= 0xffff_ffff * 0xffff_ffff) by (nonlinear_arith)
            requires
                width <= 0xffff_ffff,
                height <= 0xffff_ffff,
        ;
        assert(4 * width * height == 4 * (width * height)) by (nonlinear_arith);
        let pixels: u64 = (width as u64) * (height as u64);
        let bytes: u128 = 4 * (pixels as u128);
        if data.len() as u128 == bytes {
            Some(Raster { width, height, data })
        } else {
            None
        }
    }

    /// A fully transparent image: every byte is zero.
    pub fn transparent(width: u32, height: u32) -> (r: Raster)
        requires
            4 * width * height <= usize::MAX,
        ensures
            r.wf(),
            r.width == width,
            r.height == height,
            r.data@ == transparent(4 * width * height),
    {
        if width == 0 || height == 0 {
            assert(4 * width * height == 0) by (nonlinear_arith)
                requires
                    width == 0 || height == 0,
            ;
            let data: Vec<u8> = Vec::new();
            return Raster { width, height, data };
        }
        Raster { width, height, data: zeroed_rgba(width, height) }
    }

    /// Copies `top` over this image with its upper left corner at `(x, y)`.
    /// The copied pixels replace what was there; nothing is blended.
    pub fn replace(&mut self, top: &Raster, x: u32, y: u32)
        requires
            old(self).wf(),
            top.wf(),
        ensures
            final(self).wf(),
            final(self).width == old(self).width,
            final(self).height == old(self).height,
            final(self).data@ == replaced(
                old(self).data@,
                old(self).width as int,
                top.data@,
                top.width as int,
                top.height as int,
                x as int,
                y as int,
            ),
    {
        let width = self.width;
        let height = self.height;
        if width == 0 || height == 0 || top.width == 0 || top.height == 0 {
            assert(width == 0 || height == 0 ==> 4 * width * height == 0) by (nonlinear_arith);
            assert(self.data@ =~= replaced(
                self.data@,
                width as int,
                top.data@,
                top.width as int,
                top.height as int,
                x as int,
                y as int,
            ));
            return;
        }
        replace_rgba(&mut self.data, width, height, &top.data, top.width, top.height, x, y);
    }
}

} // verus!
