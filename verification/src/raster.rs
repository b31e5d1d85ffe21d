//! An RGBA image held as plain bytes: four bytes per pixel (red, green,
//! blue, alpha), rows top to bottom, pixels left to right.
use vstd::prelude::*;
use vstd::arithmetic::div_mod::*;
use vstd::arithmetic::mul::*;

verus! {

/// What an RGBA image is: its size and its bytes.
pub struct RasterView {
    pub width: nat,
    pub height: nat,
    pub bytes: Seq<u8>,
}

/// The offset of the first byte of pixel `(x, y)` in an image `w` pixels wide.
pub open spec fn pixel_offset(w: int, x: int, y: int) -> int {
    (y * w + x) * 4
}

impl RasterView {
    pub open spec fn well_formed(self) -> bool {
        &&& self.width <= u32::MAX
        &&& self.height <= u32::MAX
        &&& self.bytes.len() == self.width * self.height * 4
    }

    pub open spec fn contains(self, x: int, y: int) -> bool {
        0 <= x < self.width && 0 <= y < self.height
    }

    /// Channel `c` (0 red, 1 green, 2 blue, 3 alpha) of pixel `(x, y)`.
    pub open spec fn channel(self, x: int, y: int, c: int) -> u8 {
        self.bytes[pixel_offset(self.width as int, x, y) + c]
    }

    /// The column of the pixel that byte `i` belongs to.
    pub open spec fn col_of(self, i: int) -> int {
        (i / 4) % (self.width as int)
    }

    /// The row of the pixel that byte `i` belongs to.
    pub open spec fn row_of(self, i: int) -> int {
        (i / 4) / (self.width as int)
    }
}

/// Byte `i` of an image `w` pixels wide and `h` high lies in the pixel at
/// column `(i / 4) % w`, row `(i / 4) / w`, channel `i % 4`.
pub proof fn lemma_byte_position(w: int, h: int, i: int)
    requires
        w > 0,
        h >= 0,
        0 <= i < w * h * 4,
    ensures
        0 <= (i / 4) % w < w,
        0 <= (i / 4) / w < h,
        0 <= i % 4 < 4,
        i == pixel_offset(w, (i / 4) % w, (i / 4) / w) + i % 4,
{
    let p = i / 4;
    let c = i % 4;
    lemma_fundamental_div_mod(i, 4);
    lemma_fundamental_div_mod(p, w);
    lemma_mod_pos_bound(p, w);
    assert(0 <= p);
    assert(p < w * h) by {
        assert(i < (w * h) * 4) by (nonlinear_arith)
            requires 0 <= i < w * h * 4;
    }
    lemma_div_pos_is_pos(p, w);
    assert(p / w < h) by {
        lemma_div_is_ordered(p, w * h - 1, w);
        lemma_mul_is_commutative(w, h);
        assert((h * w - 1) / w < h) by {
            lemma_fundamental_div_mod(h * w - 1, w);
            lemma_mod_pos_bound(h * w - 1, w);
            if (h * w - 1) / w >= h {
                lemma_mul_inequality(h, (h * w - 1) / w, w);
                lemma_mul_is_commutative(w, (h * w - 1) / w);
            }
        }
    }
    assert(p == (p / w) * w + p % w) by {
        lemma_mul_is_commutative(w, p / w);
    }
}

/// Pixel `(x, y)` of an image `w` by `h` starts `pixel_offset(w, x, y)`
/// bytes in, its four bytes lie inside the image, and they map back to
/// `(x, y)`.
pub proof fn lemma_pixel_offset(w: int, h: int, x: int, y: int, c: int)
    requires
        0 <= x < w,
        0 <= y < h,
        0 <= c < 4,
    ensures
        0 <= pixel_offset(w, x, y) + c < w * h * 4,
        (pixel_offset(w, x, y) + c) / 4 == y * w + x,
        (pixel_offset(w, x, y) + c) % 4 == c,
        ((pixel_offset(w, x, y) + c) / 4) % w == x,
        ((pixel_offset(w, x, y) + c) / 4) / w == y,
{
    let i = pixel_offset(w, x, y) + c;
    assert(0 <= y * w + x < w * h) by (nonlinear_arith)
        requires 0 <= x < w, 0 <= y < h;
    assert(0 <= i < w * h * 4) by (nonlinear_arith)
        requires i == (y * w + x) * 4 + c, 0 <= y * w + x < w * h, 0 <= c < 4;
    lemma_fundamental_div_mod_converse(i, 4, y * w + x, c);
    lemma_fundamental_div_mod_converse(y * w + x, w, y, x);
}

/// An RGBA image with 8-bit channels.
#[derive(Debug, Clone)]
pub struct RgbaRaster {
    width: u32,
    height: u32,
    data: Vec<u8>,
}

impl View for RgbaRaster {
    type V = RasterView;

    closed spec fn view(&self) -> RasterView {
        RasterView { width: self.width as nat, height: self.height as nat, bytes: self.data@ }
    }
}

impl RgbaRaster {
    /// A transparent black image of the given size.
    pub fn new(width: u32, height: u32) -> (r: RgbaRaster)
        requires
            width * height * 4 <= usize::MAX,
        ensures
            r@.well_formed(),
            r@.width == width,
            r@.height == height,
            r@.bytes == Seq::new((width * height * 4) as nat, |i: int| 0u8),
    {
        let len = (width as usize) * (height as usize) * 4;
        let data = vec![0u8; len];
        assert(data@ =~= Seq::new((width * height * 4) as nat, |i: int| 0u8));
        RgbaRaster { width, height, data }
    }

    /// The image with these bytes, when there are exactly four per pixel.
    pub fn from_raw(width: u32, height: u32, data: Vec<u8>) -> (r: Option<RgbaRaster>)
        ensures
            r is Some <==> data@.len() == width * height * 4,
            r matches Some(img) ==> img@.well_formed() && img@ == (RasterView {
                width: width as nat,
                height: height as nat,
                bytes: data@,
            }),
    {
        let len = data.len() as u64;
        let w = width as u64;
        let h = height as u64;
        // width * height < 2^64, so only the last factor can overflow.
        assert(w * h <= u32::MAX * u32::MAX) by (nonlinear_arith)
            requires w <= u32::MAX, h <= u32::MAX;
        let wh = w * h;
        if wh > u64::MAX / 4 || wh * 4 != len {
            return None;
        }
        Some(RgbaRaster { width, height, data })
    }

    pub fn width(&self) -> (w: u32)
        ensures
            w == self@.width,
    {
        self.width
    }

    pub fn height(&self) -> (h: u32)
        ensures
            h == self@.height,
    {
        self.height
    }

    pub fn as_raw(&self) -> (b: &[u8])
        ensures
            b@ == self@.bytes,
    {
        self.data.as_slice()
    }

    pub fn into_raw(self) -> (b: Vec<u8>)
        ensures
            b@ == self@.bytes,
    {
        self.data
    }

    fn offset_of(&self, x: u32, y: u32) -> (o: usize)
        requires
            self@.well_formed(),
            self@.contains(x as int, y as int),
        ensures
            o == pixel_offset(self@.width as int, x as int, y as int),
            o + 3 < self@.bytes.len(),
    {
        let len = self.data.len();
        proof {
            lemma_pixel_offset(self.width as int, self.height as int, x as int, y as int, 3);
            assert(y * self.width <= (y * self.width + x) * 4) by (nonlinear_arith)
                requires 0 <= x, 0 <= y, 0 <= self.width;
        }
        ((y as usize) * (self.width as usize) + x as usize) * 4
    }

    /// The four channels of pixel `(x, y)`.
    pub fn get_pixel(&self, x: u32, y: u32) -> (p: [u8; 4])
        requires
            self@.well_formed(),
            self@.contains(x as int, y as int),
        ensures
            p@ == seq![
                self@.channel(x as int, y as int, 0),
                self@.channel(x as int, y as int, 1),
                self@.channel(x as int, y as int, 2),
                self@.channel(x as int, y as int, 3),
            ],
    {
        proof {
            lemma_pixel_offset(self.width as int, self.height as int, x as int, y as int, 3);
        }
        let base = self.offset_of(x, y);
        let p = [self.data[base], self.data[base + 1], self.data[base + 2], self.data[base + 3]];
        assert(p@ =~= seq![
            self@.channel(x as int, y as int, 0),
            self@.channel(x as int, y as int, 1),
            self@.channel(x as int, y as int, 2),
            self@.channel(x as int, y as int, 3),
        ]);
        p
    }

    /// Replaces pixel `(x, y)`, leaving every other byte as it was.
    pub fn put_pixel(&mut self, x: u32, y: u32, p: [u8; 4])
        requires
            old(self)@.well_formed(),
            old(self)@.contains(x as int, y as int),
        ensures
            final(self)@.well_formed(),
            final(self)@.width == old(self)@.width,
            final(self)@.height == old(self)@.height,
            final(self)@.bytes == old(self)@.bytes.update(
                pixel_offset(old(self)@.width as int, x as int, y as int),
                p[0],
            ).update(pixel_offset(old(self)@.width as int, x as int, y as int) + 1, p[1]).update(
                pixel_offset(old(self)@.width as int, x as int, y as int) + 2,
                p[2],
            ).update(pixel_offset(old(self)@.width as int, x as int, y as int) + 3, p[3]),
            forall|i: int|
                0 <= i < old(self)@.bytes.len() ==> #[trigger] final(self)@.bytes[i] == if old(
                    self,
                )@.col_of(i) == x && old(self)@.row_of(i) == y {
                    p[i % 4]
                } else {
                    old(self)@.bytes[i]
                },
    {
        proof {
            lemma_pixel_offset(self.width as int, self.height as int, x as int, y as int, 3);
        }
        let base = self.offset_of(x, y);
        self.data.set(base, p[0]);
        self.data.set(base + 1, p[1]);
        self.data.set(base + 2, p[2]);
        self.data.set(base + 3, p[3]);
        proof {
            let w = old(self)@.width as int;
            let h = old(self)@.height as int;
            assert forall|i: int| 0 <= i < old(self)@.bytes.len() implies #[trigger] self@.bytes[i]
                == if old(self)@.col_of(i) == x && old(self)@.row_of(i) == y {
                p[i % 4]
            } else {
                old(self)@.bytes[i]
            } by {
                lemma_byte_position(w, h, i);
                if old(self)@.col_of(i) == x && old(self)@.row_of(i) == y {
                    assert(i == base + i % 4);
                } else {
                    let c = i % 4;
                    if base <= i < base + 4 {
                        lemma_pixel_offset(w, h, x as int, y as int, i - base);
                    }
                }
            }
        }
    }
}

/// `after` is `before` with `top` drawn at `(x, y)` as far as opaque and
/// uncovered pixels go: a pixel `top` does not cover is kept, and one that
/// an opaque pixel of `top` covers takes that pixel's value.
pub open spec fn overlay_keeps_or_covers(before: RasterView, after: RasterView, top: RasterView, x: int, y: int) -> bool {
    &&& after.width == before.width
    &&& after.height == before.height
    &&& after.bytes.len() == before.bytes.len()
    &&& forall|i: int|
        0 <= i < before.bytes.len() ==> {
            let tx = before.col_of(i) - x;
            let ty = before.row_of(i) - y;
            &&& !top.contains(tx, ty) ==> #[trigger] after.bytes[i] == before.bytes[i]
            &&& (top.contains(tx, ty) && top.channel(tx, ty, 3) == 255) ==> after.bytes[i] == top.channel(
                tx,
                ty,
                i % 4,
            )
        }
}

/// What `image::imageops::overlay` leaves in `bottom` after drawing `top`
/// with its top-left corner at `(x, y)`.
pub uninterp spec fn overlaid(bottom: RasterView, top: RasterView, x: i64, y: i64) -> Seq<u8>;

/// Calls `image::imageops::overlay` on the two images. Trusted: the size is
/// kept; a pixel that `top` does not cover keeps its value; where `top`'s
/// pixel is opaque (alpha 255) it replaces the pixel and where it is fully
/// transparent (alpha 0) the pixel is kept, as `Rgba::blend` in the crate's
/// source does. The result of blending partly transparent pixels (done in
/// floating point) is only named.
#[verifier::external_body]
pub(crate) fn overlay(bottom: &mut RgbaRaster, top: &RgbaRaster, x: i64, y: i64)
    requires
        old(bottom)@.well_formed(),
        top@.well_formed(),
    ensures
        final(bottom)@.width == old(bottom)@.width,
        final(bottom)@.height == old(bottom)@.height,
        final(bottom)@.bytes == overlaid(old(bottom)@, top@, x, y),
        final(bottom)@.bytes.len() == old(bottom)@.bytes.len(),
        forall|i: int|
            0 <= i < old(bottom)@.bytes.len() ==> {
                let tx = old(bottom)@.col_of(i) - x;
                let ty = old(bottom)@.row_of(i) - y;
                &&& !top@.contains(tx, ty) ==> #[trigger] final(bottom)@.bytes[i] == old(bottom)@.bytes[i]
                &&& (top@.contains(tx, ty) && top@.channel(tx, ty, 3) == 255) ==> final(bottom)@.bytes[i]
                    == top@.channel(tx, ty, i % 4)
                &&& (top@.contains(tx, ty) && top@.channel(tx, ty, 3) == 0) ==> final(bottom)@.bytes[i]
                    == old(bottom)@.bytes[i]
            },
{
    let data = std::mem::take(&mut bottom.data);
    let mut img = image::RgbaImage::from_raw(bottom.width, bottom.height, data).unwrap();
    let top_img = image::RgbaImage::from_raw(top.width, top.height, top.data.clone()).unwrap();
    image::imageops::overlay(&mut img, &top_img, x, y);
    bottom.data = img.into_raw();
}

} // verus!
