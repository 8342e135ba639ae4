//! Images held as rows of bytes.

use vstd::prelude::*;

verus! {

/// An image of three bytes per pixel, row by row: red, green, blue.
#[derive(Debug)]
pub struct RgbImage {
    pub width: u32,
    pub height: u32,
    pub data: Vec<u8>,
}

/// The offset of a pixel's channel in rows of `width` pixels of three bytes.
pub open spec fn offset3(width: int, x: int, y: int, c: int) -> int {
    (y * width + x) * 3 + c
}

/// A pixel number within `width * height` pixels stays within them.
pub proof fn lemma_pixel_in_range(width: int, height: int, x: int, y: int)
    requires
        0 <= x < width,
        0 <= y < height,
    ensures
        0 <= y * width + x < width * height,
        (y * width + x) / width == y,
        (y * width + x) % width == x,
{
    assert(0 <= y * width + x < width * height) by (nonlinear_arith)
        requires
            0 <= x < width,
            0 <= y < height,
    ;
    vstd::arithmetic::div_mod::lemma_fundamental_div_mod_converse(y * width + x, width, y, x);
}

/// Every pixel number is the number of one place.
pub proof fn lemma_pixel_place(width: int, height: int, i: int)
    requires
        0 < width,
        0 <= i < width * height,
    ensures
        0 <= i % width < width,
        0 <= i / width < height,
        i == (i / width) * width + i % width,
{
    vstd::arithmetic::div_mod::lemma_fundamental_div_mod(i, width);
    vstd::arithmetic::div_mod::lemma_mod_bound(i, width);
    assert((i / width) * width == width * (i / width)) by (nonlinear_arith);
    assert(0 <= i / width < height) by (nonlinear_arith)
        requires
            0 < width,
            0 <= i < width * height,
            i == width * (i / width) + i % width,
            0 <= i % width < width,
    ;
}

/// What an image shows: its size and its bytes, row by row.
#[verifier::ext_equal]
pub struct Picture {
    pub width: int,
    pub height: int,
    pub data: Seq<u8>,
}

impl Picture {
    /// There are three bytes for each pixel.
    pub open spec fn wf(self) -> bool {
        &&& 0 <= self.width
        &&& 0 <= self.height
        &&& self.data.len() == self.width * self.height * 3
    }

    /// One channel of the pixel at column `x` and row `y`.
    pub open spec fn at(self, x: int, y: int, c: int) -> u8 {
        self.data[offset3(self.width, x, y, c)]
    }
}

/// The picture of a size that a function of column, row and channel paints.
pub open spec fn painted(width: int, height: int, f: spec_fn(int, int, int) -> u8) -> Picture {
    Picture {
        width,
        height,
        data: Seq::new(
            (width * height * 3) as nat,
            |i: int| f((i / 3) % width, (i / 3) / width, i % 3),
        ),
    }
}

/// Every byte of a picture is a channel of one pixel of it.
pub proof fn lemma_byte_place(width: int, height: int, i: int)
    requires
        0 <= width,
        0 <= height,
        0 <= i < width * height * 3,
    ensures
        0 <= (i / 3) % width < width,
        0 <= (i / 3) / width < height,
        0 <= i % 3 < 3,
        i == offset3(width, (i / 3) % width, (i / 3) / width, i % 3),
{
    assert(0 < width) by (nonlinear_arith)
        requires
            0 <= width,
            0 <= i < width * height * 3,
    ;
    lemma_pixel_place(width, height, i / 3);
}

/// Every channel of a pixel has its byte.
pub proof fn lemma_byte_of(width: int, height: int, x: int, y: int, c: int)
    requires
        0 <= x < width,
        0 <= y < height,
        0 <= c < 3,
    ensures
        0 <= offset3(width, x, y, c) < width * height * 3,
        offset3(width, x, y, c) / 3 == y * width + x,
        offset3(width, x, y, c) % 3 == c,
        (offset3(width, x, y, c) / 3) % width == x,
        (offset3(width, x, y, c) / 3) / width == y,
{
    lemma_pixel_in_range(width, height, x, y);
}

/// A painted picture shows what was painted.
pub proof fn lemma_painted(width: int, height: int, f: spec_fn(int, int, int) -> u8, x: int, y: int, c: int)
    requires
        0 <= x < width,
        0 <= y < height,
        0 <= c < 3,
    ensures
        painted(width, height, f).at(x, y, c) == f(x, y, c),
{
    lemma_byte_of(width, height, x, y, c);
}

/// Two pictures of one size that show the same are the same.
pub proof fn lemma_same_picture(a: Picture, b: Picture)
    requires
        a.wf(),
        b.wf(),
        a.width == b.width,
        a.height == b.height,
        forall|x: int, y: int, c: int|
            0 <= x < a.width && 0 <= y < a.height && 0 <= c < 3 ==> #[trigger] a.at(x, y, c)
                == b.at(x, y, c),
    ensures
        a == b,
{
    assert forall|i: int| 0 <= i < a.data.len() implies a.data[i] == b.data[i] by {
        lemma_byte_place(a.width, a.height, i);
        assert(a.at((i / 3) % a.width, (i / 3) / a.width, i % 3) == b.at(
            (i / 3) % a.width,
            (i / 3) / a.width,
            i % 3,
        ));
    }
    assert(a.data =~= b.data);
}

impl View for RgbImage {
    type V = Picture;

    open spec fn view(&self) -> Picture {
        Picture { width: self.width as int, height: self.height as int, data: self.data@ }
    }
}

impl RgbImage {
    /// There are three bytes for each pixel.
    pub open spec fn wf(self) -> bool {
        self.data.len() == self.width * self.height * 3
    }

    /// One channel of the pixel at column `x` and row `y`.
    pub open spec fn at(self, x: int, y: int, c: int) -> u8 {
        self.data@[offset3(self.width as int, x, y, c)]
    }

    /// An image from its size and bytes; nothing where their number does not fit the size.
    pub fn from_raw(width: u32, height: u32, data: Vec<u8>) -> (r: Option<RgbImage>)
        ensures
            data@.len() == width * height * 3 ==> r == Some(RgbImage { width, height, data }),
            data@.len() != width * height * 3 ==> r is None,
    {
        proof {
            lemma_area_fits(width, height);
        }
        let need: u128 = (width as u128) * (height as u128) * 3;
        if data.len() as u128 == need {
            Some(RgbImage { width, height, data })
        } else {
            None
        }
    }

    /// The offset of a pixel's first byte.
    pub fn offset(&self, x: u32, y: u32) -> (r: usize)
        requires
            self.wf(),
            x < self.width,
            y < self.height,
        ensures
            r == offset3(self.width as int, x as int, y as int, 0),
            r + 3 <= self.data@.len(),
    {
        proof {
            lemma_pixel_in_range(self.width as int, self.height as int, x as int, y as int);
            assert(y * self.width >= 0) by (nonlinear_arith);
        }
        (y as usize * self.width as usize + x as usize) * 3
    }
}

impl Clone for RgbImage {
    fn clone(&self) -> (r: RgbImage)
        ensures
            r.width == self.width,
            r.height == self.height,
            r.data@ == self.data@,
    {
        let data: Vec<u8> = self.data.clone();
        assert(data@ =~= self.data@);
        RgbImage { width: self.width, height: self.height, data }
    }
}

/// An image of one byte per pixel, row by row.
#[derive(Debug)]
pub struct GrayImage {
    pub width: u32,
    pub height: u32,
    pub data: Vec<u8>,
}

impl GrayImage {
    /// There is one byte for each pixel.
    pub open spec fn wf(self) -> bool {
        self.data.len() == self.width * self.height
    }

    /// The pixel at column `x` and row `y`.
    pub open spec fn at(self, x: int, y: int) -> u8 {
        self.data@[y * self.width + x]
    }
}

/// The bytes of any image can be counted in 128 bits.
pub proof fn lemma_area_fits(width: u32, height: u32)
    ensures
        0 <= width * height <= 0xffff_ffff * 0xffff_ffff,
        0 <= width * height * 3 <= 3 * (0xffff_ffff * 0xffff_ffff),
{
    assert(0 <= width * height <= 0xffff_ffff * 0xffff_ffff) by (nonlinear_arith)
        requires
            0 <= width <= 0xffff_ffff,
            0 <= height <= 0xffff_ffff,
    ;
}

} // verus!
