//! Textures whose lookup is a matter of indices: the pixels of an image.
use crate::noise::Perlin;
use crate::scalar::{vlt, Scalar};
use crate::vector::Vec3;
use vstd::prelude::*;

verus! {

/// An image of `width` by `height` pixels, three bytes (red, green, blue)
/// for each, row after row from the top. An image without pixels stands for
/// one that could not be had.
pub struct Image {
    pub data: Vec<u8>,
    pub width: u32,
    pub height: u32,
}

/// The colour that an image without pixels shows everywhere: zero red, full
/// green and full blue.
pub open spec fn no_data_colour() -> Vec3 {
    Vec3 {
        x: Scalar { bits: 0 },
        y: Scalar { bits: crate::scalar::ONE_BITS },
        z: Scalar { bits: crate::scalar::ONE_BITS },
    }
}

impl Image {
    /// Whether the image has three bytes for each of its pixels.
    pub open spec fn wf(&self) -> bool {
        self.data@.len() == 3 * self.width * self.height
    }

    /// Where the first byte of the pixel in column `i` of row `j` stands,
    /// with the column and the row held to the last one.
    pub open spec fn offset(&self, i: u32, j: u32) -> int {
        let column = if i < self.width {
            i
        } else {
            (self.width - 1) as u32
        };
        let row = if j < self.height {
            j
        } else {
            (self.height - 1) as u32
        };
        3 * (row * self.width + column)
    }

    /// The image with the given pixels. Where `data` does not hold exactly
    /// three bytes for each of `width` times `height` pixels, the result is
    /// the image without pixels.
    pub fn new(width: u32, height: u32, data: Vec<u8>) -> (image: Image)
        ensures
            image.wf(),
            data@.len() == 3 * width * height ==> image.width == width && image.height == height && image.data@
                == data@,
            data@.len() != 3 * width * height ==> image.width == 0 && image.height == 0 && image.data@.len() == 0,
    {
        let w: u128 = width as u128;
        let h: u128 = height as u128;
        assert(0 <= w * h <= 0xffff_ffff * 0xffff_ffff) by (nonlinear_arith)
            requires
                0 <= w <= 0xffff_ffff,
                0 <= h <= 0xffff_ffff,
        ;
        let pixels: u128 = w * h;
        let expected: u128 = 3 * pixels;
        assert(expected == 3 * width * height) by (nonlinear_arith)
            requires
                expected == 3 * pixels,
                pixels == w * h,
                w == width,
                h == height,
        ;
        if data.len() as u128 == expected {
            Image { data, width, height }
        } else {
            Image { data: Vec::new(), width: 0, height: 0 }
        }
    }

    /// The three bytes of the pixel in column `i` of row `j`, where a column
    /// or a row beyond the last one reads as the last one; nothing for an
    /// image without pixels.
    pub fn pixel(&self, i: u32, j: u32) -> (p: Option<(u8, u8, u8)>)
        requires
            self.wf(),
        ensures
            self.data@.len() == 0 ==> p is None,
            self.data@.len() > 0 ==> {
                &&& 0 <= self.offset(i, j)
                &&& self.offset(i, j) + 2 < self.data@.len()
                &&& p == Some(
                    (
                        self.data@[self.offset(i, j)],
                        self.data@[self.offset(i, j) + 1],
                        self.data@[self.offset(i, j) + 2],
                    ),
                )
            },
    {
        if self.data.len() == 0 {
            return None;
        }
        assert(self.width > 0 && self.height > 0) by (nonlinear_arith)
            requires
                3 * self.width * self.height > 0,
        ;
        let column = if i < self.width {
            i
        } else {
            self.width - 1
        };
        let row = if j < self.height {
            j
        } else {
            self.height - 1
        };
        assert(3 * (row * self.width + column) + 2 < 3 * self.width * self.height) by (nonlinear_arith)
            requires
                0 <= column < self.width,
                0 <= row < self.height,
        ;
        assert(0 <= row * self.width) by (nonlinear_arith)
            requires
                0 <= row,
                0 <= self.width,
        ;
        let at: usize = 3 * (row as usize * self.width as usize + column as usize);
        Some((self.data[at], self.data[at + 1], self.data[at + 2]))
    }

    /// The colour of the pixel in column `i` of row `j`, each byte turned
    /// into a scalar by `scale`; the colour of no data for an image without
    /// pixels.
    pub fn value<F: Fn(u8) -> Scalar>(&self, i: u32, j: u32, scale: &F) -> (c: Vec3)
        requires
            self.wf(),
            forall|byte: u8| scale.requires((byte,)),
        ensures
            self.data@.len() == 0 ==> c == no_data_colour(),
            self.data@.len() > 0 ==> {
                &&& scale.ensures((self.data@[self.offset(i, j)],), c.x)
                &&& scale.ensures((self.data@[self.offset(i, j) + 1],), c.y)
                &&& scale.ensures((self.data@[self.offset(i, j) + 2],), c.z)
            },
    {
        match self.pixel(i, j) {
            None => Vec3::new(Scalar::zero(), Scalar::one(), Scalar::one()),
            Some((red, green, blue)) => Vec3::new(scale(red), scale(green), scale(blue)),
        }
    }
}

/// One colour everywhere.
#[derive(Clone, Copy, Debug)]
pub struct SolidColor {
    pub color: Vec3,
}

impl SolidColor {
    pub fn new(r: Scalar, g: Scalar, b: Scalar) -> (t: SolidColor)
        ensures
            t.color == (Vec3 { x: r, y: g, z: b }),
    {
        SolidColor { color: Vec3::new(r, g, b) }
    }

    /// The colour, whatever the place.
    pub fn value(&self) -> (c: Vec3)
        ensures
            c == self.color,
    {
        self.color
    }
}

/// A checker board of two textures, known by their numbers.
#[derive(Clone, Copy, Debug)]
pub struct Checker {
    pub odd: usize,
    pub even: usize,
}

impl Checker {
    pub fn new(odd: usize, even: usize) -> (t: Checker)
        ensures
            t.odd == odd,
            t.even == even,
    {
        Checker { odd, even }
    }

    /// The texture that shows at a point: `odd` where the product of the
    /// three sines at the point, `sines`, is below zero, and `even` elsewhere.
    pub fn select(&self, sines: Scalar) -> (texture: usize)
        ensures
            texture == (if vlt(sines@, Some(0int)) {
                self.odd
            } else {
                self.even
            }),
    {
        if sines.lt(Scalar::zero()) {
            self.odd
        } else {
            self.even
        }
    }
}

/// Marbled noise with the frequency `scale`.
pub struct Noise {
    pub noise: Perlin,
    pub scale: Scalar,
}

impl Noise {
    pub fn new(noise: Perlin, scale: Scalar) -> (t: Noise)
        ensures
            t.noise == noise,
            t.scale == scale,
    {
        Noise { noise, scale }
    }
}

} // verus!
