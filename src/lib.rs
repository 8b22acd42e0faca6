//! In-memory RGBA image transforms: channel arithmetic, kernel convolution and
//! two-image blending over a flat pixel buffer, with verified contracts.
use vstd::prelude::*;

pub mod blend;
pub mod channels;
pub mod codec;
pub mod conv;
pub mod separable;

verus! {

/// Errors surfaced by the library's fallible operations.
#[derive(Debug, Clone, Copy, PartialEq, Eq, Structural)]
pub enum PhotonError {
    /// An externally supplied byte sequence could not be decoded.
    MalformedInput,
    /// A two-image operation received images of unequal width or height.
    DimensionMismatch,
    /// A structurally invalid parameter (even kernel size, wrong vector length, ...).
    InvalidParameter,
}

/// Clamps an integer into the range of one 8-bit sample.
pub open spec fn clamp_u8_spec(v: int) -> int {
    if v < 0 {
        0
    } else if v > 255 {
        255
    } else {
        v
    }
}

/// Provides the image's height, width, and contains the image's raw pixels:
/// RGBA samples, row by row, four bytes per pixel.
#[derive(Clone, Debug)]
pub struct PhotonImage {
    raw_pixels: Vec<u8>,
    width: u32,
    height: u32,
}

impl PhotonImage {
    /// The samples of the image.
    pub closed spec fn pixels(&self) -> Seq<u8> {
        self.raw_pixels@
    }

    /// The width of the image, in pixels.
    pub closed spec fn w(&self) -> nat {
        self.width as nat
    }

    /// The height of the image, in pixels.
    pub closed spec fn h(&self) -> nat {
        self.height as nat
    }

    /// Both dimensions are positive and there are exactly four samples per pixel.
    pub open spec fn wf(&self) -> bool {
        &&& self.w() > 0
        &&& self.h() > 0
        &&& self.pixels().len() == self.w() * self.h() * 4
    }

    /// Create a new PhotonImage from a Vec of u8s, which represent raw pixels.
    pub fn new(raw_pixels: Vec<u8>, width: u32, height: u32) -> (r: PhotonImage)
        requires
            width > 0,
            height > 0,
            raw_pixels@.len() == width * height * 4,
        ensures
            r.wf(),
            r.pixels() == raw_pixels@,
            r.w() == width,
            r.h() == height,
    {
        PhotonImage { raw_pixels, width, height }
    }

    /// Build an image from RGBA samples, refusing with `MalformedInput` a zero
    /// dimension or a buffer that does not hold four samples per pixel.
    pub fn from_rgba(raw_pixels: Vec<u8>, width: u32, height: u32) -> (r: Result<PhotonImage, PhotonError>)
        ensures
            (width == 0 || height == 0 || raw_pixels@.len() != width * height * 4) ==> r == Err::<
                PhotonImage,
                PhotonError,
            >(PhotonError::MalformedInput),
            (width > 0 && height > 0 && raw_pixels@.len() == width * height * 4) ==> r is Ok,
            r matches Ok(img) ==> img.wf() && img.pixels() == raw_pixels@ && img.w() == width && img.h()
                == height,
    {
        if width == 0 || height == 0 {
            return Err(PhotonError::MalformedInput);
        }
        assert(width * height * 4 <= 0xffff_ffff_ffff_ffff * 4) by (nonlinear_arith)
            requires
                width <= 0xffff_ffff,
                height <= 0xffff_ffff,
        ;
        let expected: u128 = width as u128 * height as u128 * 4;
        if raw_pixels.len() as u128 != expected {
            return Err(PhotonError::MalformedInput);
        }
        Ok(PhotonImage::new(raw_pixels, width, height))
    }

    /// Get the width of the PhotonImage.
    pub fn get_width(&self) -> (r: u32)
        ensures
            r == self.w(),
    {
        self.width
    }

    /// Get the PhotonImage's pixels as a Vec of u8s.
    pub fn get_raw_pixels(&self) -> (r: Vec<u8>)
        ensures
            r@ == self.pixels(),
    {
        let mut out: Vec<u8> = Vec::with_capacity(self.raw_pixels.len());
        let mut i: usize = 0;
        while i < self.raw_pixels.len()
            invariant
                i <= self.raw_pixels@.len(),
                out@ == self.raw_pixels@.subrange(0, i as int),
            decreases self.raw_pixels@.len() - i,
        {
            out.push(self.raw_pixels[i]);
            i += 1;
            assert(out@ =~= self.raw_pixels@.subrange(0, i as int));
        }
        assert(out@ =~= self.raw_pixels@);
        out
    }

    /// Borrow the samples without copying them.
    pub(crate) fn samples(&self) -> (r: &Vec<u8>)
        ensures
            r@ == self.pixels(),
    {
        &self.raw_pixels
    }

    /// Get the height of the PhotonImage.
    pub fn get_height(&self) -> (r: u32)
        ensures
            r == self.h(),
    {
        self.height
    }
}

/// RGB color type.
#[derive(Debug, Clone, Copy, PartialEq, Eq, Structural)]
pub struct Rgb {
    pub r: u8,
    pub g: u8,
    pub b: u8,
}

impl Rgb {
    /// Create a new RGB struct.
    pub fn new(r: u8, g: u8, b: u8) -> (c: Rgb)
        ensures
            c == (Rgb { r, g, b }),
    {
        Rgb { r, g, b }
    }

    /// Build a colour from a vector of exactly three samples.
    pub fn from_vec(v: Vec<u8>) -> (c: Result<Rgb, PhotonError>)
        ensures
            v@.len() == 3 ==> c == Ok::<Rgb, PhotonError>(Rgb { r: v@[0], g: v@[1], b: v@[2] }),
            v@.len() != 3 ==> c == Err::<Rgb, PhotonError>(PhotonError::InvalidParameter),
    {
        if v.len() != 3 {
            return Err(PhotonError::InvalidParameter);
        }
        Ok(Rgb::new(v[0], v[1], v[2]))
    }

    /// Set the Red value.
    pub fn set_red(&mut self, r: u8)
        ensures
            *final(self) == (Rgb { r, ..*old(self) }),
    {
        self.r = r;
    }

    /// Set the Green value.
    pub fn set_green(&mut self, g: u8)
        ensures
            *final(self) == (Rgb { g, ..*old(self) }),
    {
        self.g = g;
    }

    /// Set the Blue value.
    pub fn set_blue(&mut self, b: u8)
        ensures
            *final(self) == (Rgb { b, ..*old(self) }),
    {
        self.b = b;
    }

    /// Get the Red value.
    pub fn get_red(&self) -> (v: u8)
        ensures
            v == self.r,
    {
        self.r
    }

    /// Get the Green value.
    pub fn get_green(&self) -> (v: u8)
        ensures
            v == self.g,
    {
        self.g
    }

    /// Get the Blue value.
    pub fn get_blue(&self) -> (v: u8)
        ensures
            v == self.b,
    {
        self.b
    }
}

/// RGBA color type.
#[derive(Debug, Clone, Copy, PartialEq, Eq, Structural)]
pub struct Rgba {
    pub r: u8,
    pub g: u8,
    pub b: u8,
    pub a: u8,
}

impl Rgba {
    /// Create a new RGBA struct.
    pub fn new(r: u8, g: u8, b: u8, a: u8) -> (c: Rgba)
        ensures
            c == (Rgba { r, g, b, a }),
    {
        Rgba { r, g, b, a }
    }

    /// Build a colour from a vector of exactly four samples.
    pub fn from_vec(v: Vec<u8>) -> (c: Result<Rgba, PhotonError>)
        ensures
            v@.len() == 4 ==> c == Ok::<Rgba, PhotonError>(
                Rgba { r: v@[0], g: v@[1], b: v@[2], a: v@[3] },
            ),
            v@.len() != 4 ==> c == Err::<Rgba, PhotonError>(PhotonError::InvalidParameter),
    {
        if v.len() != 4 {
            return Err(PhotonError::InvalidParameter);
        }
        Ok(Rgba::new(v[0], v[1], v[2], v[3]))
    }

    /// Set the Red value.
    pub fn set_red(&mut self, r: u8)
        ensures
            *final(self) == (Rgba { r, ..*old(self) }),
    {
        self.r = r;
    }

    /// Set the Green value.
    pub fn set_green(&mut self, g: u8)
        ensures
            *final(self) == (Rgba { g, ..*old(self) }),
    {
        self.g = g;
    }

    /// Set the Blue value.
    pub fn set_blue(&mut self, b: u8)
        ensures
            *final(self) == (Rgba { b, ..*old(self) }),
    {
        self.b = b;
    }

    /// Set the alpha value.
    pub fn set_alpha(&mut self, a: u8)
        ensures
            *final(self) == (Rgba { a, ..*old(self) }),
    {
        self.a = a;
    }

    /// Get the Red value.
    pub fn get_red(&self) -> (v: u8)
        ensures
            v == self.r,
    {
        self.r
    }

    /// Get the Green value.
    pub fn get_green(&self) -> (v: u8)
        ensures
            v == self.g,
    {
        self.g
    }

    /// Get the Blue value.
    pub fn get_blue(&self) -> (v: u8)
        ensures
            v == self.b,
    {
        self.b
    }

    /// Get the alpha value for this color.
    pub fn get_alpha(&self) -> (v: u8)
        ensures
            v == self.a,
    {
        self.a
    }
}

} // verus!
