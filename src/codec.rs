//! Building images from encoded bytes and base64 text, and turning an image
//! back into a PNG data URI. Decoding and encoding are done by the `image` and
//! `base64` crates; this module checks and frames what they produce.
use vstd::prelude::*;
use vstd::string::StringExecFns;
use crate::{PhotonError, PhotonImage};

verus! {

/// The bytes that base64 text in the standard alphabet encodes, or `None` when
/// the text is not valid base64.
pub uninterp spec fn base64_decoded(s: Seq<char>) -> Option<Seq<u8>>;

/// The width and height of the image file held in some bytes, or `None` when
/// they hold no image that can be decoded.
pub uninterp spec fn decoded_size(b: Seq<u8>) -> Option<(u32, u32)>;

/// The PNG file of an RGBA image given by its samples, width and height.
pub uninterp spec fn png_encoded(p: Seq<u8>, w: u32, h: u32) -> Seq<u8>;

/// Relies on `base64::decode`: decodes base64 in the standard alphabet, failing
/// on text that is not valid base64.
#[verifier::external_body]
fn decode_base64(s: &str) -> (r: Option<Vec<u8>>)
    ensures
        r is None <==> base64_decoded(s@) is None,
        r matches Some(v) ==> base64_decoded(s@) == Some(v@),
{
    match base64::decode(s) {
        Ok(v) => Some(v),
        Err(_) => None,
    }
}

/// The standard base64 alphabet: character `i` stands for the six bits `i`.
pub open spec fn base64_alphabet() -> Seq<char> {
    "ABCDEFGHIJKLMNOPQRSTUVWXYZabcdefghijklmnopqrstuvwxyz0123456789+/"@
}

/// Standard base64 with padding: each group of three bytes becomes four
/// characters of six bits each; a final group of one or two bytes is padded
/// with `=` to four characters.
pub open spec fn base64_encoded(b: Seq<u8>) -> Seq<char>
    decreases b.len(),
{
    let t = base64_alphabet();
    if b.len() == 0 {
        Seq::empty()
    } else if b.len() == 1 {
        let x = b[0] as int;
        seq![t[x / 4], t[(x % 4) * 16], '=', '=']
    } else if b.len() == 2 {
        let (x, y) = (b[0] as int, b[1] as int);
        seq![t[x / 4], t[(x % 4) * 16 + y / 16], t[(y % 16) * 4], '=']
    } else {
        let (x, y, z) = (b[0] as int, b[1] as int, b[2] as int);
        seq![t[x / 4], t[(x % 4) * 16 + y / 16], t[(y % 16) * 4 + z / 64], t[z % 64]] + base64_encoded(
            b.subrange(3, b.len() as int),
        )
    }
}

/// A character of the standard base64 alphabet, or the padding character.
pub open spec fn is_base64_char(c: char) -> bool {
    ('A' <= c && c <= 'Z') || ('a' <= c && c <= 'z') || ('0' <= c && c <= '9') || c == '+' || c
        == '/' || c == '='
}

/// Relies on `base64::encode`: standard alphabet with padding, each character
/// from that alphabet or `=`.
#[verifier::external_body]
fn encode_base64(b: &[u8]) -> (r: String)
    ensures
        r@ == base64_encoded(b@),
        forall|i: int| 0 <= i < r@.len() ==> is_base64_char(#[trigger] r@[i]),
{
    base64::encode(b)
}

/// Relies on `image::load_from_memory` (format guessed from the leading bytes)
/// followed by `DynamicImage::to_rgba8`, whose buffer holds four samples for
/// each of `width * height` pixels. Whether the bytes decode, and to what size,
/// depends on the bytes alone; the samples themselves may differ between
/// machines (the JPEG decoder picks its arithmetic by CPU), so nothing more is
/// said of them.
#[verifier::external_body]
fn decode_rgba(b: &[u8]) -> (r: Option<(Vec<u8>, u32, u32)>)
    ensures
        r is None <==> decoded_size(b@) is None,
        r matches Some((p, w, h)) ==> decoded_size(b@) == Some((w, h)) && p@.len() == w * h * 4,
{
    match image::load_from_memory(b) {
        Ok(img) => {
            let rgba = img.to_rgba8();
            let (w, h) = rgba.dimensions();
            Some((rgba.into_raw(), w, h))
        },
        Err(_) => None,
    }
}

/// Relies on `image::RgbaImage::from_raw` and `DynamicImage::write_to` with
/// `ImageOutputFormat::Png`: the PNG file of the image, or `None` when the
/// encoder reports an error. `from_raw` accepts a buffer of at least
/// `w * h * 4` samples, and the PNG writer refuses only a zero width or height;
/// writing into a `Vec` does not fail.
#[verifier::external_body]
fn encode_png(p: &Vec<u8>, w: u32, h: u32) -> (r: Option<Vec<u8>>)
    ensures
        r matches Some(v) ==> v@ == png_encoded(p@, w, h),
        w > 0 && h > 0 && p@.len() == w * h * 4 ==> r is Some,
{
    let buf = match image::RgbaImage::from_raw(w, h, p.clone()) {
        Some(buf) => buf,
        None => return None,
    };
    let mut out: Vec<u8> = Vec::new();
    let mut cursor = std::io::Cursor::new(&mut out);
    match image::DynamicImage::ImageRgba8(buf).write_to(&mut cursor, image::ImageOutputFormat::Png) {
        Ok(_) => Some(out),
        Err(_) => None,
    }
}

/// What building an image from a file of the decoded size `d` gives:
/// `MalformedInput` when the bytes hold no image, or an image without pixels;
/// otherwise a well-formed image of that size.
pub open spec fn image_from_decoded(d: Option<(u32, u32)>, r: Result<PhotonImage, PhotonError>) -> bool {
    match d {
        None => r == Err::<PhotonImage, PhotonError>(PhotonError::MalformedInput),
        Some((w, h)) => if w == 0 || h == 0 {
            r == Err::<PhotonImage, PhotonError>(PhotonError::MalformedInput)
        } else {
            r matches Ok(img) && img.wf() && img.w() == w && img.h() == h
        },
    }
}

/// The prefix of a PNG data URI.
pub open spec fn png_data_uri_prefix() -> Seq<char> {
    "data:image/png;base64,"@
}

/// Convert a base64 string to a Vec of u8s.
pub fn base64_to_vec(base64: &str) -> (r: Result<Vec<u8>, PhotonError>)
    ensures
        base64_decoded(base64@) is None ==> r == Err::<Vec<u8>, PhotonError>(PhotonError::MalformedInput),
        base64_decoded(base64@) matches Some(b) ==> r matches Ok(v) && v@ == b,
{
    match decode_base64(base64) {
        Some(v) => Ok(v),
        None => Err(PhotonError::MalformedInput),
    }
}

/// Convert a base64 string to a PhotonImage.
pub fn base64_to_image(base64: &str) -> (r: Result<PhotonImage, PhotonError>)
    ensures
        base64_decoded(base64@) is None ==> r == Err::<PhotonImage, PhotonError>(PhotonError::MalformedInput),
        base64_decoded(base64@) matches Some(b) ==> image_from_decoded(decoded_size(b), r),
{
    let bytes = base64_to_vec(base64)?;
    PhotonImage::new_from_byteslice(bytes)
}

impl PhotonImage {
    /// Create a new PhotonImage from a base64 string.
    pub fn new_from_base64(base64: &str) -> (r: Result<PhotonImage, PhotonError>)
        ensures
            base64_decoded(base64@) is None ==> r == Err::<PhotonImage, PhotonError>(PhotonError::MalformedInput),
            base64_decoded(base64@) matches Some(b) ==> image_from_decoded(decoded_size(b), r),
    {
        base64_to_image(base64)
    }

    /// Create a new PhotonImage from the bytes of an image file.
    pub fn new_from_byteslice(vec: Vec<u8>) -> (r: Result<PhotonImage, PhotonError>)
        ensures
            image_from_decoded(decoded_size(vec@), r),
    {
        match decode_rgba(vec.as_slice()) {
            None => Err(PhotonError::MalformedInput),
            Some((raw_pixels, width, height)) => PhotonImage::from_rgba(raw_pixels, width, height),
        }
    }

    /// Convert the PhotonImage to a PNG data URI, `data:image/png;base64,...`.
    pub fn get_base64(&self) -> (s: String)
        requires
            self.wf(),
        ensures
            s@ == png_data_uri_prefix() + base64_encoded(
                png_encoded(self.pixels(), self.w() as u32, self.h() as u32),
            ),
            forall|i: int| png_data_uri_prefix().len() <= i < s@.len() ==> is_base64_char(#[trigger] s@[i]),
    {
        let png = match encode_png(self.samples(), self.get_width(), self.get_height()) {
            Some(png) => png,
            None => {
                // A well-formed image always encodes.
                assert(false);
                return String::new();
            },
        };
        // The standard alphabet holds no line breaks, so the text is used as it is.
        let text = encode_base64(png.as_slice());
        let uri = String::from_str("data:image/png;base64,").concat(text.as_str());
        assert forall|i: int| png_data_uri_prefix().len() <= i < uri@.len() implies is_base64_char(
            #[trigger] uri@[i],
        ) by {
            assert(uri@[i] == text@[i - png_data_uri_prefix().len()]);
        }
        uri
    }
}

} // verus!
