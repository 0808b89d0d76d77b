use vstd::prelude::*;
use vstd::string::StringExecFns;

use image::imageops::FilterType;
use image::DynamicImage;
use image::ImageError;

use crate::types::DecodedImage;
use crate::types::ReaderError;
use crate::types::ReaderResult;

verus! {

#[verifier::external_type_specification]
#[verifier::external_body]
pub struct ExDynamicImage(image::DynamicImage);

#[verifier::external_type_specification]
#[verifier::external_body]
pub struct ExImageError(image::ImageError);

/// `image::load_from_memory`: guesses the format of `bytes` and decodes them. Nothing is
/// claimed: whether it succeeds also depends on the format-detection and decoding hooks that
/// any code in the process may register, and the decoded image is opaque here.
#[verifier::external_body]
fn load_image(bytes: &[u8]) -> (r: Result<DynamicImage, ImageError>) {
    image::load_from_memory(bytes)
}

/// `DynamicImage::to_rgba8`, taken apart by `ImageBuffer::dimensions` and
/// `ImageBuffer::into_raw`: the image's width, height and RGBA bytes. Claimed, as the
/// source of `ImageBuffer` shows (each of its constructors checks it): the buffer holds at
/// least four bytes for each pixel, and that count fits in `usize`. Not claimed: that it
/// holds exactly that many (an image made by `ImageBuffer::from_raw` from a longer buffer
/// keeps it), nor the pixel values.
#[verifier::external_body]
fn rgba_parts(image: &DynamicImage) -> (r: (u32, u32, Vec<u8>))
    ensures
        pixels_fit(r.0, r.1, r.2@.len()),
{
    let rgba = image.to_rgba8();
    let (width, height) = rgba.dimensions();
    (width, height, rgba.into_raw())
}

/// The sampling filters of `image::imageops::FilterType`.
#[derive(Debug, Clone, Copy, PartialEq, Eq, Structural)]
pub enum ThumbnailFilter {
    Nearest,
    Triangle,
    CatmullRom,
    Gaussian,
    Lanczos3,
}

/// `a` and `b` differ by at most `tolerance`.
pub open spec fn within(a: int, b: int, tolerance: int) -> bool {
    a <= b + tolerance && b <= a + tolerance
}

/// The size `w` x `h` that `DynamicImage::resize(edge, edge, _)` gives an image of
/// `sw` x `sh` pixels, for `edge >= 1`: the longer side becomes `edge` and the other keeps
/// the aspect ratio to within one pixel, and is at least one pixel; a side of no pixels
/// becomes one pixel.
pub open spec fn resized_size(sw: u32, sh: u32, edge: u32, w: u32, h: u32) -> bool {
    if sw == 0 && sh == 0 {
        w == 1 && h == 1
    } else if sw == 0 {
        w == 1 && h == edge
    } else if sh == 0 {
        w == edge && h == 1
    } else if sw >= sh {
        w == edge && 1 <= h <= edge && within(h * sw, sh * edge, sw as int)
    } else {
        h == edge && 1 <= w <= edge && within(w * sh, sw * edge, sh as int)
    }
}

/// `DynamicImage::resize(edge, edge, _)` with the `FilterType` that `filter` names, taken
/// apart by `to_rgba8`, `dimensions` and `into_raw`, together with the source's width and
/// height. Claimed, as `resize` and `resize_dimensions` (src/math/utils.rs) show: for
/// `edge >= 1` the size is `resized_size` of the source's (`resize_dimensions` computes the
/// ratio in `f64`; its rounding error is far below half a pixel for `u32` sizes); and the
/// buffer holds at least four bytes for each pixel. The pixel values are not claimed.
#[verifier::external_body]
fn resize_rgba(image: &DynamicImage, edge: u32, filter: ThumbnailFilter) -> (r: (u32, u32, u32, u32, Vec<u8>))
    ensures
        edge >= 1 ==> resized_size(r.0, r.1, edge, r.2, r.3),
        pixels_fit(r.2, r.3, r.4@.len()),
{
    let filter = match filter {
        ThumbnailFilter::Nearest => FilterType::Nearest,
        ThumbnailFilter::Triangle => FilterType::Triangle,
        ThumbnailFilter::CatmullRom => FilterType::CatmullRom,
        ThumbnailFilter::Gaussian => FilterType::Gaussian,
        ThumbnailFilter::Lanczos3 => FilterType::Lanczos3,
    };
    let scaled = image.resize(edge, edge, filter).to_rgba8();
    let (width, height) = scaled.dimensions();
    (image.width(), image.height(), width, height, scaled.into_raw())
}

/// A thumbnail of `w` x `h` pixels fits `edge`: for `edge >= 1` it is the size that
/// `resize` gives some source.
pub open spec fn fits_thumbnail(edge: u32, w: u32, h: u32) -> bool {
    edge >= 1 ==> exists|sw: u32, sh: u32| resized_size(sw, sh, edge, w, h)
}

/// The buffer of a `width` x `height` RGBA image holds exactly four bytes for each pixel.
pub open spec fn exact_pixels(width: u32, height: u32, len: nat) -> bool {
    len == 4 * width * height
}

/// A `width` x `height` RGBA image fits in a buffer of `len` bytes: `4 * width * height`
/// fits in `usize` and the buffer holds at least that many bytes.
pub open spec fn pixels_fit(width: u32, height: u32, len: nat) -> bool {
    &&& 4 * width <= usize::MAX
    &&& 4 * width * height <= usize::MAX
    &&& 4 * width * height <= len
}

/// `ImageBuffer::from_raw` for the RGBA bytes of a `width` x `height` image, then
/// `DynamicImage::resize(edge, edge, _)` with the `FilterType` that `filter` names, taken
/// apart by `to_rgba8`, `dimensions` and `into_raw`. Claimed, as the source shows:
/// `from_raw` gives an image exactly when the pixels fit in the buffer (`check_image_fits`
/// is `pixels_fit`); for `edge >= 1` the scaled size is `resized_size` of `width` x
/// `height` (see `resize_rgba`); and the result's buffer holds at least four bytes for
/// each pixel. The pixel values are not claimed.
#[verifier::external_body]
fn resize_pixels(width: u32, height: u32, rgba: Vec<u8>, edge: u32, filter: ThumbnailFilter) -> (r: Option<(u32, u32, Vec<u8>)>)
    ensures
        r is Some <==> pixels_fit(width, height, rgba@.len()),
        r matches Some(t) ==> (edge >= 1 ==> resized_size(width, height, edge, t.0, t.1)) && pixels_fit(t.0, t.1, t.2@.len()),
{
    let filter = match filter {
        ThumbnailFilter::Nearest => FilterType::Nearest,
        ThumbnailFilter::Triangle => FilterType::Triangle,
        ThumbnailFilter::CatmullRom => FilterType::CatmullRom,
        ThumbnailFilter::Gaussian => FilterType::Gaussian,
        ThumbnailFilter::Lanczos3 => FilterType::Lanczos3,
    };
    let source = image::RgbaImage::from_raw(width, height, rgba)?;
    let scaled = DynamicImage::ImageRgba8(source).resize(edge, edge, filter).to_rgba8();
    let (w, h) = scaled.dimensions();
    Some((w, h, scaled.into_raw()))
}

/// `ImageError`'s `Display` text. Nothing is claimed of it.
#[verifier::external_body]
fn image_error_text(error: &ImageError) -> (r: String) {
    error.to_string()
}

/// An error of the decoder whose text is `prefix` followed by some detail.
pub open spec fn is_decode_error(e: ReaderError, prefix: Seq<char>) -> bool {
    e matches ReaderError::Decode(m) && m@.len() >= prefix.len() && m@.take(prefix.len() as int) == prefix
}

/// What turns a page's bytes into pixels. Implementations are the reader's users' own.
pub trait ImageDecoder: Send + Sync {
    /// The page's pixels.
    fn decode(&self, bytes: &[u8]) -> ReaderResult<DecodedImage>;

    /// The page's pixels scaled to fit within `max_edge` on each side.
    fn thumbnail(&self, bytes: &[u8], max_edge: u32) -> ReaderResult<DecodedImage>;

    /// The decoded page scaled to fit within `max_edge` on each side.
    fn thumbnail_from_decoded(&self, image: &DecodedImage, max_edge: u32) -> ReaderResult<DecodedImage>;
}

/// A decoder built on the `image` crate; thumbnails use a linear filter.
pub struct ImageCrateDecoder {
    thumbnail_filter: ThumbnailFilter,
}

impl ImageCrateDecoder {
    /// The filter that thumbnails are scaled with.
    pub closed spec fn filter(&self) -> ThumbnailFilter {
        self.thumbnail_filter
    }

    /// A decoder whose thumbnails use a linear filter.
    pub fn new() -> (r: Self)
        ensures
            r.filter() == ThumbnailFilter::Triangle,
    {
        ImageCrateDecoder { thumbnail_filter: ThumbnailFilter::Triangle }
    }

    /// The image that `bytes` hold; an error when they do not decode.
    fn decode_dynamic(&self, bytes: &[u8]) -> (r: ReaderResult<DynamicImage>)
        ensures
            r matches Err(e) ==> is_decode_error(e, "image decode failed: "@),
    {
        Self::from_load(load_image(bytes))
    }

    /// What the decoder makes of `image::load_from_memory`'s result: the image it loaded,
    /// or, when loading failed, a decode error whose text starts "image decode failed: ".
    pub fn from_load(loaded: Result<DynamicImage, ImageError>) -> (r: ReaderResult<DynamicImage>)
        ensures
            loaded is Ok <==> r is Ok,
            loaded matches Ok(image) ==> r == Ok::<DynamicImage, ReaderError>(image),
            r matches Err(e) ==> is_decode_error(e, "image decode failed: "@),
    {
        match loaded {
            Ok(image) => Ok(image),
            Err(error) => {
                let detail = image_error_text(&error);
                let mut text = String::from_str("image decode failed: ");
                text.append(detail.as_str());
                assert(text@.take("image decode failed: "@.len() as int) =~= "image decode failed: "@);
                Err(ReaderError::Decode(text))
            },
        }
    }

    /// The `width` x `height` image whose pixels are the first `4 * width * height` bytes of
    /// `rgba` (all of them, for the buffers that `to_rgba8` makes).
    fn exact_image(width: u32, height: u32, rgba: Vec<u8>) -> (r: DecodedImage)
        requires
            pixels_fit(width, height, rgba@.len()),
        ensures
            r.width == width,
            r.height == height,
            r.rgba@ == rgba@.take(4 * width * height),
            exact_pixels(r.width, r.height, r.rgba@.len()),
    {
        let mut rgba = rgba;
        let len: usize = 4 * (width as usize) * (height as usize);
        rgba.truncate(len);
        DecodedImage { width, height, rgba }
    }

    /// The RGBA pixels of `image`.
    fn pixels(image: &DynamicImage) -> (r: DecodedImage)
        ensures
            exact_pixels(r.width, r.height, r.rgba@.len()),
    {
        let (width, height, rgba) = rgba_parts(image);
        Self::exact_image(width, height, rgba)
    }

    /// `image` scaled with the thumbnail filter to fit within `max_edge` on each side.
    fn scaled(&self, image: &DynamicImage, max_edge: u32) -> (r: DecodedImage)
        ensures
            exact_pixels(r.width, r.height, r.rgba@.len()),
            fits_thumbnail(max_edge, r.width, r.height),
    {
        let (source_width, source_height, width, height, rgba) = resize_rgba(image, max_edge, self.thumbnail_filter);
        assert(max_edge >= 1 ==> resized_size(source_width, source_height, max_edge, width, height));
        Self::exact_image(width, height, rgba)
    }
}

impl ImageDecoder for ImageCrateDecoder {
    /// Decodes the page's bytes (in any format the `image` crate recognizes) into RGBA
    /// pixels; an undecodable page gives a decode error.
    fn decode(&self, bytes: &[u8]) -> (r: ReaderResult<DecodedImage>)
        ensures
            r matches Err(e) ==> is_decode_error(e, "image decode failed: "@),
            r matches Ok(img) ==> exact_pixels(img.width, img.height, img.rgba@.len()),
    {
        let image = self.decode_dynamic(bytes)?;
        Ok(Self::pixels(&image))
    }

    /// Decodes the page's bytes and scales the image to fit within `max_edge` on each side,
    /// keeping its aspect ratio: its longer side becomes `max_edge`.
    fn thumbnail(&self, bytes: &[u8], max_edge: u32) -> (r: ReaderResult<DecodedImage>)
        ensures
            r matches Err(e) ==> is_decode_error(e, "image decode failed: "@),
            r matches Ok(img) ==> exact_pixels(img.width, img.height, img.rgba@.len())
                && fits_thumbnail(max_edge, img.width, img.height),
    {
        let image = self.decode_dynamic(bytes)?;
        Ok(self.scaled(&image, max_edge))
    }

    /// Scales a decoded page to fit within `max_edge` on each side. A page whose pixels are
    /// fewer than its size calls for gives a decode error.
    fn thumbnail_from_decoded(&self, image: &DecodedImage, max_edge: u32) -> (r: ReaderResult<DecodedImage>)
        ensures
            r is Err <==> !pixels_fit(image.width, image.height, image.rgba@.len()),
            r matches Err(e) ==> is_decode_error(e, "decoded image does not match its size"@),
            r matches Ok(img) ==> exact_pixels(img.width, img.height, img.rgba@.len())
                && (max_edge >= 1 ==> resized_size(image.width, image.height, max_edge, img.width, img.height)),
    {
        match resize_pixels(image.width, image.height, image.rgba.clone(), max_edge, self.thumbnail_filter) {
            Some((width, height, rgba)) => Ok(Self::exact_image(width, height, rgba)),
            None => {
                let text = String::from_str("decoded image does not match its size");
                assert(text@.take("decoded image does not match its size"@.len() as int) =~= text@);
                Err(ReaderError::Decode(text))
            },
        }
    }
}

} // verus!
