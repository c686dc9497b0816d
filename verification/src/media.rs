//! One image of an album: what the listing says of it, and how it is
//! served at another width.
//!
//! Decoding, scaling and encoding are the work of the `image` crate. Every
//! decision around that work is made here: which files count as media, which
//! requests are refused, and which size is asked for.

use vstd::prelude::*;
use image::GenericImageView;
use crate::error::BadRequest;
use crate::error::Error;
use crate::path::base_name;
use crate::path::file_name;

verus! {

/// `image::DynamicImage`, a decoded image. A value is carried from one call
/// of the `image` crate to the next; nothing is known of it but what the
/// names below say.
#[verifier::external_type_specification]
#[verifier::external_body]
pub struct ExDynamicImage(image::DynamicImage);

/// `image::ImageError`, why guessing, decoding or encoding failed. Nothing
/// is read from it: a failure counts whatever its reason.
#[verifier::external_type_specification]
#[verifier::external_body]
pub struct ExImageError(image::ImageError);

/// `image::ImageFormat`, one of the formats that the `image` crate knows. A
/// value is handed from the guess to the decoder and not looked into.
#[verifier::external_type_specification]
#[verifier::external_body]
pub struct ExImageFormat(image::ImageFormat);

/// The format that `image::guess_format` finds for the first bytes of a
/// file, if it finds one. The guess goes by a fixed table of signatures.
pub uninterp spec fn guessed_format(bytes: Seq<u8>) -> Option<image::ImageFormat>;

/// Width and height of the image that `image::load_from_memory_with_format`
/// makes of an encoded file in a given format, if it makes one. Of that
/// image no more is named than its size: what its pixels are is left to the
/// decoder and the machine it runs on.
pub uninterp spec fn decoded_size(bytes: Seq<u8>, format: image::ImageFormat) -> Option<(u32, u32)>;

/// Width and height of an image in pixels, as its `dimensions` gives them.
pub uninterp spec fn pixel_dimensions(image: image::DynamicImage) -> (u32, u32);

/// The image that `DynamicImage::resize_exact` makes of an image at the
/// size `nwidth` by `nheight`, with the triangle filter.
pub uninterp spec fn resized(image: image::DynamicImage, nwidth: u32, nheight: u32) -> image::DynamicImage;

/// The bytes that `DynamicImage::write_to` writes for an image in the JPEG
/// format, if it can write them.
pub uninterp spec fn jpeg_encoded(image: image::DynamicImage) -> Option<Seq<u8>>;

/// The largest width and height that a JPEG file can state.
pub const MAX_SIDE: u32 = 65_535;

/// Whether the buffers for scaling to `width` by `height` pixels can be
/// addressed: up to four channels of four bytes for each pixel.
pub open spec fn can_hold(width: u32, height: u32) -> bool {
    16 * width * height <= isize::MAX
}

/// Guesses the format of an encoded image with `image::guess_format`, which
/// compares the first bytes with its table of signatures. The contract
/// claims only that the outcome depends on the bytes alone.
#[verifier::external_body]
fn guess(bytes: &[u8]) -> (outcome: Result<image::ImageFormat, image::ImageError>)
    ensures
        match outcome {
            Ok(format) => guessed_format(bytes@) == Some(format),
            Err(_) => guessed_format(bytes@) is None,
        },
{
    image::guess_format(bytes)
}

/// Decodes an encoded image of a given format with
/// `image::load_from_memory_with_format`, which goes by the decoders built
/// into the crate. The contract claims that whether the bytes decode, and
/// the size of the image they give, depend on the bytes and the format
/// alone. It claims nothing of the pixels.
#[verifier::external_body]
fn decode(bytes: &[u8], format: image::ImageFormat) -> (outcome: Result<
    image::DynamicImage,
    image::ImageError,
>)
    ensures
        match outcome {
            Ok(image) => decoded_size(bytes@, format) == Some(pixel_dimensions(image)),
            Err(_) => decoded_size(bytes@, format) is None,
        },
{
    image::load_from_memory_with_format(bytes, format)
}

/// Reads width and height with `GenericImageView::dimensions`.
#[verifier::external_body]
fn dimensions(image: &image::DynamicImage) -> (size: (u32, u32))
    ensures
        size == pixel_dimensions(*image),
{
    image.dimensions()
}

/// Scales an image with `DynamicImage::resize_exact` and the triangle
/// filter. The crate gives the result the size asked for, whatever the
/// proportions of the source; it panics where a buffer, one of the source's
/// width by the new height or one of the new size, is too large to address.
/// The contract leaves those sizes out, and sizes without pixels. It claims
/// that the result has the size asked for and depends on the arguments
/// alone.
#[verifier::external_body]
fn resize(image: &image::DynamicImage, nwidth: u32, nheight: u32) -> (scaled: image::DynamicImage)
    requires
        nwidth >= 1,
        nheight >= 1,
        can_hold(pixel_dimensions(*image).0, nheight),
        can_hold(nwidth, nheight),
    ensures
        scaled == resized(*image, nwidth, nheight),
        pixel_dimensions(scaled) == (nwidth, nheight),
{
    image.resize_exact(nwidth, nheight, image::imageops::FilterType::Triangle)
}

/// Encodes an image as JPEG with `DynamicImage::write_to`, into memory. The
/// contract claims only that the outcome depends on the image alone.
#[verifier::external_body]
fn encode_jpeg(image: &image::DynamicImage) -> (outcome: Result<Vec<u8>, image::ImageError>)
    ensures
        match outcome {
            Ok(bytes) => jpeg_encoded(*image) == Some(bytes@),
            Err(_) => jpeg_encoded(*image) is None,
        },
{
    let mut sink = std::io::Cursor::new(Vec::new());
    image.write_to(&mut sink, image::ImageFormat::Jpeg).map(|_| sink.into_inner())
}

/// What an album lists of one image.
#[derive(Debug, PartialEq, Eq)]
pub struct Media {
    /// The name of the file.
    pub name: String,
    /// Width and height in pixels, as decoded.
    pub dimensions: (u32, u32),
}

/// A `Media` as plain values.
#[verifier::ext_equal]
pub struct MediaView {
    pub name: Seq<char>,
    pub dimensions: (u32, u32),
}

impl View for Media {
    type V = MediaView;

    open spec fn view(&self) -> MediaView {
        MediaView { name: self.name@, dimensions: self.dimensions }
    }
}

/// The entry for an image of known size: it carries the final component of
/// the path as its name, and there is none where the path has no such
/// component.
pub open spec fn entry_for(path: Seq<char>, dimensions: (u32, u32)) -> Option<MediaView> {
    match base_name(path) {
        Some(name) => Some(MediaView { name, dimensions }),
        None => None,
    }
}

/// Width and height of the image in a file, if the file is an image: its
/// format is guessed from its first bytes, and its bytes have to decode in
/// that format.
pub open spec fn image_size(bytes: Seq<u8>) -> Option<(u32, u32)> {
    match guessed_format(bytes) {
        Some(format) => decoded_size(bytes, format),
        None => None,
    }
}

/// The entry for a file: that of the image its bytes decode to. A file that
/// is no image has none.
pub open spec fn described(path: Seq<char>, bytes: Seq<u8>) -> Option<MediaView> {
    match image_size(bytes) {
        Some(dimensions) => entry_for(path, dimensions),
        None => None,
    }
}

/// The height that goes with a width: the source's proportions, rounded
/// down to whole pixels.
pub open spec fn target_height(width: u32, source: (u32, u32)) -> int {
    width * source.1 / (source.0 as int)
}

/// The size to scale to for a requested width and a source of the given
/// size: the width, and the height that goes with it.
///
/// A source without width is no image. A width of zero is refused, and so
/// is a size without height, since neither has a pixel to serve. The size
/// is refused as well where a side exceeds what a JPEG file can state or
/// where the buffers for it cannot be addressed.
pub open spec fn planned(width: u32, source: (u32, u32)) -> Result<(u32, u32), Error> {
    if source.0 == 0 {
        Err(Error::Undecodable)
    } else if width == 0 || target_height(width, source) == 0 {
        Err(Error::BadRequest(BadRequest::BadSize))
    } else if width > MAX_SIDE || target_height(width, source) > MAX_SIDE {
        Err(Error::BadRequest(BadRequest::BadSize))
    } else if !can_hold(source.0, target_height(width, source) as u32) || !can_hold(
        width,
        target_height(width, source) as u32,
    ) {
        Err(Error::BadRequest(BadRequest::BadSize))
    } else {
        Ok((width, target_height(width, source) as u32))
    }
}

/// What serving a decoded image at a width comes to: the JPEG encoding of
/// the image scaled to the planned size. A refusal of the plan is reported
/// as the plan gives it, a failure to encode as an internal error.
pub open spec fn served_from(image: image::DynamicImage, width: u32) -> Result<Seq<u8>, Error> {
    match planned(width, pixel_dimensions(image)) {
        Err(error) => Err(error),
        Ok(size) => match jpeg_encoded(resized(image, size.0, size.1)) {
            Some(encoded) => Ok(encoded),
            None => Err(Error::Internal),
        },
    }
}

/// Whether the image that is scaled for a width has the planned size: the
/// width asked for and the height that goes with it.
pub open spec fn scaled_as_planned(image: image::DynamicImage, width: u32) -> bool {
    match planned(width, pixel_dimensions(image)) {
        Ok(size) => pixel_dimensions(resized(image, size.0, size.1)) == size,
        Err(_) => false,
    }
}

/// The bytes of an outcome, in place of the vector that holds them.
pub open spec fn outcome_view(outcome: Result<Vec<u8>, Error>) -> Result<Seq<u8>, Error> {
    match outcome {
        Ok(encoded) => Ok(encoded@),
        Err(error) => Err(error),
    }
}

impl Media {
    /// Makes the entry for an image of known size, named by the final
    /// component of its path.
    pub fn new(path: &str, dimensions: (u32, u32)) -> (media: Option<Media>)
        ensures
            match media {
                Some(entry) => entry_for(path@, dimensions) == Some(entry@),
                None => entry_for(path@, dimensions) is None,
            },
    {
        match file_name(path) {
            Some(name) => Some(Media { name, dimensions }),
            None => None,
        }
    }
}

/// Describes the file at `path`, whose content is `bytes`, if it is an
/// image. That a file is no image is no error: most files are none.
pub fn path_to_media(path: &str, bytes: &[u8]) -> (media: Option<Media>)
    ensures
        match media {
            Some(entry) => described(path@, bytes@) == Some(entry@),
            None => described(path@, bytes@) is None,
        },
{
    let format = match guess(bytes) {
        Ok(format) => format,
        Err(_) => {
            return None;
        },
    };
    match decode(bytes, format) {
        Ok(image) => Media::new(path, dimensions(&image)),
        Err(_) => None,
    }
}

/// Tells whether the buffers for scaling to a size can be addressed.
fn holds(width: u32, height: u32) -> (fits: bool)
    ensures
        fits == can_hold(width, height),
{
    let w: u128 = width as u128;
    let h: u128 = height as u128;
    assert(w * h <= 0xffff_ffff * 0xffff_ffff) by (nonlinear_arith)
        requires
            w <= 0xffff_ffff,
            h <= 0xffff_ffff,
    ;
    assert(16 * w * h == 16 * (w * h)) by (nonlinear_arith);
    let cells: u128 = 16 * (w * h);
    cells <= isize::MAX as u128
}

/// Plans the size to scale to for a requested width and a source of the
/// given size.
pub fn plan_resize(width: u32, source: (u32, u32)) -> (plan: Result<(u32, u32), Error>)
    ensures
        plan == planned(width, source),
{
    if source.0 == 0 {
        return Err(Error::Undecodable);
    }
    assert(width * source.1 <= 0xffff_ffff * 0xffff_ffff) by (nonlinear_arith)
        requires
            width <= 0xffff_ffff,
            source.1 <= 0xffff_ffff,
    ;
    let height: u64 = (width as u64 * source.1 as u64) / (source.0 as u64);
    if width == 0 || height == 0 {
        return Err(Error::BadRequest(BadRequest::BadSize));
    }
    if width > MAX_SIDE || height > MAX_SIDE as u64 {
        return Err(Error::BadRequest(BadRequest::BadSize));
    }
    let height: u32 = height as u32;
    if !holds(source.0, height) || !holds(width, height) {
        return Err(Error::BadRequest(BadRequest::BadSize));
    }
    Ok((width, height))
}

/// Serves a decoded image at another width, as a JPEG file. The image that
/// is encoded has the planned size: the width asked for and the height that
/// goes with it.
pub fn resize_image(image: &image::DynamicImage, width: u32) -> (outcome: Result<Vec<u8>, Error>)
    ensures
        outcome_view(outcome) == served_from(*image, width),
        outcome is Ok ==> scaled_as_planned(*image, width),
{
    let size = match plan_resize(width, dimensions(image)) {
        Ok(size) => size,
        Err(error) => {
            return Err(error);
        },
    };
    let scaled = resize(image, size.0, size.1);
    match encode_jpeg(&scaled) {
        Ok(encoded) => Ok(encoded),
        Err(_) => Err(Error::Internal),
    }
}

/// Serves the image in `bytes` at another width, as a JPEG file.
///
/// A file that is no image is reported as undecodable, whatever the width.
/// Of an image the size alone decides whether the width is refused, and
/// with which error. What is served of it is what `resize_image` makes of
/// the decoded image, which has the size that the file states.
pub fn resize_media(bytes: &[u8], width: u32) -> (outcome: Result<Vec<u8>, Error>)
    ensures
        image_size(bytes@) is None ==> outcome == Err::<Vec<u8>, Error>(Error::Undecodable),
        image_size(bytes@) matches Some(size) ==> {
            &&& planned(width, size) is Err ==> outcome_view(outcome) == Err::<Seq<u8>, Error>(
                planned(width, size)->Err_0,
            )
            &&& planned(width, size) is Ok ==> outcome is Ok || outcome == Err::<Vec<u8>, Error>(
                Error::Internal,
            )
            &&& exists|image: image::DynamicImage|
                {
                    &&& #[trigger] pixel_dimensions(image) == size
                    &&& outcome_view(outcome) == served_from(image, width)
                    &&& outcome is Ok ==> scaled_as_planned(image, width)
                }
        },
{
    let format = match guess(bytes) {
        Ok(format) => format,
        Err(_) => {
            return Err(Error::Undecodable);
        },
    };
    let image = match decode(bytes, format) {
        Ok(image) => image,
        Err(_) => {
            return Err(Error::Undecodable);
        },
    };
    let outcome = resize_image(&image, width);
    assert(pixel_dimensions(image) == image_size(bytes@)->0);
    outcome
}

/// A width of zero and a source without width are never scaled: the one
/// is a bad size, the other no image. What is no image is reported as such
/// before the width is looked at.
pub proof fn lemma_zero_width_fails(image: image::DynamicImage, width: u32, source: (u32, u32))
    ensures
        planned(width, (0, source.1)) == Err::<(u32, u32), Error>(Error::Undecodable),
        source.0 > 0 ==> planned(0, source) == Err::<(u32, u32), Error>(
            Error::BadRequest(BadRequest::BadSize),
        ),
        served_from(image, 0) is Err,
        pixel_dimensions(image).0 == 0 ==> served_from(image, width) == Err::<Seq<u8>, Error>(
            Error::Undecodable,
        ),
{
}

/// The height that goes with a width keeps the proportions of the source
/// exactly wherever they allow it: a square stays a square, and a source
/// asked for at its own width keeps its height.
pub proof fn lemma_proportions_kept(width: u32, source: (u32, u32))
    requires
        source.0 > 0,
    ensures
        source.0 == source.1 ==> target_height(width, source) == width,
        width == source.0 ==> target_height(width, source) == source.1,
        target_height(width, source) * source.0 <= width * source.1 < (target_height(width, source)
            + 1) * source.0,
{
    let w = width as int;
    let sw = source.0 as int;
    let sh = source.1 as int;
    vstd::arithmetic::div_mod::lemma_fundamental_div_mod(w * sh, sw);
    vstd::arithmetic::div_mod::lemma_mod_bound(w * sh, sw);
    if sw == sh {
        assert(w * sh == sw * w) by (nonlinear_arith)
            requires
                sw == sh,
        ;
        vstd::arithmetic::div_mod::lemma_div_multiples_vanish(w, sw);
    }
    if w == sw {
        assert(w * sh == sw * sh) by (nonlinear_arith)
            requires
                w == sw,
        ;
        vstd::arithmetic::div_mod::lemma_div_multiples_vanish(sh, sw);
    }
    assert(sw * (w * sh / sw) == (w * sh / sw) * sw) by (nonlinear_arith);
    assert(((w * sh / sw) + 1) * sw == (w * sh / sw) * sw + sw) by (nonlinear_arith);
}

} // verus!
