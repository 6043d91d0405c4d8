//! Small pictures of image files.
use crate::paths::{extension, extension_of};
use vstd::prelude::*;

verus! {

/// The format of an image file.
#[verifier::external_type_specification]
#[verifier::external_body]
pub struct ExImageFormat(image::ImageFormat);

/// A decoded image.
#[verifier::external_type_specification]
#[verifier::external_body]
pub struct ExDynamicImage(image::DynamicImage);

/// The longest side of a small picture.
pub const SIDE: u32 = 120;

/// The format that `image::ImageFormat::from_extension` finds for an extension.
pub uninterp spec fn format_of_extension(ext: Seq<char>) -> Option<image::ImageFormat>;

/// Whether `decoded` is an outcome that `image::load_from_memory_with_format` may have for
/// `data` in the given format: an image, or none.
pub uninterp spec fn may_decode_to(
    data: Seq<u8>,
    format: image::ImageFormat,
    decoded: Option<image::DynamicImage>,
) -> bool;

/// The width of an image, as `image::DynamicImage::width` tells it.
pub uninterp spec fn width_of(img: image::DynamicImage) -> u32;

/// The height of an image, as `image::DynamicImage::height` tells it.
pub uninterp spec fn height_of(img: image::DynamicImage) -> u32;

/// The bytes of each pixel of an image, as `image::ColorType::bytes_per_pixel` tells them.
pub uninterp spec fn pixel_bytes_of(img: image::DynamicImage) -> u8;

/// The channels of each pixel of an image, as `image::ColorType::channel_count` tells them.
pub uninterp spec fn channels_of(img: image::DynamicImage) -> u8;

/// What `image::DynamicImage::thumbnail` makes of an image for the given bounds.
pub uninterp spec fn scaled_to_fit(
    img: image::DynamicImage,
    width: u32,
    height: u32,
) -> image::DynamicImage;

/// The bytes that `image::DynamicImage::to_rgba8` makes of an image, row by row.
pub uninterp spec fn rgba_of(img: image::DynamicImage) -> Seq<u8>;

/// `image::ImageFormat::from_extension`: the format that goes with an extension, or none.
#[verifier::external_body]
fn find_format(ext: &str) -> (r: Option<image::ImageFormat>)
    ensures
        r == format_of_extension(ext@),
{
    image::ImageFormat::from_extension(ext)
}

/// `image::load_from_memory_with_format`: the image that `data` holds in the given format, or
/// none where it holds no such image or there is no memory to decode it. What comes back is an
/// outcome that this data may have in this format. Which one is left open: whether the memory is
/// there depends on the machine, and decoders may use its vector instructions, so that what they
/// decode need not agree to the bit.
#[verifier::external_body]
fn decode(data: &[u8], format: image::ImageFormat) -> (r: Option<image::DynamicImage>)
    ensures
        may_decode_to(data@, format, r),
{
    image::load_from_memory_with_format(data, format).ok()
}

/// `image::DynamicImage::width`.
#[verifier::external_body]
fn image_width(img: &image::DynamicImage) -> (r: u32)
    ensures
        r == width_of(*img),
{
    img.width()
}

/// `image::DynamicImage::height`.
#[verifier::external_body]
fn image_height(img: &image::DynamicImage) -> (r: u32)
    ensures
        r == height_of(*img),
{
    img.height()
}

/// `image::DynamicImage::color` and `image::ColorType::bytes_per_pixel`.
#[verifier::external_body]
fn pixel_bytes(img: &image::DynamicImage) -> (r: u8)
    ensures
        r == pixel_bytes_of(*img),
{
    img.color().bytes_per_pixel()
}

/// `image::DynamicImage::color` and `image::ColorType::channel_count`.
#[verifier::external_body]
fn channels(img: &image::DynamicImage) -> (r: u8)
    ensures
        r == channels_of(*img),
{
    img.color().channel_count()
}

/// How many pixels of an image of that size become one at most, where it is scaled so that its
/// longer side is `SIDE`: the columns of the longer side times the rows of the shorter one, or the
/// other way round. The shorter side keeps its proportion, rounded, and one pixel at least. Where
/// a division is not even, one may get two columns or rows more, and one in a million more for the
/// rounding of the ratio.
pub open spec fn pixels_for_one(width: nat, height: nat) -> nat {
    let long = if width > height {
        width
    } else {
        height
    };
    let short = if width > height {
        height
    } else {
        width
    };
    if short == 0 {
        0
    } else {
        let rounded = (2 * SIDE as nat * short + long - 1) as nat / (2 * long);
        let kept = if rounded == 0 {
            1
        } else {
            rounded
        };
        let across = long / SIDE as nat + long / 1_000_000 + 2;
        let along = short / kept + short / 1_000_000 + 2;
        across * (if along < short {
            along
        } else {
            short
        })
    }
}

/// How many pixels can be added up: of one byte a channel as many as 32 bits hold the sum of, of
/// two bytes a channel fewer, and of more as many as can be counted in 32 bits.
pub open spec fn most_pixels(bytes: nat, channels: nat) -> nat {
    if bytes <= channels {
        0x100_0000
    } else if bytes <= 2 * channels {
        0x1_0000
    } else {
        0xffff_ffff
    }
}

/// `image::DynamicImage::thumbnail`: the image scaled so that it fits into the bounds, with at
/// least one pixel each way. It is a new image, with no more bytes than its pixels take. It
/// panics where these do not fit into memory, so the bounds are small; and, in a build that checks
/// for overflow, where the channels of the pixels that become one do not add up within 32 bits
/// (those of four bytes are added up as floating point, and only their number has to fit). So
/// there are no more of them than can be added up.
#[verifier::external_body]
fn scale_to_fit(img: &image::DynamicImage, width: u32, height: u32) -> (r: image::DynamicImage)
    requires
        width == SIDE,
        height == SIDE,
        can_shrink(*img),
    ensures
        r == scaled_to_fit(*img, width, height),
        1 <= width_of(r) <= width,
        1 <= height_of(r) <= height,
        rgba_of(r).len() == 4 * width_of(r) * height_of(r),
{
    img.thumbnail(width, height)
}

/// `image::DynamicImage::to_rgba8` and the buffer of what it returns: red, green, blue and alpha
/// of each pixel. It panics where these do not fit into memory, so the image is small.
#[verifier::external_body]
fn rgba_bytes(img: &image::DynamicImage) -> (r: Vec<u8>)
    requires
        width_of(*img) <= SIDE,
        height_of(*img) <= SIDE,
    ensures
        r@ == rgba_of(*img),
{
    img.to_rgba8().into_raw()
}

/// A small picture: four bytes for each pixel, row by row.
pub struct Thumbnail {
    pub width: u32,
    pub height: u32,
    pub rgba: Vec<u8>,
}

/// Whether a picture is the small picture of an image.
pub open spec fn shows(t: Thumbnail, img: image::DynamicImage) -> bool {
    let small = scaled_to_fit(img, SIDE, SIDE);
    &&& t.width == width_of(small)
    &&& t.height == height_of(small)
    &&& t.rgba@ == rgba_of(small)
}

/// Whether an image is made small: the pixels that become one can be added up.
pub open spec fn can_shrink(img: image::DynamicImage) -> bool {
    pixels_for_one(width_of(img) as nat, height_of(img) as nat) <= most_pixels(
        pixel_bytes_of(img) as nat,
        channels_of(img) as nat,
    )
}

/// Whether `r` is the small picture of an image, or none where too many pixels become one.
pub open spec fn shows_if_it_can(r: Option<Thumbnail>, img: image::DynamicImage) -> bool {
    if can_shrink(img) {
        r is Some && shows(r->0, img)
    } else {
        r is None
    }
}

/// Whether `r` is what becomes of the outcome of decoding: the small picture of the image, or
/// none where there is no image.
pub open spec fn shows_decoded(
    r: Option<Thumbnail>,
    decoded: Option<image::DynamicImage>,
) -> bool {
    match decoded {
        Some(img) => shows_if_it_can(r, img),
        None => r is None,
    }
}

/// The format of an image file, by the extension of its name.
pub open spec fn format_of_name(name: Seq<char>) -> Option<image::ImageFormat> {
    match extension_of(name) {
        Some(e) => format_of_extension(e),
        None => None,
    }
}

/// Whether a picture has the sides and the bytes of a small one.
pub open spec fn is_small(t: Thumbnail) -> bool {
    &&& 1 <= t.width <= SIDE
    &&& 1 <= t.height <= SIDE
    &&& t.rgba@.len() == 4 * t.width * t.height
}

/// How many pixels of an image of that size become one at most.
fn count_pixels_for_one(width: u32, height: u32) -> (r: u64)
    ensures
        r == pixels_for_one(width as nat, height as nat),
{
    let (long, short): (u64, u64) = if width > height {
        (width as u64, height as u64)
    } else {
        (height as u64, width as u64)
    };
    if short == 0 {
        return 0;
    }
    let rounded: u64 = (240 * short + long - 1) / (2 * long);
    let kept: u64 = if rounded == 0 {
        1
    } else {
        rounded
    };
    let across: u64 = long / 120 + long / 1_000_000 + 2;
    assert(short / kept <= short) by (nonlinear_arith)
        requires
            kept >= 1,
            short >= 0,
    ;
    let along: u64 = short / kept + short / 1_000_000 + 2;
    let rows: u64 = if along < short {
        along
    } else {
        short
    };
    assert(across * rows <= 40_000_000 * 0xffff_ffff) by (nonlinear_arith)
        requires
            across <= 40_000_000,
            rows <= 0xffff_ffff,
    ;
    across * rows
}

/// The small picture of a decoded image; none where too many of its pixels become one.
pub fn shrink(img: &image::DynamicImage) -> (r: Option<Thumbnail>)
    ensures
        shows_if_it_can(r, *img),
        r matches Some(t) ==> is_small(t),
{
    let bytes: u32 = pixel_bytes(img) as u32;
    let parts: u32 = channels(img) as u32;
    let most: u64 = if bytes <= parts {
        0x100_0000
    } else if bytes <= 2 * parts {
        0x1_0000
    } else {
        0xffff_ffff
    };
    if count_pixels_for_one(image_width(img), image_height(img)) > most {
        return None;
    }
    let small = scale_to_fit(img, SIDE, SIDE);
    let width: u32 = image_width(&small);
    let height: u32 = image_height(&small);
    let rgba = rgba_bytes(&small);
    Some(Thumbnail { width, height, rgba })
}

/// The small picture of the image file `name` that holds `data`: none where its name is not that
/// of an image; else what becomes of decoding the data in the format that goes with the name.
pub fn make_thumbnail(name: &str, data: &[u8]) -> (r: Option<Thumbnail>)
    ensures
        match format_of_name(name@) {
            Some(format) => exists|decoded: Option<image::DynamicImage>| #[trigger]
                may_decode_to(data@, format, decoded) && shows_decoded(r, decoded),
            None => r is None,
        },
        r matches Some(t) ==> is_small(t),
{
    let format = match extension(name) {
        Some(e) => find_format(e.as_str()),
        None => None,
    };
    match format {
        Some(format) => {
            let decoded = decode(data, format);
            match &decoded {
                Some(img) => shrink(img),
                None => None,
            }
        },
        None => None,
    }
}

/// The format of an image goes by what follows the last dot of its name; a name without an
/// extension has none.
pub proof fn the_format_goes_by_the_extension(stem: Seq<char>, ext: Seq<char>)
    requires
        forall|i: int| 0 <= i < ext.len() ==> #[trigger] ext[i] != '.',
    ensures
        stem.len() > 0 ==> format_of_name(stem + seq!['.'] + ext) == format_of_extension(ext),
        format_of_name(ext) is None,
        format_of_name(seq!['.'] + ext) is None,
{
    crate::paths::the_last_dot_splits_a_name(stem, ext);
}

/// An image of one byte a channel gets a picture at any size up to forty thousand pixels each way.
pub proof fn common_images_get_a_picture(img: image::DynamicImage)
    requires
        width_of(img) <= 40_000,
        height_of(img) <= 40_000,
        pixel_bytes_of(img) <= channels_of(img),
    ensures
        can_shrink(img),
{
    let (w, h) = (width_of(img) as nat, height_of(img) as nat);
    let long = if w > h {
        w
    } else {
        h
    };
    let short = if w > h {
        h
    } else {
        w
    };
    if short > 0 {
        let across = long / 120 + long / 1_000_000 + 2;
        assert(across <= 336);
        assert forall|rows: nat| rows <= 40_000 implies #[trigger] (across * rows) <= 0x100_0000 by {
            assert(across * rows <= 336 * 40_000) by (nonlinear_arith)
                requires
                    across <= 336,
                    rows <= 40_000,
            ;
        }
        let rounded = (240 * short + long - 1) as nat / (2 * long);
        let kept = if rounded == 0 {
            1
        } else {
            rounded
        };
        let along = short / kept + short / 1_000_000 + 2;
        let rows = if along < short {
            along
        } else {
            short
        };
        assert(pixels_for_one(w, h) == across * rows);
    }
}

/// A picture is the image made to fit into 120 pixels each way, in its own proportions; an image of
/// which too many pixels become one has none, and neither has what is no image.
pub proof fn a_picture_is_the_image_made_small(r: Option<Thumbnail>, img: image::DynamicImage)
    ensures
        shows_decoded(r, Some(img)) && can_shrink(img) ==> r is Some && (r->0).width == width_of(
            scaled_to_fit(img, 120, 120),
        ) && (r->0).height == height_of(scaled_to_fit(img, 120, 120)) && (r->0).rgba@ == rgba_of(
            scaled_to_fit(img, 120, 120),
        ),
        shows_decoded(r, Some(img)) && !can_shrink(img) ==> r is None,
        shows_decoded(r, None) ==> r is None,
        r is Some && is_small(r->0) ==> (r->0).width <= 120 && (r->0).height <= 120,
{
}

} // verus!
