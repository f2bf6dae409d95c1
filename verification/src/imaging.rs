//! The image pipeline: the EXIF orientation of a photo, turning it upright,
//! fitting it into the maximum dimensions, and encoding it again (which
//! leaves all metadata behind).
//!
//! Images are values of `image::DynamicImage`. What the pipeline needs to
//! know of one is its size and where its pixels are: [`image_size`] and
//! [`image_pixels`] name them, and the wrappers of the `image` crate's
//! operations state what the crate's source does to them.
use vstd::prelude::*;

use crate::paths;
use crate::paths::Platform;
use crate::text;
use crate::text::to_lowercase;

verus! {

#[verifier::external_type_specification]
#[verifier::external_body]
pub struct ExDynamicImage(image::DynamicImage);

#[verifier::external_type_specification]
#[verifier::external_body]
pub struct ExImageFormat(image::ImageFormat);

#[verifier::external_type_specification]
#[verifier::external_body]
pub struct ExImageError(image::ImageError);

#[verifier::external_type_specification]
#[verifier::external_body]
pub struct ExColorType(image::ColorType);

// ---------------------------------------------------------------------------
// What an image holds
// ---------------------------------------------------------------------------

/// The pixels of an image: the value of the pixel at column `x` and row
/// `y` (the bytes of its channel samples, as the image stores them), for
/// `x` below the width and `y` below the height.
pub uninterp spec fn image_pixels(img: image::DynamicImage) -> Map<(u32, u32), Seq<u8>>;

/// The colour type of an image (its `DynamicImage` variant), as
/// `DynamicImage::color` reports it.
pub uninterp spec fn image_color(img: image::DynamicImage) -> image::ColorType;

/// The width and height of an image.
pub uninterp spec fn image_size(img: image::DynamicImage) -> (u32, u32);

/// The size that `DynamicImage::resize` gives an image of `width` x
/// `height` pixels to fit it into `max_width` x `max_height`, keeping the
/// aspect ratio (the crate computes it in floating point).
pub uninterp spec fn fitted_size(width: u32, height: u32, max_width: u32, max_height: u32) -> (
    u32,
    u32,
);

/// Calls `DynamicImage::width` and `DynamicImage::height`. Claimed: they give
/// [`image_size`].
#[verifier::external_body]
pub(crate) fn dimensions(img: &image::DynamicImage) -> (r: (u32, u32))
    ensures
        r == image_size(*img),
{
    (img.width(), img.height())
}

/// Calls `DynamicImage::fliph`. Claimed, as `imageops::flip_horizontal`
/// does it: the colour type and the size stay, and the pixel at `(x, y)` comes from
/// `(w - 1 - x, y)`.
#[verifier::external_body]
fn flip_horizontal(img: &image::DynamicImage) -> (r: image::DynamicImage)
    ensures
        image_color(r) == image_color(*img),
        image_size(r) == image_size(*img),
        forall|x: u32, y: u32|
            x < image_size(*img).0 && y < image_size(*img).1 ==> #[trigger] image_pixels(r)[(
                x,
                y,
            )] == image_pixels(*img)[((image_size(*img).0 - 1 - x) as u32, y)],
{
    img.fliph()
}

/// Calls `DynamicImage::flipv`. Claimed, as `imageops::flip_vertical` does
/// it: the colour type and the size stay, and the pixel at `(x, y)` comes
/// from `(x, h - 1 - y)`.
#[verifier::external_body]
fn flip_vertical(img: &image::DynamicImage) -> (r: image::DynamicImage)
    ensures
        image_color(r) == image_color(*img),
        image_size(r) == image_size(*img),
        forall|x: u32, y: u32|
            x < image_size(*img).0 && y < image_size(*img).1 ==> #[trigger] image_pixels(r)[(
                x,
                y,
            )] == image_pixels(*img)[(x, (image_size(*img).1 - 1 - y) as u32)],
{
    img.flipv()
}

/// Calls `DynamicImage::rotate90` (clockwise). Claimed, as `imageops::rotate90`
/// does it: the colour type stays, width and height swap, and the pixel at
/// `(x, y)` comes from `(y, h - 1 - x)`.
#[verifier::external_body]
fn rotate90(img: &image::DynamicImage) -> (r: image::DynamicImage)
    ensures
        image_color(r) == image_color(*img),
        image_size(r) == (image_size(*img).1, image_size(*img).0),
        forall|x: u32, y: u32|
            x < image_size(*img).1 && y < image_size(*img).0 ==> #[trigger] image_pixels(r)[(
                x,
                y,
            )] == image_pixels(*img)[(y, (image_size(*img).1 - 1 - x) as u32)],
{
    img.rotate90()
}

/// Calls `DynamicImage::rotate180`. Claimed, as `imageops::rotate180` does it:
/// the colour type and the size stay, and the pixel at `(x, y)` comes from
/// `(w - 1 - x, h - 1 - y)`.
#[verifier::external_body]
fn rotate180(img: &image::DynamicImage) -> (r: image::DynamicImage)
    ensures
        image_color(r) == image_color(*img),
        image_size(r) == image_size(*img),
        forall|x: u32, y: u32|
            x < image_size(*img).0 && y < image_size(*img).1 ==> #[trigger] image_pixels(r)[(
                x,
                y,
            )] == image_pixels(*img)[(
                (image_size(*img).0 - 1 - x) as u32,
                (image_size(*img).1 - 1 - y) as u32,
            )],
{
    img.rotate180()
}

/// Calls `DynamicImage::rotate270` (clockwise). Claimed, as
/// `imageops::rotate270` does it: the colour type stays, width and height
/// swap, and the pixel at `(x, y)` comes from `(w - 1 - y, x)`.
#[verifier::external_body]
fn rotate270(img: &image::DynamicImage) -> (r: image::DynamicImage)
    ensures
        image_color(r) == image_color(*img),
        image_size(r) == (image_size(*img).1, image_size(*img).0),
        forall|x: u32, y: u32|
            x < image_size(*img).1 && y < image_size(*img).0 ==> #[trigger] image_pixels(r)[(
                x,
                y,
            )] == image_pixels(*img)[((image_size(*img).0 - 1 - y) as u32, x)],
{
    img.rotate270()
}

/// The resampling filter of a resize.
#[derive(Debug)]
pub enum ResizeFilter {
    Lanczos3,
    Nearest,
}

/// The size that resizing an image of `size` into `max_width` x
/// `max_height` gives: the same size when it is asked for, else
/// [`fitted_size`].
pub open spec fn resize_target(size: (u32, u32), max_width: u32, max_height: u32) -> (u32, u32) {
    if (max_width, max_height) == size {
        size
    } else {
        fitted_size(size.0, size.1, max_width, max_height)
    }
}

/// The pixels that `DynamicImage::resize` computes when it resamples `img`
/// into `max_width` x `max_height` with `filter`.
pub uninterp spec fn resampled_pixels(
    img: image::DynamicImage,
    max_width: u32,
    max_height: u32,
    filter: ResizeFilter,
) -> Map<(u32, u32), Seq<u8>>;

/// Whether `scaled` has the aspect ratio of `size` up to rounding: the
/// cross products `w' * h` and `h' * w` differ by at most `w + h`.
pub open spec fn keeps_aspect(size: (u32, u32), scaled: (u32, u32)) -> bool {
    let d = scaled.0 as int * size.1 as int - scaled.1 as int * size.0 as int;
    -(size.0 + size.1) <= d <= size.0 + size.1
}

/// Calls `DynamicImage::resize` with the filter. Claimed: the result is a
/// copy when the size it has is asked for, and else has [`fitted_size`]
/// (the crate's `resize_dimensions`), which fits within the bounds (as the
/// crate documents) and is at least one pixel each way (the crate rounds up
/// to one); an image that does not fit is scaled down by the smaller of the
/// two ratios, so it grows in neither direction and meets one bound (the
/// crate documents "the maximum possible size that fits"; its rounding of
/// `side * bound / side` gives `bound` back for sides below 2^32), and keeps
/// the aspect ratio up to rounding: both sides are rounded from the same
/// ratio (or raised to 1), each off by at most one pixel, so
/// `|w' * h - h' * w| <= w + h`. The result has the colour type of the
/// image and the pixels [`resampled_pixels`] of the image, the bounds and
/// the filter; what the resampling computes is not described.
#[verifier::external_body]
fn resize_within(
    img: &image::DynamicImage,
    max_width: u32,
    max_height: u32,
    filter: ResizeFilter,
) -> (r: image::DynamicImage)
    requires
        max_width >= 1,
        max_height >= 1,
    ensures
        image_size(r) == (if (max_width, max_height) == image_size(*img) {
            image_size(*img)
        } else {
            fitted_size(image_size(*img).0, image_size(*img).1, max_width, max_height)
        }),
        1 <= image_size(r).0 <= max_width,
        1 <= image_size(r).1 <= max_height,
        !(image_size(*img).0 <= max_width && image_size(*img).1 <= max_height) && 1 <= image_size(
            *img,
        ).0 && 1 <= image_size(*img).1 ==> image_size(r).0 <= image_size(*img).0 && image_size(
            r,
        ).1 <= image_size(*img).1 && (image_size(r).0 == max_width || image_size(r).1
            == max_height) && keeps_aspect(image_size(*img), image_size(r)),
        image_color(r) == image_color(*img),
        image_pixels(r) == (if (max_width, max_height) == image_size(*img) {
            image_pixels(*img)
        } else {
            resampled_pixels(*img, max_width, max_height, filter)
        }),
{
    let f = match filter {
        ResizeFilter::Lanczos3 => image::imageops::FilterType::Lanczos3,
        ResizeFilter::Nearest => image::imageops::FilterType::Nearest,
    };
    img.resize(max_width, max_height, f)
}

// ---------------------------------------------------------------------------
// Orientation
// ---------------------------------------------------------------------------

/// The value of the EXIF orientation tag of an image file, as
/// `exif::Reader::read_from_container` finds it in the primary image and
/// `Value::get_uint(0)` reads it; `None` when the data holds no readable
/// EXIF block, no orientation tag, or no unsigned number in it.
pub uninterp spec fn exif_orientation_tag(data: Seq<u8>) -> Option<u32>;

/// Calls `exif::Reader::read_from_container` on the bytes of an image file,
/// then `Exif::get_field(Tag::Orientation, In::PRIMARY)` and
/// `Value::get_uint(0)`. Claimed: the result is [`exif_orientation_tag`] of
/// the bytes; the parsing of the container is not described, except for a
/// JPEG stream whose first segment is an orientation segment: the reader
/// takes the first APP1 segment that starts with `Exif\0\0` (kamadak-exif's
/// `jpeg::get_exif_attr`), and that TIFF block holds one IFD with one SHORT
/// orientation entry, so the value read is the byte at position 31.
#[verifier::external_body]
fn orientation_tag(data: &[u8]) -> (r: Option<u32>)
    ensures
        r == exif_orientation_tag(data@),
        crate::jpeg::has_orientation_segment(data@) ==> r == Some(data@[31] as u32),
{
    let mut cursor = std::io::Cursor::new(data);
    match exif::Reader::new().read_from_container(&mut cursor) {
        Ok(exif) => match exif.get_field(exif::Tag::Orientation, exif::In::PRIMARY) {
            Some(field) => field.value.get_uint(0),
            None => None,
        },
        Err(_) => None,
    }
}

/// The orientation that a tag value stands for: the value when it is one
/// of the eight EXIF orientations 1 to 8, else 1 (upright), also when
/// there is no tag.
pub open spec fn orientation_from_tag(tag: Option<u32>) -> u16 {
    match tag {
        Some(v) => if 1 <= v <= 8 {
            v as u16
        } else {
            1
        },
        None => 1,
    }
}

/// The orientation that a tag value stands for (1 to 8); 1 when there is
/// none or it is out of range.
pub fn orientation_of_tag(tag: Option<u32>) -> (r: u16)
    ensures
        r == orientation_from_tag(tag),
        1 <= r <= 8,
{
    match tag {
        Some(v) => if 1 <= v && v <= 8 {
            v as u16
        } else {
            1
        },
        None => 1,
    }
}

/// Reads the EXIF orientation of the image file whose bytes are `data`:
/// the orientation value 1-8, or 1 (upright) when the data holds no EXIF
/// orientation or one outside that range.
pub fn read_exif_orientation(data: &[u8]) -> (r: u16)
    ensures
        r == orientation_from_tag(exif_orientation_tag(data@)),
        1 <= r <= 8,
        crate::jpeg::has_orientation_segment(data@) && 1 <= data@[31] <= 8 ==> r == data@[31],
{
    orientation_of_tag(orientation_tag(data))
}

/// The size of an image of `size` after orientation `o` is applied: width
/// and height swap for the orientations 5 to 8.
pub open spec fn oriented_size(o: u16, size: (u32, u32)) -> (u32, u32) {
    if 5 <= o <= 8 {
        (size.1, size.0)
    } else {
        size
    }
}

/// Where the pixel at `(x, y)` of the upright image comes from in an image of
/// `w` x `h` pixels stored with EXIF orientation `o`.
pub open spec fn orientation_source(o: u16, w: u32, h: u32, x: u32, y: u32) -> (u32, u32) {
    if o == 2 {
        // mirrored horizontally
        ((w - 1 - x) as u32, y)
    } else if o == 3 {
        // rotated by 180 degrees
        ((w - 1 - x) as u32, (h - 1 - y) as u32)
    } else if o == 4 {
        // mirrored vertically
        (x, (h - 1 - y) as u32)
    } else if o == 5 {
        // transposed
        (y, x)
    } else if o == 6 {
        // to be rotated by 90 degrees clockwise
        (y, (h - 1 - x) as u32)
    } else if o == 7 {
        // transversed
        ((w - 1 - y) as u32, (h - 1 - x) as u32)
    } else if o == 8 {
        // to be rotated by 270 degrees clockwise
        ((w - 1 - y) as u32, x)
    } else {
        (x, y)
    }
}

/// Whether `dst` is `src` with orientation `o` applied: it has the same
/// colour type, its size is the oriented size, and each of its pixels is the pixel of `src` that
/// [`orientation_source`] names.
pub open spec fn oriented(src: image::DynamicImage, o: u16, dst: image::DynamicImage) -> bool {
    &&& image_color(dst) == image_color(src)
    &&& image_size(dst) == oriented_size(o, image_size(src))
    &&& forall|x: u32, y: u32|
        x < image_size(dst).0 && y < image_size(dst).1 ==> #[trigger] image_pixels(dst)[(x, y)]
            == image_pixels(src)[orientation_source(o, image_size(src).0, image_size(src).1, x, y)]
}

/// Applies an EXIF orientation to an image, so that it comes out upright
/// whatever way it was stored: 2 mirrors it horizontally, 3 turns it by 180
/// degrees, 4 mirrors it vertically, 5 transposes it, 6 turns it by 90
/// degrees clockwise, 7 transverses it, 8 turns it by 270 degrees
/// clockwise; any other value leaves it as it is.
pub fn apply_orientation(img: image::DynamicImage, orientation: u16) -> (r: image::DynamicImage)
    ensures
        !(2 <= orientation <= 8) ==> r == img,
        oriented(img, orientation, r),
{
    let ghost w = image_size(img).0;
    let ghost h = image_size(img).1;
    match orientation {
        2 => flip_horizontal(&img),
        3 => rotate180(&img),
        4 => flip_vertical(&img),
        5 => {
            let flipped = flip_vertical(&img);
            let r = rotate90(&flipped);
            assert forall|x: u32, y: u32| x < h && y < w implies #[trigger] image_pixels(r)[(x, y)]
                == image_pixels(img)[orientation_source(orientation, w, h, x, y)] by {
                assert(image_pixels(r)[(x, y)] == image_pixels(flipped)[(y, (h - 1 - x) as u32)]);
            }
            r
        },
        6 => rotate90(&img),
        7 => {
            let flipped = flip_horizontal(&img);
            let r = rotate90(&flipped);
            assert forall|x: u32, y: u32| x < h && y < w implies #[trigger] image_pixels(r)[(x, y)]
                == image_pixels(img)[orientation_source(orientation, w, h, x, y)] by {
                assert(image_pixels(r)[(x, y)] == image_pixels(flipped)[(y, (h - 1 - x) as u32)]);
            }
            r
        },
        8 => rotate270(&img),
        _ => img,
    }
}

// ---------------------------------------------------------------------------
// Fitting into the maximum dimensions
// ---------------------------------------------------------------------------

/// The larger of `n` and 1.
pub open spec fn at_least_one(n: u32) -> u32 {
    if n == 0 {
        1
    } else {
        n
    }
}

/// The size of an image of `size` after [`resize_image`] with the bounds
/// `max_width` and `max_height`.
pub open spec fn resized_size(size: (u32, u32), max_width: u32, max_height: u32) -> (u32, u32) {
    if size.0 <= max_width && size.1 <= max_height {
        size
    } else {
        resize_target(size, at_least_one(max_width), at_least_one(max_height))
    }
}

/// The pixels of an image that [`resize_image`] shrinks: resampled with
/// the Lanczos3 filter into the bounds (a bound of 0 counting as 1), or
/// kept when that is its size already.
pub open spec fn shrunk_pixels(img: image::DynamicImage, max_width: u32, max_height: u32) -> Map<
    (u32, u32),
    Seq<u8>,
> {
    let target = (at_least_one(max_width), at_least_one(max_height));
    if target == image_size(img) {
        image_pixels(img)
    } else {
        resampled_pixels(img, target.0, target.1, ResizeFilter::Lanczos3)
    }
}

/// Whether `dst` is what [`resize_image`] makes of `src` with the bounds
/// `max_width` and `max_height`: `src` itself when it fits, else an image
/// of the same colour type, of [`resized_size`] (within the bounds, a
/// bound of 0 counting as 1, and at least one pixel each way; when it is
/// too large for them, no larger than `src` either way, on one bound, and
/// with the aspect ratio of `src` up to rounding)
/// and with the [`shrunk_pixels`] of `src`.
pub open spec fn resized(
    src: image::DynamicImage,
    max_width: u32,
    max_height: u32,
    dst: image::DynamicImage,
) -> bool {
    &&& image_size(dst) == resized_size(image_size(src), max_width, max_height)
    &&& image_size(dst).0 <= at_least_one(max_width)
    &&& image_size(dst).1 <= at_least_one(max_height)
    &&& if image_size(src).0 <= max_width && image_size(src).1 <= max_height {
        dst == src
    } else {
        &&& image_color(dst) == image_color(src)
        &&& 1 <= image_size(dst).0
        &&& 1 <= image_size(dst).1
        &&& image_pixels(dst) == shrunk_pixels(src, max_width, max_height)
        &&& !(image_size(src).0 <= at_least_one(max_width) && image_size(src).1 <= at_least_one(
            max_height,
        )) && 1 <= image_size(src).0 && 1 <= image_size(src).1 ==> {
            &&& image_size(dst).0 <= image_size(src).0
            &&& image_size(dst).1 <= image_size(src).1
            &&& image_size(dst).0 == at_least_one(max_width) || image_size(dst).1 == at_least_one(
                max_height,
            )
            &&& keeps_aspect(image_size(src), image_size(dst))
        }
    }
}

/// Resizes an image to fit within `max_w` x `max_h`, preserving its aspect
/// ratio; an image that already fits is returned unchanged. A bound of 0
/// counts as 1.
pub fn resize_image(img: image::DynamicImage, max_w: u32, max_h: u32) -> (r: image::DynamicImage)
    ensures
        resized(img, max_w, max_h, r),
{
    let (w, h) = dimensions(&img);
    if w <= max_w && h <= max_h {
        return img;
    }
    let target_w = if max_w == 0 {
        1
    } else {
        max_w
    };
    let target_h = if max_h == 0 {
        1
    } else {
        max_h
    };
    let resized = resize_within(&img, target_w, target_h, ResizeFilter::Lanczos3);
    let (rw, rh) = dimensions(&resized);
    if rw == 0 || rh == 0 {
        resize_within(&resized, 1, 1, ResizeFilter::Nearest)
    } else {
        resized
    }
}

// ---------------------------------------------------------------------------
// The pipeline
// ---------------------------------------------------------------------------

/// The size of the image that [`prepare_image`] makes of an image of `size`.
pub open spec fn prepared_size(size: (u32, u32), orientation: u16, max_width: u32, max_height: u32) -> (u32, u32) {
    resized_size(oriented_size(orientation, size), max_width, max_height)
}

/// Whether `dst` is what [`prepare_image`] makes of `src`: `src` turned
/// upright by orientation `o`, then fitted into the bounds.
pub open spec fn prepared(
    src: image::DynamicImage,
    o: u16,
    max_width: u32,
    max_height: u32,
    dst: image::DynamicImage,
) -> bool {
    exists|upright: image::DynamicImage|
        oriented(src, o, upright) && #[trigger] resized(upright, max_width, max_height, dst)
}

/// Turns a decoded image upright by its EXIF orientation and fits it into the
/// maximum dimensions.
pub fn prepare_image(img: image::DynamicImage, orientation: u16, max_width: u32, max_height: u32) -> (r:
    image::DynamicImage)
    ensures
        prepared(img, orientation, max_width, max_height, r),
        image_size(r) == prepared_size(image_size(img), orientation, max_width, max_height),
        image_size(r).0 <= at_least_one(max_width),
        image_size(r).1 <= at_least_one(max_height),
        !(oriented_size(orientation, image_size(img)).0 <= max_width && oriented_size(
            orientation,
            image_size(img),
        ).1 <= max_height) ==> 1 <= image_size(r).0 && 1 <= image_size(r).1,
{
    let upright = apply_orientation(img, orientation);
    let r = resize_image(upright, max_width, max_height);
    assert(oriented(img, orientation, upright) && resized(upright, max_width, max_height, r));
    r
}

/// The format an image is encoded in for upload.
#[derive(Debug)]
pub enum OutputFormat {
    Png,
    WebP,
    Gif,
    Jpeg,
}

/// The format for an output extension: PNG, WebP and GIF by name, JPEG for
/// anything else.
pub open spec fn format_for(ext: Seq<char>) -> OutputFormat {
    if ext == "png"@ {
        OutputFormat::Png
    } else if ext == "webp"@ {
        OutputFormat::WebP
    } else if ext == "gif"@ {
        OutputFormat::Gif
    } else {
        OutputFormat::Jpeg
    }
}

/// The extension of the uploaded image: that of `path` in lower case, or
/// `jpg` when the path has none.
pub open spec fn output_extension(platform: Platform, path: Seq<char>) -> Seq<char> {
    text::lowercase(crate::config::value_or(paths::extension(platform, path), "jpg"@))
}

/// The format that `ImageFormat::from_extension` gives for an extension.
pub uninterp spec fn extension_format(ext: Seq<char>) -> Option<image::ImageFormat>;

/// Calls `ImageFormat::from_extension`. Claimed, as its source shows: the
/// result is [`extension_format`] of the extension, and a format comes back
/// exactly for the extensions that the crate knows, in any ASCII case.
#[verifier::external_body]
fn format_from_extension(ext: &str) -> (r: Option<image::ImageFormat>)
    ensures
        r == extension_format(ext@),
        r is Some <==> known_image_extension(ext@),
{
    image::ImageFormat::from_extension(ext)
}

/// The extensions that `ImageFormat::from_extension` knows, in lower case.
pub open spec fn known_image_extension_lower(e: Seq<char>) -> bool {
    ||| e == "avif"@
    ||| e == "jpg"@
    ||| e == "jpeg"@
    ||| e == "jfif"@
    ||| e == "png"@
    ||| e == "apng"@
    ||| e == "gif"@
    ||| e == "webp"@
    ||| e == "tif"@
    ||| e == "tiff"@
    ||| e == "tga"@
    ||| e == "dds"@
    ||| e == "bmp"@
    ||| e == "ico"@
    ||| e == "hdr"@
    ||| e == "exr"@
    ||| e == "pbm"@
    ||| e == "pam"@
    ||| e == "ppm"@
    ||| e == "pgm"@
    ||| e == "pnm"@
    ||| e == "ff"@
    ||| e == "qoi"@
}

/// Whether `ImageFormat::from_extension` knows the extension `e`.
pub open spec fn known_image_extension(e: Seq<char>) -> bool {
    known_image_extension_lower(e.map_values(|c: char| text::ascii_lower(c)))
}

/// The width and height of the image that `image::load_from_memory_with_format`
/// decodes from `data` in `format`; `None` when decoding fails.
pub uninterp spec fn decoded_size(data: Seq<u8>, format: image::ImageFormat) -> Option<(u32, u32)>;

/// The pixels of the image that `image::load_from_memory_with_format`
/// decodes from `data` in `format`.
pub uninterp spec fn decoded_pixels(data: Seq<u8>, format: image::ImageFormat) -> Map<
    (u32, u32),
    Seq<u8>,
>;

/// Calls `image::load_from_memory_with_format`, which decodes `data` in the
/// given format (with the crate's default limits, as `image::open` does).
/// Claimed: it succeeds exactly when [`decoded_size`] of the bytes and the
/// format is some size, and the image has that size and the pixels
/// [`decoded_pixels`]; what the decoder computes is not described.
#[verifier::external_body]
fn load_with_format(data: &[u8], format: image::ImageFormat) -> (r: Result<
    image::DynamicImage,
    image::ImageError,
>)
    ensures
        match r {
            Ok(img) => decoded_size(data@, format) == Some(image_size(img)) && decoded_pixels(
                data@,
                format,
            ) == image_pixels(img),
            Err(_) => decoded_size(data@, format) is None,
        },
{
    image::load_from_memory_with_format(data, format)
}

/// The bytes that `DynamicImage::write_to` writes when it encodes `img` in
/// `format`; `None` when encoding fails.
pub uninterp spec fn encoded_image(img: image::DynamicImage, format: OutputFormat) -> Option<
    Seq<u8>,
>;

/// The PNG signature.
pub open spec fn png_signature() -> Seq<u8> {
    seq![137u8, 80u8, 78u8, 71u8, 13u8, 10u8, 26u8, 10u8]
}

/// Whether `b` starts as a file of `format` does: the PNG signature,
/// `RIFF` and `WEBP` around the RIFF size, `GIF89a`, or the JPEG
/// start-of-image marker `FF D8`.
pub open spec fn has_signature(b: Seq<u8>, format: OutputFormat) -> bool {
    match format {
        OutputFormat::Png => b.len() >= 8 && b.take(8) == png_signature(),
        OutputFormat::WebP => b.len() >= 12 && b.take(4) == seq![82u8, 73u8, 70u8, 70u8]
            && b.subrange(8, 12) == seq![87u8, 69u8, 66u8, 80u8],
        OutputFormat::Gif => b.len() >= 6 && b.take(6) == seq![71u8, 73u8, 70u8, 56u8, 57u8, 97u8],
        OutputFormat::Jpeg => b.len() >= 2 && b[0] == 0xFF && b[1] == 0xD8,
    }
}

/// Calls `DynamicImage::write_to` with an in-memory buffer, which encodes the
/// image in the format. Claimed: it succeeds exactly when
/// [`encoded_image`] of the image and the format is some bytes, and gives
/// them; encoded bytes start with the format's signature, which the
/// crate's encoders write first (PNG: its eight-byte signature; WebP:
/// `RIFF`, the size, `WEBP`; GIF: `GIF89a`; JPEG: the `FF D8` marker).
/// Also claimed: the bytes hold no EXIF orientation. `write_to` makes a
/// fresh encoder, whose EXIF block is empty and never written (the JPEG
/// encoder writes APP1 only for a block that was set, the PNG and WebP
/// encoders an `eXIf`/`EXIF` chunk likewise, GIF has no place for one), so
/// `exif::Reader` finds none.
#[verifier::external_body]
fn encode_image(img: &image::DynamicImage, format: OutputFormat) -> (r: Result<
    Vec<u8>,
    image::ImageError,
>)
    ensures
        match r {
            Ok(b) => encoded_image(*img, format) == Some(b@) && has_signature(b@, format)
                && exif_orientation_tag(b@) is None,
            Err(_) => encoded_image(*img, format) is None,
        },
{
    let f = match format {
        OutputFormat::Png => image::ImageFormat::Png,
        OutputFormat::WebP => image::ImageFormat::WebP,
        OutputFormat::Gif => image::ImageFormat::Gif,
        OutputFormat::Jpeg => image::ImageFormat::Jpeg,
    };
    let mut buf = std::io::Cursor::new(Vec::new());
    match img.write_to(&mut buf, f) {
        Ok(()) => Ok(buf.into_inner()),
        Err(e) => Err(e),
    }
}

/// Why an image could not be processed.
#[derive(Debug)]
pub enum ProcessError {
    /// The image could not be decoded: its file extension names no known
    /// format, or the data is no valid image of that format.
    OpenFailed,
    /// The image could not be encoded again.
    EncodeFailed,
}

impl ProcessError {
    /// The message that describes this error.
    pub fn message(&self) -> (r: String)
        ensures
            r@ == (match self {
                ProcessError::OpenFailed => "Failed to open image"@,
                ProcessError::EncodeFailed => "Failed to encode image"@,
            }),
    {
        match self {
            ProcessError::OpenFailed => String::from_str("Failed to open image"),
            ProcessError::EncodeFailed => String::from_str("Failed to encode image"),
        }
    }
}

/// The size of the image that the file at `path` with the bytes `data`
/// decodes to, in the format that its extension names; `None` when the
/// path has no extension, the extension names no known format, or the data
/// does not decode.
pub open spec fn decoded_file_size(platform: Platform, data: Seq<u8>, path: Seq<char>) -> Option<(u32, u32)> {
    match paths::extension(platform, path) {
        Some(e) => match extension_format(e) {
            Some(f) => decoded_size(data, f),
            None => None,
        },
        None => None,
    }
}

/// The pixels of the image that the file at `path` with the bytes `data`
/// decodes to, in the format that its extension names.
pub open spec fn decoded_file_pixels(platform: Platform, data: Seq<u8>, path: Seq<char>) -> Map<(u32, u32), Seq<u8>> {
    match paths::extension(platform, path) {
        Some(e) => match extension_format(e) {
            Some(f) => decoded_pixels(data, f),
            None => Map::empty(),
        },
        None => Map::empty(),
    }
}

/// Decodes the bytes of the image file at `path` in the format that the
/// file's extension names, as `image::open` does.
pub fn decode_image(platform: Platform, data: &[u8], path: &str) -> (r: Result<image::DynamicImage, ProcessError>)
    ensures
        match r {
            Ok(img) => decoded_file_size(platform, data@, path@) == Some(image_size(img))
                && decoded_file_pixels(platform, data@, path@) == image_pixels(img),
            Err(e) => e == ProcessError::OpenFailed && decoded_file_size(platform, data@, path@) is None,
        },
        !(paths::extension(platform, path@) matches Some(e) && known_image_extension(e)) ==> r is Err,
{
    match paths::path_extension(platform, path) {
        Some(e) => match format_from_extension(e.as_str()) {
            Some(format) => match load_with_format(data, format) {
                Ok(img) => Ok(img),
                Err(_) => Err(ProcessError::OpenFailed),
            },
            None => Err(ProcessError::OpenFailed),
        },
        None => Err(ProcessError::OpenFailed),
    }
}

/// The lower-case extension of the output file.
fn output_extension_of(platform: Platform, path: &str) -> (r: String)
    ensures
        r@ == output_extension(platform, path@),
{
    match paths::path_extension(platform, path) {
        Some(e) => to_lowercase(e.as_str()),
        None => to_lowercase("jpg"),
    }
}

/// The output format for a lower-case extension.
pub fn output_format(ext: &String) -> (r: OutputFormat)
    ensures
        r == format_for(ext@),
{
    if *ext == String::from_str("png") {
        OutputFormat::Png
    } else if *ext == String::from_str("webp") {
        OutputFormat::WebP
    } else if *ext == String::from_str("gif") {
        OutputFormat::Gif
    } else {
        OutputFormat::Jpeg
    }
}

/// The orientation of the image file with the bytes `data`.
pub open spec fn file_orientation(data: Seq<u8>) -> u16 {
    orientation_from_tag(exif_orientation_tag(data))
}

/// Whether `img` is the image that is uploaded for the file at `path` with
/// the bytes `data`: the decoded image (of the decoded size and pixels),
/// turned upright by the file's orientation and fitted into the bounds.
pub open spec fn upload_image(
    platform: Platform,
    data: Seq<u8>,
    path: Seq<char>,
    max_width: u32,
    max_height: u32,
    img: image::DynamicImage,
) -> bool {
    exists|src: image::DynamicImage|
        #[trigger] image_size(src) == decoded_file_size(platform, data, path).unwrap() && image_pixels(src)
            == decoded_file_pixels(platform, data, path) && prepared(
            src,
            file_orientation(data),
            max_width,
            max_height,
            img,
        )
}

/// The full image pipeline for the image file at `path`, whose bytes are
/// `data`: reads the EXIF orientation, decodes the image, turns it upright,
/// fits it into `max_width` x `max_height`, and encodes it again in the
/// format of its extension (JPEG for anything but PNG, WebP and GIF).
///
/// Returns the encoded bytes, the lower-case extension and the width and
/// height of the encoded image. It fails with `OpenFailed` exactly when the
/// image cannot be decoded, and with `EncodeFailed` only when the encoder
/// refuses the prepared image.
pub fn process_image(
    platform: Platform,
    data: &[u8],
    path: &str,
    max_width: u32,
    max_height: u32,
) -> (r: Result<
    (Vec<u8>, String, u32, u32),
    ProcessError,
>)
    ensures
        r matches Err(ProcessError::OpenFailed) <==> decoded_file_size(platform, data@, path@) is None,
        r matches Ok((b, ext, w, h)) ==> {
            let size = prepared_size(
                decoded_file_size(platform, data@, path@).unwrap(),
                file_orientation(data@),
                max_width,
                max_height,
            );
            &&& ext@ == output_extension(platform, path@)
            &&& (w, h) == size
            &&& w <= at_least_one(max_width)
            &&& h <= at_least_one(max_height)
            &&& !(oriented_size(
                file_orientation(data@),
                decoded_file_size(platform, data@, path@).unwrap(),
            ).0 <= max_width && oriented_size(
                file_orientation(data@),
                decoded_file_size(platform, data@, path@).unwrap(),
            ).1 <= max_height) ==> 1 <= w && 1 <= h
            &&& has_signature(b@, format_for(ext@))
            &&& exif_orientation_tag(b@) is None
            &&& exists|img: image::DynamicImage|
                #[trigger] upload_image(platform, data@, path@, max_width, max_height, img) && image_size(img)
                    == size && encoded_image(img, format_for(ext@)) == Some(b@)
        },
        r matches Err(ProcessError::EncodeFailed) ==> {
            &&& decoded_file_size(platform, data@, path@) is Some
            &&& exists|img: image::DynamicImage|
                #[trigger] upload_image(platform, data@, path@, max_width, max_height, img) && encoded_image(
                    img,
                    format_for(output_extension(platform, path@)),
                ) is None
        },
{
    let orientation = read_exif_orientation(data);
    let img = match decode_image(platform, data, path) {
        Ok(img) => img,
        Err(e) => return Err(e),
    };
    let ghost decoded = img;
    let prepared = prepare_image(img, orientation, max_width, max_height);
    let (w, h) = dimensions(&prepared);
    assert((w, h) == prepared_size(image_size(decoded), orientation, max_width, max_height));
    assert(upload_image(platform, data@, path@, max_width, max_height, prepared)) by {
        assert(image_size(decoded) == decoded_file_size(platform, data@, path@).unwrap());
    }
    let ext = output_extension_of(platform, path);
    let format = output_format(&ext);
    match encode_image(&prepared, format) {
        Ok(bytes) => Ok((bytes, ext, w, h)),
        Err(_) => Err(ProcessError::EncodeFailed),
    }
}

// ---------------------------------------------------------------------------
// Laws
// ---------------------------------------------------------------------------

/// Whether orientation `second` undoes orientation `first`: turning by 90
/// degrees and by 270 degrees undo each other, and each mirror, the turn by
/// 180 degrees, the transposition and the transversal undo themselves.
pub open spec fn undoes(first: u16, second: u16) -> bool {
    ||| first == 6 && second == 8
    ||| first == 8 && second == 6
    ||| first == second && (first == 2 || first == 3 || first == 4 || first == 5 || first == 7)
}

/// Applying an orientation and then the one that undoes it gives back the
/// image: the same colour type, the same size and the same pixels.
pub proof fn law_orientation_round_trip(
    a: image::DynamicImage,
    b: image::DynamicImage,
    c: image::DynamicImage,
    first: u16,
    second: u16,
)
    requires
        undoes(first, second),
        oriented(a, first, b),
        oriented(b, second, c),
    ensures
        image_color(c) == image_color(a),
        image_size(c) == image_size(a),
        forall|x: u32, y: u32|
            x < image_size(a).0 && y < image_size(a).1 ==> #[trigger] image_pixels(c)[(x, y)]
                == image_pixels(a)[(x, y)],
{
    let (w, h) = image_size(a);
    let (bw, bh) = image_size(b);
    assert forall|x: u32, y: u32| x < w && y < h implies #[trigger] image_pixels(c)[(x, y)]
        == image_pixels(a)[(x, y)] by {
        let s = orientation_source(second, bw, bh, x, y);
        assert(image_pixels(c)[(x, y)] == image_pixels(b)[s]);
        assert(s.0 < bw && s.1 < bh);
        assert(image_pixels(b)[(s.0, s.1)] == image_pixels(a)[orientation_source(
            first,
            w,
            h,
            s.0,
            s.1,
        )]);
        assert(orientation_source(first, w, h, s.0, s.1) == (x, y));
    }
}

/// Turning an image upright loses no pixel and invents none: every pixel of
/// the result comes from a pixel of the stored image, and no two pixels of
/// the result come from the same one.
pub proof fn law_orientation_is_a_permutation(o: u16, w: u32, h: u32)
    ensures
        forall|x: u32, y: u32|
            x < oriented_size(o, (w, h)).0 && y < oriented_size(o, (w, h)).1 ==> {
                let s = #[trigger] orientation_source(o, w, h, x, y);
                s.0 < w && s.1 < h
            },
        forall|x1: u32, y1: u32, x2: u32, y2: u32|
            x1 < oriented_size(o, (w, h)).0 && y1 < oriented_size(o, (w, h)).1 && x2
                < oriented_size(o, (w, h)).0 && y2 < oriented_size(o, (w, h)).1
                && #[trigger] orientation_source(o, w, h, x1, y1) == #[trigger] orientation_source(
                o,
                w,
                h,
                x2,
                y2,
            ) ==> x1 == x2 && y1 == y2,
{
}

} // verus!
