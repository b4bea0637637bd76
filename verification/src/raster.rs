use vstd::prelude::*;

verus! {

/// A pixel as its four channels: red, green, blue, alpha.
pub type Rgba8 = (u8, u8, u8, u8);

/// An RGBA picture with eight bits a channel, held in the image crate's
/// buffer. Verus sees it through `canvas_pixels` and `canvas_size` only.
#[verifier::external_body]
pub struct Canvas {
    buffer: image::RgbaImage,
}

#[verifier::external_type_specification]
#[verifier::external_body]
pub struct ExDynamicImage(image::DynamicImage);

/// The pixels of a canvas, by (column, row).
pub uninterp spec fn canvas_pixels(c: Canvas) -> Map<(u32, u32), Rgba8>;

/// The (width, height) that a canvas was made with.
pub uninterp spec fn canvas_size(c: Canvas) -> (u32, u32);

/// The pixels of a picture of the image crate, each as the RGBA value that
/// the crate reads at that (column, row).
pub uninterp spec fn picture_pixels(img: image::DynamicImage) -> Map<(u32, u32), Rgba8>;

/// The (width, height) of a picture of the image crate.
pub uninterp spec fn picture_size(img: image::DynamicImage) -> (u32, u32);

/// What the image crate's PNG decoder makes of a byte string: the size and
/// the pixels of the picture, or, where it refuses the bytes, the message of
/// its error.
pub uninterp spec fn png_decoding(bytes: Seq<u8>) -> Result<((u32, u32), Map<(u32, u32), Rgba8>), Seq<char>>;

/// What the image crate's Lanczos3 resampling makes of the pixels of a picture
/// of the given size, resampled to `width` by `height`.
pub uninterp spec fn lanczos3_resample(
    pixels: Map<(u32, u32), Rgba8>,
    size: (u32, u32),
    width: u32,
    height: u32,
) -> Map<(u32, u32), Rgba8>;

pub open spec fn in_rect(p: (u32, u32), width: int, height: int) -> bool {
    p.0 < width && p.1 < height
}

/// Transparent black: zero in every channel.
pub open spec fn clear_pixel() -> Rgba8 {
    (0u8, 0u8, 0u8, 0u8)
}

/// Opaque black.
pub open spec fn black_pixel() -> Rgba8 {
    (0u8, 0u8, 0u8, 255u8)
}

/// The pixels of a canvas of the given size filled with one colour.
pub open spec fn filled_pixels(width: int, height: int, color: Rgba8) -> Map<(u32, u32), Rgba8> {
    Map::new(|p: (u32, u32)| in_rect(p, width, height), |p: (u32, u32)| color)
}

/// The pixels of a fresh canvas of the given size: all transparent black.
pub open spec fn blank_pixels(width: int, height: int) -> Map<(u32, u32), Rgba8> {
    filled_pixels(width, height, clear_pixel())
}

/// The image crate's message for a picture that does not fit where it is
/// copied.
pub open spec fn dimension_mismatch_message() -> Seq<char> {
    seq!['T', 'h', 'e', ' ', 'I', 'm', 'a', 'g', 'e', '\'', 's', ' ', 'd', 'i', 'm', 'e', 'n', 's', 'i', 'o', 'n',
        's', ' ', 'a', 'r', 'e', ' ', 'e', 'i', 't', 'h', 'e', 'r', ' ', 't', 'o', 'o', ' ', 's', 'm', 'a', 'l', 'l',
        ' ', 'o', 'r', ' ', 't', 'o', 'o', ' ', 'l', 'a', 'r', 'g', 'e']
}

/// Whether `p` lies in the rectangle of the given size whose top-left corner
/// is at (x, y).
pub open spec fn in_region(p: (u32, u32), x: int, y: int, size: (u32, u32)) -> bool {
    x <= p.0 < x + size.0 && y <= p.1 < y + size.1
}

/// Whether a picture of size `inner` placed with its top-left corner at
/// (x, y) lies wholly on a canvas of size `outer`.
pub open spec fn fits_at(outer: (u32, u32), inner: (u32, u32), x: int, y: int) -> bool {
    inner.0 + x <= outer.0 && inner.1 + y <= outer.1
}

/// The pixels `base` after a picture with pixels `src` and size `size` has
/// been copied onto it with its top-left corner at (x, y).
pub open spec fn pasted(
    base: Map<(u32, u32), Rgba8>,
    src: Map<(u32, u32), Rgba8>,
    size: (u32, u32),
    x: int,
    y: int,
) -> Map<(u32, u32), Rgba8> {
    Map::new(
        |p: (u32, u32)| base.dom().contains(p) || in_region(p, x, y, size),
        |p: (u32, u32)|
            if in_region(p, x, y, size) {
                src[((p.0 - x) as u32, (p.1 - y) as u32)]
            } else {
                base[p]
            },
    )
}

impl Canvas {
    /// Calls `image::ImageBuffer::new`: a canvas of `width` by `height`
    /// pixels, each of them zero in every channel. The crate panics where
    /// the buffer, four bytes a pixel, is longer than a vector can be
    /// (`isize::MAX` bytes).
    #[verifier::external_body]
    pub(crate) fn new(width: u32, height: u32) -> (c: Canvas)
        requires
            4 * (width as int) * (height as int) <= isize::MAX,
        ensures
            canvas_size(c) == (width, height),
            canvas_pixels(c) == blank_pixels(width as int, height as int),
    {
        Canvas { buffer: image::ImageBuffer::new(width, height) }
    }

    /// Calls `image::ImageBuffer::dimensions`: the canvas's (width, height).
    #[verifier::external_body]
    pub fn dimensions(&self) -> (r: (u32, u32))
        ensures
            r == canvas_size(*self),
    {
        self.buffer.dimensions()
    }

    /// Calls `image::GenericImage::put_pixel` on the buffer: sets the pixel
    /// at (x, y). The crate panics where (x, y) lies off the canvas.
    #[verifier::external_body]
    pub(crate) fn put_pixel(&mut self, x: u32, y: u32, color: Rgba8)
        requires
            in_rect((x, y), canvas_size(*old(self)).0 as int, canvas_size(*old(self)).1 as int),
        ensures
            canvas_size(*final(self)) == canvas_size(*old(self)),
            canvas_pixels(*final(self)) == canvas_pixels(*old(self)).insert((x, y), color),
    {
        image::GenericImage::put_pixel(&mut self.buffer, x, y, image::Rgba([color.0, color.1, color.2, color.3]))
    }

    /// Calls `image::GenericImage::copy_from` with a picture as the source:
    /// refuses, changing nothing, where the picture placed at (x, y) would
    /// not lie wholly on the canvas, with the message of the crate's
    /// dimension-mismatch error; else copies every pixel of the picture onto
    /// the canvas at its place.
    #[verifier::external_body]
    pub(crate) fn paste_picture(&mut self, src: &image::DynamicImage, x: u32, y: u32) -> (r: Result<(), String>)
        ensures
            canvas_size(*final(self)) == canvas_size(*old(self)),
            r is Ok <==> fits_at(canvas_size(*old(self)), picture_size(*src), x as int, y as int),
            r is Ok ==> canvas_pixels(*final(self)) == pasted(
                canvas_pixels(*old(self)),
                picture_pixels(*src),
                picture_size(*src),
                x as int,
                y as int,
            ),
            r is Err ==> canvas_pixels(*final(self)) == canvas_pixels(*old(self)),
            r matches Err(m) ==> m@ == dimension_mismatch_message(),
    {
        match image::GenericImage::copy_from(&mut self.buffer, src, x, y) {
            Ok(()) => Ok(()),
            Err(e) => Err(e.to_string()),
        }
    }

    /// Calls `image::GenericImage::copy_from` with another canvas as the
    /// source; as `paste_picture` does.
    #[verifier::external_body]
    pub(crate) fn paste_canvas(&mut self, src: &Canvas, x: u32, y: u32) -> (r: Result<(), String>)
        ensures
            canvas_size(*final(self)) == canvas_size(*old(self)),
            r is Ok <==> fits_at(canvas_size(*old(self)), canvas_size(*src), x as int, y as int),
            r is Ok ==> canvas_pixels(*final(self)) == pasted(
                canvas_pixels(*old(self)),
                canvas_pixels(*src),
                canvas_size(*src),
                x as int,
                y as int,
            ),
            r is Err ==> canvas_pixels(*final(self)) == canvas_pixels(*old(self)),
            r matches Err(m) ==> m@ == dimension_mismatch_message(),
    {
        match image::GenericImage::copy_from(&mut self.buffer, &src.buffer, x, y) {
            Ok(()) => Ok(()),
            Err(e) => Err(e.to_string()),
        }
    }

    /// Calls `image::imageops::resize` with the Lanczos3 filter: a new canvas
    /// of `width` by `height` whose pixels are the named resampling; a copy
    /// where the size does not change. The crate panics where a buffer it
    /// allocates is longer than a vector can be (`isize::MAX` bytes): the
    /// result, four bytes a pixel, and an intermediate one of the old width
    /// and the new height, sixteen bytes a pixel.
    #[verifier::external_body]
    pub(crate) fn resized(&self, width: u32, height: u32) -> (r: Canvas)
        requires
            4 * (width as int) * (height as int) <= isize::MAX,
            16 * (canvas_size(*self).0 as int) * (height as int) <= isize::MAX,
        ensures
            canvas_size(r) == (width, height),
            canvas_pixels(r) == lanczos3_resample(canvas_pixels(*self), canvas_size(*self), width, height),
            canvas_size(*self) == (width, height) ==> canvas_pixels(r) == canvas_pixels(*self),
    {
        Canvas { buffer: image::imageops::resize(&self.buffer, width, height, image::imageops::FilterType::Lanczos3) }
    }

    /// Wraps the buffer as `image::DynamicImage::ImageRgba8`, whose pixels
    /// the crate reads back unchanged.
    #[verifier::external_body]
    pub fn into_picture(self) -> (img: image::DynamicImage)
        ensures
            picture_size(img) == canvas_size(self),
            picture_pixels(img) == canvas_pixels(self),
    {
        image::DynamicImage::ImageRgba8(self.buffer)
    }
}

/// Calls `image::imageops::resize` with the Lanczos3 filter on a picture: a
/// canvas of `width` by `height` whose pixels are the named resampling of
/// the RGBA pixels the crate reads from the picture; a copy where the size
/// does not change. The crate panics where a buffer it allocates is longer
/// than a vector can be (`isize::MAX` bytes): the result, four bytes a
/// pixel, and an intermediate one of the old width and the new height,
/// sixteen bytes a pixel.
#[verifier::external_body]
pub fn resized_picture(img: &image::DynamicImage, width: u32, height: u32) -> (r: Canvas)
    requires
        4 * (width as int) * (height as int) <= isize::MAX,
        16 * (picture_size(*img).0 as int) * (height as int) <= isize::MAX,
    ensures
        canvas_size(r) == (width, height),
        canvas_pixels(r) == lanczos3_resample(picture_pixels(*img), picture_size(*img), width, height),
        picture_size(*img) == (width, height) ==> canvas_pixels(r) == picture_pixels(*img),
{
    Canvas { buffer: image::imageops::resize(img, width, height, image::imageops::FilterType::Lanczos3) }
}

/// Calls `image::GenericImageView::dimensions` on a picture.
#[verifier::external_body]
pub fn picture_dimensions(img: &image::DynamicImage) -> (r: (u32, u32))
    ensures
        r == picture_size(*img),
{
    image::GenericImageView::dimensions(img)
}

/// Calls `image::load_from_memory_with_format` with the PNG format: the
/// picture that the crate's decoder makes of the bytes, or the message of
/// its error.
#[verifier::external_body]
pub(crate) fn decode_png(bytes: &[u8]) -> (r: Result<image::DynamicImage, String>)
    ensures
        match r {
            Ok(img) => png_decoding(bytes@) == Ok::<((u32, u32), Map<(u32, u32), Rgba8>), Seq<char>>(
                (picture_size(img), picture_pixels(img)),
            ),
            Err(m) => png_decoding(bytes@) == Err::<((u32, u32), Map<(u32, u32), Rgba8>), Seq<char>>(m@),
        },
{
    match image::load_from_memory_with_format(bytes, image::ImageFormat::Png) {
        Ok(img) => Ok(img),
        Err(e) => Err(e.to_string()),
    }
}

} // verus!
