use vstd::prelude::*;

use crate::raster::{
    black_pixel, blank_pixels, canvas_pixels, canvas_size, filled_pixels, in_rect, lanczos3_resample,
    pasted, picture_dimensions, picture_pixels, picture_size, Canvas, Rgba8,
};

verus! {

/// The margin on the left (or top) that centres something `inner` long in
/// something `outer` long: half the room left over, rounded down. The margin
/// on the other side is the same or one more.
pub fn center_offset(outer: u32, inner: u32) -> (r: u32)
    requires
        inner <= outer,
    ensures
        r == (outer - inner) / 2,
        r + inner + r <= outer <= r + inner + r + 1,
{
    (outer - inner) / 2
}

/// Paints every pixel of a canvas with one colour, row by row.
fn fill(c: &mut Canvas, color: Rgba8)
    requires
        forall|p: (u32, u32)| #[trigger] canvas_pixels(*old(c)).dom().contains(p) <==> in_rect(p, canvas_size(*old(c)).0 as int, canvas_size(*old(c)).1 as int),
    ensures
        canvas_size(*final(c)) == canvas_size(*old(c)),
        canvas_pixels(*final(c)) == filled_pixels(canvas_size(*old(c)).0 as int, canvas_size(*old(c)).1 as int, color),
{
    let (width, height) = c.dimensions();
    let ghost orig = canvas_pixels(*c);
    let mut y: u32 = 0;
    while y < height
        invariant
            canvas_size(*c) == (width, height),
            y <= height,
            forall|p: (u32, u32)| #[trigger] orig.dom().contains(p) <==> in_rect(p, width as int, height as int),
            canvas_pixels(*c) == Map::new(
                |p: (u32, u32)| in_rect(p, width as int, height as int),
                |p: (u32, u32)| if p.1 < y { color } else { orig[p] },
            ),
        decreases height - y,
    {
        let mut x: u32 = 0;
        while x < width
            invariant
                canvas_size(*c) == (width, height),
                y < height,
                x <= width,
                forall|p: (u32, u32)| #[trigger] orig.dom().contains(p) <==> in_rect(p, width as int, height as int),
                canvas_pixels(*c) == Map::new(
                    |p: (u32, u32)| in_rect(p, width as int, height as int),
                    |p: (u32, u32)| if p.1 < y || (p.1 == y && p.0 < x) { color } else { orig[p] },
                ),
            decreases width - x,
        {
            c.put_pixel(x, y, color);
            assert(canvas_pixels(*c) =~= Map::new(
                |p: (u32, u32)| in_rect(p, width as int, height as int),
                |p: (u32, u32)| if p.1 < y || (p.1 == y && p.0 < x + 1) { color } else { orig[p] },
            ));
            x = x + 1;
        }
        assert(canvas_pixels(*c) =~= Map::new(
            |p: (u32, u32)| in_rect(p, width as int, height as int),
            |p: (u32, u32)| if p.1 < y + 1 { color } else { orig[p] },
        ));
        y = y + 1;
    }
    assert(canvas_pixels(*c) =~= filled_pixels(width as int, height as int, color));
}

/// Places a picture, centred, on a blank canvas of `width` by `height`.
pub fn center_picture(width: u32, height: u32, picture: &image::DynamicImage) -> (r: Canvas)
    requires
        picture_size(*picture).0 <= width,
        picture_size(*picture).1 <= height,
        4 * (width as int) * (height as int) <= isize::MAX,
    ensures
        canvas_size(r) == (width, height),
        canvas_pixels(r) == pasted(
            blank_pixels(width as int, height as int),
            picture_pixels(*picture),
            picture_size(*picture),
            (width - picture_size(*picture).0) / 2,
            (height - picture_size(*picture).1) / 2,
        ),
{
    let (picture_width, picture_height) = picture_dimensions(picture);
    let x = center_offset(width, picture_width);
    let y = center_offset(height, picture_height);
    let mut wallpaper = Canvas::new(width, height);
    let _ = wallpaper.paste_picture(picture, x, y);
    wallpaper
}

/// A wallpaper of `width` by `height` from a square render: opaque black,
/// with the render resampled to `height` by `height` and centred across.
pub fn wallpaper_from_render(render: &Canvas, width: u32, height: u32) -> (r: Canvas)
    requires
        height <= width,
        4 * (width as int) * (height as int) <= isize::MAX,
        16 * (canvas_size(*render).0 as int) * (height as int) <= isize::MAX,
    ensures
        canvas_size(r) == (width, height),
        canvas_pixels(r) == pasted(
            filled_pixels(width as int, height as int, black_pixel()),
            lanczos3_resample(canvas_pixels(*render), canvas_size(*render), height, height),
            (height, height),
            (width - height) / 2,
            0,
        ),
{
    let offset = center_offset(width, height);
    let mut wallpaper = Canvas::new(width, height);
    assert(4 * (height as int) * (height as int) <= 4 * (width as int) * (height as int)) by (nonlinear_arith)
        requires
            height <= width,
    ;
    let resized = render.resized(height, height);
    fill(&mut wallpaper, (0u8, 0u8, 0u8, 255u8));
    let _ = wallpaper.paste_canvas(&resized, offset, 0);
    wallpaper
}

/// On a wallpaper made from a render, the pixels of the centred square,
/// `height` wide, are those of the resampled render, and every other pixel is
/// opaque black.
pub proof fn lemma_wallpaper_layout(
    resampled: Map<(u32, u32), Rgba8>,
    width: u32,
    height: u32,
    p: (u32, u32),
)
    requires
        height <= width,
        in_rect(p, width as int, height as int),
    ensures
        ({
            let offset = (width - height) / 2;
            let pixels = pasted(filled_pixels(width as int, height as int, black_pixel()), resampled, (height, height), offset, 0);
            &&& pixels.dom().contains(p)
            &&& offset <= p.0 < offset + height ==> pixels[p] == resampled[((p.0 - offset) as u32, p.1)]
            &&& !(offset <= p.0 < offset + height) ==> pixels[p] == black_pixel()
        }),
{
}

} // verus!
