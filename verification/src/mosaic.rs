use vstd::prelude::*;

use crate::error::HimawariError;
use crate::options::{blocks_of_zoom, Options};
use crate::raster::{
    blank_pixels, canvas_pixels, canvas_size, clear_pixel, decode_png, dimension_mismatch_message, fits_at, in_rect, in_region, pasted,
    picture_pixels, picture_size, png_decoding, Canvas, Rgba8,
};

verus! {

/// The side of a square tile that the archive serves, in pixels.
pub const TILE_SIZE: u32 = 550;

/// A downloaded tile and its place in the grid: column `x`, row `y`.
pub struct Tile {
    pub image: image::DynamicImage,
    pub x: u32,
    pub y: u32,
}

/// The column of the picture at which a tile's left edge goes.
pub open spec fn tile_left(t: Tile) -> int {
    t.x * TILE_SIZE
}

/// The row of the picture at which a tile's top edge goes.
pub open spec fn tile_top(t: Tile) -> int {
    t.y * TILE_SIZE
}

/// Whether the tile lies wholly on a canvas of size `canvas` at its place.
pub open spec fn tile_fits(canvas: (u32, u32), t: Tile) -> bool {
    fits_at(canvas, picture_size(t.image), tile_left(t), tile_top(t))
}

/// Whether the tile, at its place, covers the pixel `p`.
pub open spec fn tile_covers(t: Tile, p: (u32, u32)) -> bool {
    in_region(p, tile_left(t), tile_top(t), picture_size(t.image))
}

/// The pixels after the tile is copied onto them at its place, where it fits;
/// unchanged where it does not.
pub open spec fn paint_tile(pixels: Map<(u32, u32), Rgba8>, canvas: (u32, u32), t: Tile) -> Map<(u32, u32), Rgba8> {
    if tile_fits(canvas, t) {
        pasted(pixels, picture_pixels(t.image), picture_size(t.image), tile_left(t), tile_top(t))
    } else {
        pixels
    }
}

/// The pixels after each tile, in order, is copied onto `base` at its place
/// (those that do not fit are left out).
pub open spec fn painted(base: Map<(u32, u32), Rgba8>, canvas: (u32, u32), tiles: Seq<Tile>) -> Map<(u32, u32), Rgba8>
    decreases tiles.len(),
{
    if tiles.len() == 0 {
        base
    } else {
        paint_tile(painted(base, canvas, tiles.drop_last()), canvas, tiles.last())
    }
}

/// Whether every tile lies wholly on the canvas at its place.
pub open spec fn all_fit(canvas: (u32, u32), tiles: Seq<Tile>) -> bool {
    forall|i: int| 0 <= i < tiles.len() ==> #[trigger] tile_fits(canvas, tiles[i])
}

/// Whether a tile is a full-size tile of an `n` by `n` grid.
pub open spec fn grid_tile(t: Tile, n: int) -> bool {
    &&& t.x < n
    &&& t.y < n
    &&& picture_size(t.image) == (TILE_SIZE, TILE_SIZE)
}

/// Whether no two tiles claim the same place.
pub open spec fn distinct_places(tiles: Seq<Tile>) -> bool {
    forall|i: int, j: int|
        0 <= i < tiles.len() && 0 <= j < tiles.len() && i != j ==> (#[trigger] tiles[i].x != #[trigger] tiles[j].x
            || tiles[i].y != tiles[j].y)
}

/// The side of the square picture that an `n` by `n` grid of tiles makes.
pub open spec fn picture_side(n: int) -> int {
    n * TILE_SIZE
}

proof fn lemma_painted_size(base: Map<(u32, u32), Rgba8>, canvas: (u32, u32), tiles: Seq<Tile>, p: (u32, u32))
    requires
        forall|q: (u32, u32)| in_rect(q, canvas.0 as int, canvas.1 as int) <==> #[trigger] base.dom().contains(q),
    ensures
        painted(base, canvas, tiles).dom().contains(p) <==> in_rect(p, canvas.0 as int, canvas.1 as int),
    decreases tiles.len(),
{
    if tiles.len() > 0 {
        lemma_painted_size(base, canvas, tiles.drop_last(), p);
    }
}

proof fn lemma_painted_uncovered(base: Map<(u32, u32), Rgba8>, canvas: (u32, u32), tiles: Seq<Tile>, p: (u32, u32))
    requires
        forall|j: int| 0 <= j < tiles.len() ==> !(tile_fits(canvas, #[trigger] tiles[j]) && tile_covers(tiles[j], p)),
    ensures
        painted(base, canvas, tiles).dom().contains(p) == base.dom().contains(p),
        base.dom().contains(p) ==> painted(base, canvas, tiles)[p] == base[p],
    decreases tiles.len(),
{
    if tiles.len() > 0 {
        let prefix = tiles.drop_last();
        assert forall|j: int| 0 <= j < prefix.len() implies !(tile_fits(canvas, #[trigger] prefix[j]) && tile_covers(prefix[j], p)) by {
            assert(prefix[j] == tiles[j]);
        }
        lemma_painted_uncovered(base, canvas, prefix, p);
        assert(!(tile_fits(canvas, tiles[tiles.len() - 1]) && tile_covers(tiles[tiles.len() - 1], p)));
    }
}

proof fn lemma_painted_covered(base: Map<(u32, u32), Rgba8>, canvas: (u32, u32), tiles: Seq<Tile>, i: int, p: (u32, u32))
    requires
        0 <= i < tiles.len(),
        tile_fits(canvas, tiles[i]),
        tile_covers(tiles[i], p),
        forall|j: int| i < j < tiles.len() ==> !(tile_fits(canvas, #[trigger] tiles[j]) && tile_covers(tiles[j], p)),
    ensures
        painted(base, canvas, tiles).dom().contains(p),
        painted(base, canvas, tiles)[p] == picture_pixels(tiles[i].image)[(
            (p.0 - tile_left(tiles[i])) as u32,
            (p.1 - tile_top(tiles[i])) as u32,
        )],
    decreases tiles.len(),
{
    let last = tiles.len() - 1;
    let prefix = tiles.drop_last();
    if i < last {
        assert(prefix[i] == tiles[i]);
        assert forall|j: int| i < j < prefix.len() implies !(tile_fits(canvas, #[trigger] prefix[j]) && tile_covers(prefix[j], p)) by {
            assert(prefix[j] == tiles[j]);
        }
        lemma_painted_covered(base, canvas, prefix, i, p);
        assert(!(tile_fits(canvas, tiles[last]) && tile_covers(tiles[last], p)));
    }
}

proof fn lemma_same_cell(a: int, b: int, off: int)
    requires
        0 <= off < TILE_SIZE,
        b * TILE_SIZE <= a * TILE_SIZE + off < b * TILE_SIZE + TILE_SIZE,
    ensures
        a == b,
{
    assert(a == b) by (nonlinear_arith)
        requires
            0 <= off < 550,
            b * 550 <= a * 550 + off < b * 550 + 550,
    ;
}

proof fn lemma_cell_bound(x: int, n: int)
    requires
        0 <= x < n,
    ensures
        x * TILE_SIZE + TILE_SIZE <= n * TILE_SIZE,
        0 <= x * TILE_SIZE,
{
    assert(x * 550 + 550 <= n * 550 && 0 <= x * 550) by (nonlinear_arith)
        requires
            0 <= x < n,
    ;
}

/// An `n` by `n` grid of full-size tiles, each at its own place, laid out on
/// a blank square picture: every tile shows whole at its place, every pixel
/// that no tile covers stays transparent black, and the picture keeps its
/// size, whatever the order in which the tiles are copied.
pub proof fn lemma_grid_mosaic(n: int, tiles: Seq<Tile>)
    requires
        0 <= n,
        picture_side(n) <= u32::MAX,
        forall|i: int| 0 <= i < tiles.len() ==> grid_tile(#[trigger] tiles[i], n),
        distinct_places(tiles),
    ensures
        ({
            let side = picture_side(n);
            let canvas = (side as u32, side as u32);
            let result = painted(blank_pixels(side, side), canvas, tiles);
            &&& all_fit(canvas, tiles)
            &&& forall|p: (u32, u32)| #[trigger] result.dom().contains(p) <==> in_rect(p, side, side)
            &&& forall|i: int, a: u32, b: u32|
                0 <= i < tiles.len() && a < TILE_SIZE && b < TILE_SIZE ==> #[trigger] result[(
                    (tiles[i].x * TILE_SIZE + a) as u32,
                    (tiles[i].y * TILE_SIZE + b) as u32,
                )] == #[trigger] picture_pixels(tiles[i].image)[(a, b)]
            &&& forall|p: (u32, u32)|
                in_rect(p, side, side) && (forall|i: int| 0 <= i < tiles.len() ==> !tile_covers(#[trigger] tiles[i], p))
                    ==> #[trigger] result[p] == clear_pixel()
        }),
{
    let side = picture_side(n);
    let canvas = (side as u32, side as u32);
    let base = blank_pixels(side, side);
    let result = painted(base, canvas, tiles);
    assert forall|i: int| 0 <= i < tiles.len() implies #[trigger] tile_fits(canvas, tiles[i]) by {
        lemma_cell_bound(tiles[i].x as int, n);
        lemma_cell_bound(tiles[i].y as int, n);
    }
    assert forall|p: (u32, u32)| #[trigger] result.dom().contains(p) <==> in_rect(p, side, side) by {
        lemma_painted_size(base, canvas, tiles, p);
    }
    assert forall|i: int, a: u32, b: u32|
        0 <= i < tiles.len() && a < TILE_SIZE && b < TILE_SIZE implies #[trigger] result[(
            (tiles[i].x * TILE_SIZE + a) as u32,
            (tiles[i].y * TILE_SIZE + b) as u32,
        )] == #[trigger] picture_pixels(tiles[i].image)[(a, b)] by {
        let t = tiles[i];
        lemma_cell_bound(t.x as int, n);
        lemma_cell_bound(t.y as int, n);
        let p = ((t.x * TILE_SIZE + a) as u32, (t.y * TILE_SIZE + b) as u32);
        assert(tile_fits(canvas, t));
        assert forall|j: int| i < j < tiles.len() implies !(tile_fits(canvas, #[trigger] tiles[j]) && tile_covers(tiles[j], p)) by {
            if tile_covers(tiles[j], p) {
                lemma_same_cell(t.x as int, tiles[j].x as int, a as int);
                lemma_same_cell(t.y as int, tiles[j].y as int, b as int);
            }
        }
        lemma_painted_covered(base, canvas, tiles, i, p);
        assert(((p.0 - tile_left(t)) as u32, (p.1 - tile_top(t)) as u32) == (a, b));
    }
    assert forall|p: (u32, u32)|
        in_rect(p, side, side) && (forall|i: int| 0 <= i < tiles.len() ==> !tile_covers(#[trigger] tiles[i], p))
        implies #[trigger] result[p] == clear_pixel() by {
        lemma_painted_uncovered(base, canvas, tiles, p);
    }
}

/// The tiles of an `n` by `n` grid as they are downloaded, column by
/// column: the `i`-th picture belongs at column `i / n`, row `i % n`.
pub open spec fn download_order_tiles(images: Seq<image::DynamicImage>, n: int) -> Seq<Tile> {
    Seq::new((n * n) as nat, |i: int| Tile { image: images[i], x: (i / n) as u32, y: (i % n) as u32 })
}

proof fn lemma_painted_step(base: Map<(u32, u32), Rgba8>, canvas: (u32, u32), tiles: Seq<Tile>, i: int)
    requires
        0 <= i < tiles.len(),
    ensures
        painted(base, canvas, tiles.take(i + 1)) == paint_tile(painted(base, canvas, tiles.take(i)), canvas, tiles[i]),
{
    assert(tiles.take(i + 1).drop_last() =~= tiles.take(i));
}

/// Lays the tiles that the download threads handed back, in the order they
/// came, onto a blank square picture `level` tiles wide; a tile that does not
/// fit at its place is left out.
pub fn assemble_received(level: u32, tiles: &Vec<Tile>) -> (render: Canvas)
    requires
        picture_side(level as int) <= u32::MAX,
        4 * picture_side(level as int) * picture_side(level as int) <= isize::MAX,
        forall|i: int| 0 <= i < tiles.len() ==> tile_left(#[trigger] tiles@[i]) <= u32::MAX && tile_top(tiles@[i]) <= u32::MAX,
    ensures
        canvas_size(render) == (picture_side(level as int) as u32, picture_side(level as int) as u32),
        canvas_pixels(render) == painted(
            blank_pixels(picture_side(level as int), picture_side(level as int)),
            canvas_size(render),
            tiles@,
        ),
{
    let side = level * TILE_SIZE;
    let mut render = Canvas::new(side, side);
    let ghost canvas = (side, side);
    let ghost base = blank_pixels(side as int, side as int);
    for i in 0..tiles.len()
        invariant
            canvas_size(render) == canvas,
            canvas == (side, side),
            side == picture_side(level as int),
            base == blank_pixels(side as int, side as int),
            forall|k: int| 0 <= k < tiles.len() ==> tile_left(#[trigger] tiles@[k]) <= u32::MAX && tile_top(tiles@[k]) <= u32::MAX,
            canvas_pixels(render) == painted(base, canvas, tiles@.take(i as int)),
    {
        let tile = &tiles[i];
        assert(tile_left(tiles@[i as int]) <= u32::MAX && tile_top(tiles@[i as int]) <= u32::MAX);
        let _ = render.paste_picture(&tile.image, tile.x * TILE_SIZE, tile.y * TILE_SIZE);
        proof {
            lemma_painted_step(base, canvas, tiles@, i as int);
        }
    }
    assert(tiles@.take(tiles.len() as int) =~= tiles@);
    render
}

/// The items in reverse order, taken one by one from the end.
fn reversed<T>(items: Vec<T>) -> (r: Vec<T>)
    ensures
        r@ == items@.reverse(),
{
    let mut items = items;
    let ghost orig = items@;
    let mut r: Vec<T> = Vec::new();
    while items.len() > 0
        invariant
            items@ == orig.take(items.len() as int),
            r.len() + items.len() == orig.len(),
            forall|j: int| 0 <= j < r.len() ==> #[trigger] r@[j] == orig[orig.len() - 1 - j],
        decreases items.len(),
    {
        let item = items.pop().unwrap();
        assert(items@ =~= orig.take(items.len() as int));
        r.push(item);
    }
    assert(r@ =~= orig.reverse());
    r
}

/// Lays the tiles of a `level` by `level` grid, downloaded column by column,
/// onto a blank square picture: the list is reversed and each tile then
/// taken from its end, so that the `i`-th download lands at column
/// `i / level`, row `i % level`. A tile that does not fit is left out.
pub fn assemble_in_download_order(level: u32, images: Vec<image::DynamicImage>) -> (render: Canvas)
    requires
        images.len() >= level * level,
        picture_side(level as int) <= u32::MAX,
        4 * picture_side(level as int) * picture_side(level as int) <= isize::MAX,
    ensures
        canvas_size(render) == (picture_side(level as int) as u32, picture_side(level as int) as u32),
        canvas_pixels(render) == painted(
            blank_pixels(picture_side(level as int), picture_side(level as int)),
            canvas_size(render),
            download_order_tiles(images@, level as int),
        ),
{
    let side = level * TILE_SIZE;
    let mut render = Canvas::new(side, side);
    let ghost canvas = (side, side);
    let ghost base = blank_pixels(side as int, side as int);
    let ghost order = download_order_tiles(images@, level as int);
    let ghost orig = images@;
    let total = images.len();
    let mut stack = reversed(images);
    let mut x: u32 = 0;
    while x < level
        invariant
            x <= level,
            canvas_size(render) == canvas,
            canvas == (side, side),
            side == picture_side(level as int),
            side == level * TILE_SIZE,
            base == blank_pixels(side as int, side as int),
            order == download_order_tiles(orig, level as int),
            total == orig.len(),
            total >= level * level,
            stack.len() == total - x * level,
            forall|j: int| 0 <= j < stack.len() ==> #[trigger] stack@[j] == orig[total - 1 - j],
            canvas_pixels(render) == painted(base, canvas, order.take(x * level)),
        decreases level - x,
    {
        let mut y: u32 = 0;
        while y < level
            invariant
                x < level,
                y <= level,
                canvas_size(render) == canvas,
                canvas == (side, side),
                side == level * TILE_SIZE,
                base == blank_pixels(side as int, side as int),
                order == download_order_tiles(orig, level as int),
                total == orig.len(),
                total >= level * level,
                stack.len() == total - (x * level + y),
                forall|j: int| 0 <= j < stack.len() ==> #[trigger] stack@[j] == orig[total - 1 - j],
                canvas_pixels(render) == painted(base, canvas, order.take(x * level + y)),
            decreases level - y,
        {
            let ghost k: int = x * level + y;
            assert(0 <= k < level * level) by (nonlinear_arith)
                requires
                    x < level,
                    y < level,
                    k == x * level + y,
            ;
            let tile = stack.pop().unwrap();
            assert(tile == orig[k]);
            assert(k / (level as int) == x && k % (level as int) == y) by (nonlinear_arith)
                requires
                    x < level,
                    y < level,
                    k == x * level + y,
            ;
            assert(order[k] == Tile { image: tile, x: x, y: y });
            assert(x * TILE_SIZE <= side && y * TILE_SIZE <= side) by (nonlinear_arith)
                requires
                    x < level,
                    y < level,
                    side == level * 550,
            ;
            let _ = render.paste_picture(&tile, x * TILE_SIZE, y * TILE_SIZE);
            proof {
                lemma_painted_step(base, canvas, order, k);
            }
            y = y + 1;
        }
        assert(x * level + level == (x + 1) * level) by (nonlinear_arith);
        x = x + 1;
    }
    assert(order.take(level * level) =~= order);
    render
}

/// Decodes the PNG bytes of the tile at column `x`, row `y`; where the
/// image crate refuses them, an error with its message.
pub fn decode_tile(bytes: &[u8], x: u32, y: u32) -> (r: Result<Tile, HimawariError>)
    ensures
        match png_decoding(bytes@) {
            Ok(decoded) => r matches Ok(t) && t.x == x && t.y == y && decoded == (
                picture_size(t.image),
                picture_pixels(t.image),
            ),
            Err(m) => r matches Err(HimawariError::TileDecode(e)) && e@ == m,
        },
{
    match decode_png(bytes) {
        Ok(image) => Ok(Tile { image, x, y }),
        Err(m) => Err(HimawariError::TileDecode(m)),
    }
}

impl Options {
    /// Lays the tiles onto a blank square picture as many tiles wide as the
    /// zoom level's grid, each at its place, in the order given; an error
    /// where the zoom level is not served, or, with the image crate's
    /// message, where a tile does not lie wholly on the picture at its place.
    pub fn assemble_tiles(&self, tiles: &Vec<Tile>) -> (r: Result<Canvas, HimawariError>)
        requires
            forall|i: int| 0 <= i < tiles.len() ==> tile_left(#[trigger] tiles@[i]) <= u32::MAX && tile_top(tiles@[i]) <= u32::MAX,
        ensures
            match blocks_of_zoom(self.zoom) {
                Some(blocks) => {
                    let side = picture_side(blocks as int);
                    let canvas = (side as u32, side as u32);
                    if all_fit(canvas, tiles@) {
                        r matches Ok(c) && canvas_size(c) == canvas && canvas_pixels(c) == painted(
                            blank_pixels(side, side),
                            canvas,
                            tiles@,
                        )
                    } else {
                        r matches Err(HimawariError::TileOutOfBounds(m)) && m@ == dimension_mismatch_message()
                    }
                },
                None => r == Err::<Canvas, HimawariError>(HimawariError::InvalidZoomLevel),
            },
    {
        let count = match self.level() {
            Ok(l) => l.1,
            Err(e) => return Err(e),
        };
        assert(1 <= count <= 8);
        let side = count * TILE_SIZE;
        assert(4 * (side as int) * (side as int) <= 4 * 4400 * 4400) by (nonlinear_arith)
            requires
                side <= 4400,
        ;
        let mut image = Canvas::new(side, side);
        let ghost canvas = (side, side);
        let ghost base = blank_pixels(side as int, side as int);
        for i in 0..tiles.len()
            invariant
                canvas_size(image) == canvas,
                canvas == (side, side),
                side == count * TILE_SIZE,
                blocks_of_zoom(self.zoom) == Some(count),
                base == blank_pixels(side as int, side as int),
                forall|k: int| 0 <= k < tiles.len() ==> tile_left(#[trigger] tiles@[k]) <= u32::MAX && tile_top(tiles@[k]) <= u32::MAX,
                forall|k: int| 0 <= k < i ==> #[trigger] tile_fits(canvas, tiles@[k]),
                canvas_pixels(image) == painted(base, canvas, tiles@.take(i as int)),
        {
            let tile = &tiles[i];
            assert(tile_left(tiles@[i as int]) <= u32::MAX && tile_top(tiles@[i as int]) <= u32::MAX);
            match image.paste_picture(&tile.image, tile.x * TILE_SIZE, tile.y * TILE_SIZE) {
                Ok(()) => {},
                Err(m) => {
                    assert(!tile_fits(canvas, tiles@[i as int]));
                    assert(canvas == (picture_side(count as int) as u32, picture_side(count as int) as u32));
                    assert(!all_fit(canvas, tiles@));
                    return Err(HimawariError::TileOutOfBounds(m));
                },
            }
            proof {
                lemma_painted_step(base, canvas, tiles@, i as int);
            }
        }
        assert(tiles@.take(tiles.len() as int) =~= tiles@);
        Ok(image)
    }
}

/// Whether the tiles come in the order in which they are requested: `blocks`
/// squared of them, the `i`-th at column `i / blocks`, row `i % blocks`.
pub open spec fn in_request_order(tiles: Seq<Tile>, blocks: int) -> bool {
    &&& tiles.len() == blocks * blocks
    &&& forall|i: int| 0 <= i < tiles.len() ==> (#[trigger] tiles[i]).x == i / blocks && tiles[i].y == i % blocks
}

proof fn lemma_request_order_places(tiles: Seq<Tile>, blocks: int)
    requires
        0 < blocks,
        in_request_order(tiles, blocks),
    ensures
        forall|i: int| 0 <= i < tiles.len() ==> (#[trigger] tiles[i]).x < blocks && tiles[i].y < blocks,
        distinct_places(tiles),
{
    assert forall|i: int| 0 <= i < tiles.len() implies (#[trigger] tiles[i]).x < blocks && tiles[i].y < blocks by {
        assert(i / blocks < blocks && i % blocks < blocks) by (nonlinear_arith)
            requires
                0 <= i < blocks * blocks,
                0 < blocks,
        ;
    }
    assert forall|i: int, j: int|
        0 <= i < tiles.len() && 0 <= j < tiles.len() && i != j implies (#[trigger] tiles[i].x != #[trigger] tiles[j].x
            || tiles[i].y != tiles[j].y) by {
        if i / blocks == j / blocks && i % blocks == j % blocks {
            assert(i == blocks * (i / blocks) + i % blocks) by (nonlinear_arith)
                requires
                    0 < blocks,
            ;
            assert(j == blocks * (j / blocks) + j % blocks) by (nonlinear_arith)
                requires
                    0 < blocks,
            ;
        }
    }
}

/// The tiles of a `blocks` by `blocks` grid, each full-size and in the order
/// in which they are requested, laid out on a blank square picture: they all
/// fit, and the pixel at (X, Y) is the pixel at (X mod 550, Y mod 550) of
/// the tile at column X / 550, row Y / 550, which is the tile requested
/// `(X / 550) * blocks + Y / 550`-th. No pixel is left blank.
pub proof fn lemma_requested_grid_picture(blocks: int, tiles: Seq<Tile>)
    requires
        0 < blocks,
        picture_side(blocks) <= u32::MAX,
        in_request_order(tiles, blocks),
        forall|i: int| 0 <= i < tiles.len() ==> picture_size((#[trigger] tiles[i]).image) == (TILE_SIZE, TILE_SIZE),
    ensures
        ({
            let side = picture_side(blocks);
            let canvas = (side as u32, side as u32);
            let result = painted(blank_pixels(side, side), canvas, tiles);
            &&& all_fit(canvas, tiles)
            &&& forall|p: (u32, u32)| #[trigger] result.dom().contains(p) <==> in_rect(p, side, side)
            &&& forall|p: (u32, u32)|
                #[trigger] in_rect(p, side, side) ==> result[p] == picture_pixels(
                    tiles[(p.0 / TILE_SIZE) * blocks + p.1 / TILE_SIZE].image,
                )[(p.0 % TILE_SIZE, p.1 % TILE_SIZE)]
        }),
{
    lemma_request_order_places(tiles, blocks);
    assert forall|i: int| 0 <= i < tiles.len() implies grid_tile(#[trigger] tiles[i], blocks) by {}
    lemma_grid_mosaic(blocks, tiles);
    let side = picture_side(blocks);
    let canvas = (side as u32, side as u32);
    let result = painted(blank_pixels(side, side), canvas, tiles);
    assert forall|p: (u32, u32)|
        #[trigger] in_rect(p, side, side) implies result[p] == picture_pixels(
            tiles[(p.0 / TILE_SIZE) * blocks + p.1 / TILE_SIZE].image,
        )[(p.0 % TILE_SIZE, p.1 % TILE_SIZE)] by {
        let cx = p.0 / TILE_SIZE;
        let cy = p.1 / TILE_SIZE;
        let a = p.0 % TILE_SIZE;
        let b = p.1 % TILE_SIZE;
        let i = cx * blocks + cy;
        assert(0 <= cx < blocks && 0 <= cy < blocks) by (nonlinear_arith)
            requires
                p.0 < blocks * 550,
                p.1 < blocks * 550,
                cx == p.0 / 550,
                cy == p.1 / 550,
        ;
        assert(0 <= i < blocks * blocks && i / blocks == cx && i % blocks == cy) by (nonlinear_arith)
            requires
                0 <= cx < blocks,
                0 <= cy < blocks,
                i == cx * blocks + cy,
        ;
        assert(tiles[i].x == cx && tiles[i].y == cy);
        assert(((tiles[i].x * TILE_SIZE + a) as u32, (tiles[i].y * TILE_SIZE + b) as u32) == p);
        assert(a < TILE_SIZE && b < TILE_SIZE);
        assert(result[((tiles[i].x * TILE_SIZE + (a as u32)) as u32, (tiles[i].y * TILE_SIZE + (b as u32)) as u32)]
            == picture_pixels(tiles[i].image)[(a as u32, b as u32)]);
    }
}

/// Tiles downloaded column by column are in the order in which they are
/// requested, so the grid law applies to them.
pub proof fn lemma_download_order_is_request_order(images: Seq<image::DynamicImage>, n: int)
    requires
        0 < n <= u32::MAX,
    ensures
        in_request_order(download_order_tiles(images, n), n),
{
    let tiles = download_order_tiles(images, n);
    assert forall|i: int| 0 <= i < tiles.len() implies (#[trigger] tiles[i]).x == i / n && tiles[i].y == i % n by {
        assert(0 <= i / n < n && 0 <= i % n < n) by (nonlinear_arith)
            requires
                0 <= i < n * n,
                0 < n,
        ;
    }
}

} // verus!
