use himawari_render::options::Options;
use himawari_render::{
    assemble_in_download_order, assemble_received, center_offset, center_picture, decode_tile, picture_dimensions,
    resized_picture,
    wallpaper_from_render, HimawariError, RetryAction, Tile, TileRetry,
};
use image::{DynamicImage, GenericImageView, ImageFormat, Rgba, RgbaImage};
use std::io::Cursor;

fn solid(width: u32, height: u32, color: [u8; 4]) -> DynamicImage {
    DynamicImage::ImageRgba8(RgbaImage::from_pixel(width, height, Rgba(color)))
}

fn tile(width: u32, height: u32, color: [u8; 4], x: u32, y: u32) -> Tile {
    Tile { image: solid(width, height, color), x, y }
}

fn color_of(i: u32) -> [u8; 4] {
    [10 * i as u8 + 1, 2, 3, 255]
}

fn png_bytes(img: &DynamicImage) -> Vec<u8> {
    let mut buf = Cursor::new(Vec::new());
    img.write_to(&mut buf, ImageFormat::Png).unwrap();
    buf.into_inner()
}

#[test]
fn decoding_tiles() {
    let mut img = RgbaImage::from_pixel(3, 2, Rgba([1, 2, 3, 4]));
    img.put_pixel(2, 1, Rgba([9, 8, 7, 6]));
    let bytes = png_bytes(&DynamicImage::ImageRgba8(img));
    let t = decode_tile(&bytes, 5, 6).unwrap();
    assert_eq!((t.x, t.y), (5, 6));
    assert_eq!(t.image.dimensions(), (3, 2));
    assert_eq!(t.image.get_pixel(2, 1), Rgba([9, 8, 7, 6]));
    assert_eq!(t.image.get_pixel(0, 0), Rgba([1, 2, 3, 4]));
    let expected = image::load_from_memory_with_format(&[1, 2, 3], ImageFormat::Png).unwrap_err().to_string();
    assert!(!expected.is_empty());
    assert_eq!(decode_tile(&[1, 2, 3], 0, 0).err(), Some(HimawariError::TileDecode(expected)));
    assert!(matches!(decode_tile(&[], 0, 0), Err(HimawariError::TileDecode(_))));
}

#[test]
fn assembling_one_tile() {
    let options = Options { zoom: 1, ..Options::default() };
    let mut t = RgbaImage::from_pixel(550, 550, Rgba([5, 6, 7, 255]));
    t.put_pixel(549, 0, Rgba([1, 1, 1, 1]));
    let canvas = options.assemble_tiles(&vec![Tile { image: DynamicImage::ImageRgba8(t), x: 0, y: 0 }]).unwrap();
    let picture = canvas.into_picture();
    assert_eq!(picture.dimensions(), (550, 550));
    assert_eq!(picture.get_pixel(0, 0), Rgba([5, 6, 7, 255]));
    assert_eq!(picture.get_pixel(549, 0), Rgba([1, 1, 1, 1]));
}

#[test]
fn assembling_the_grid_of_zoom_two() {
    let options = Options::default();
    let mut tiles = Vec::new();
    for i in 0..16u32 {
        tiles.push(tile(550, 550, color_of(i), i / 4, i % 4));
    }
    tiles.reverse();
    let picture = options.assemble_tiles(&tiles).unwrap().into_picture();
    assert_eq!(picture.dimensions(), (2200, 2200));
    for i in 0..16u32 {
        let (x, y) = (i / 4, i % 4);
        assert_eq!(picture.get_pixel(x * 550, y * 550), Rgba(color_of(i)));
        assert_eq!(picture.get_pixel(x * 550 + 549, y * 550 + 549), Rgba(color_of(i)));
    }
}

#[test]
fn assembling_errors() {
    let options = Options { zoom: 1, ..Options::default() };
    let mismatch = HimawariError::TileOutOfBounds("The Image's dimensions are either too small or too large".to_string());
    assert_eq!(options.assemble_tiles(&vec![tile(551, 550, [0; 4], 0, 0)]).err(), Some(mismatch.clone()));
    assert_eq!(options.assemble_tiles(&vec![tile(10, 10, [0; 4], 1, 0)]).err(), Some(mismatch));
    let bad = Options { zoom: 9, ..Options::default() };
    assert_eq!(bad.assemble_tiles(&vec![]).err(), Some(HimawariError::InvalidZoomLevel));
    let empty = options.assemble_tiles(&vec![]).unwrap().into_picture();
    assert_eq!(empty.get_pixel(100, 100), Rgba([0, 0, 0, 0]));
}

#[test]
fn received_tiles_land_at_their_places() {
    let tiles = vec![
        tile(550, 550, color_of(3), 1, 1),
        tile(550, 550, color_of(1), 0, 1),
        tile(600, 10, color_of(9), 1, 0),
        tile(550, 550, color_of(0), 0, 0),
    ];
    let picture = assemble_received(2, &tiles).into_picture();
    assert_eq!(picture.dimensions(), (1100, 1100));
    assert_eq!(picture.get_pixel(0, 0), Rgba(color_of(0)));
    assert_eq!(picture.get_pixel(10, 600), Rgba(color_of(1)));
    assert_eq!(picture.get_pixel(1099, 1099), Rgba(color_of(3)));
    assert_eq!(picture.get_pixel(600, 5), Rgba([0, 0, 0, 0]));
}

#[test]
fn download_order_assembly() {
    let images: Vec<DynamicImage> = (0..4u32).map(|i| solid(550, 550, color_of(i))).collect();
    let picture = assemble_in_download_order(2, images).into_picture();
    assert_eq!(picture.dimensions(), (1100, 1100));
    assert_eq!(picture.get_pixel(0, 0), Rgba(color_of(0)));
    assert_eq!(picture.get_pixel(0, 550), Rgba(color_of(1)));
    assert_eq!(picture.get_pixel(550, 0), Rgba(color_of(2)));
    assert_eq!(picture.get_pixel(550, 550), Rgba(color_of(3)));
}

#[test]
fn centring() {
    assert_eq!(center_offset(1920, 1080), 420);
    assert_eq!(center_offset(5, 2), 1);
    assert_eq!(center_offset(7, 7), 0);
    let picture = center_picture(10, 6, &solid(4, 2, [9, 9, 9, 9])).into_picture();
    assert_eq!(picture.dimensions(), (10, 6));
    assert_eq!(picture.get_pixel(3, 2), Rgba([9, 9, 9, 9]));
    assert_eq!(picture.get_pixel(6, 3), Rgba([9, 9, 9, 9]));
    assert_eq!(picture.get_pixel(2, 2), Rgba([0, 0, 0, 0]));
    assert_eq!(picture.get_pixel(7, 3), Rgba([0, 0, 0, 0]));
}

#[test]
fn resizing_a_picture() {
    let same = resized_picture(&solid(4, 3, [7, 8, 9, 10]), 4, 3).into_picture();
    assert_eq!(same.dimensions(), (4, 3));
    assert_eq!(same.get_pixel(3, 2), Rgba([7, 8, 9, 10]));
    let bigger = resized_picture(&solid(4, 3, [7, 8, 9, 10]), 8, 6);
    assert_eq!(bigger.dimensions(), (8, 6));
    assert_eq!(picture_dimensions(&solid(5, 2, [0; 4])), (5, 2));
}

#[test]
fn wallpaper_from_a_render() {
    let render = assemble_received(1, &vec![tile(550, 550, [200, 100, 50, 255], 0, 0)]);
    let picture = wallpaper_from_render(&render, 1000, 550).into_picture();
    assert_eq!(picture.dimensions(), (1000, 550));
    assert_eq!(picture.get_pixel(0, 0), Rgba([0, 0, 0, 255]));
    assert_eq!(picture.get_pixel(224, 549), Rgba([0, 0, 0, 255]));
    assert_eq!(picture.get_pixel(225, 0), Rgba([200, 100, 50, 255]));
    assert_eq!(picture.get_pixel(774, 549), Rgba([200, 100, 50, 255]));
    assert_eq!(picture.get_pixel(775, 10), Rgba([0, 0, 0, 255]));
}

#[test]
fn retries() {
    let mut r = TileRetry::new();
    assert_eq!(r.retries_left, 3);
    assert_eq!(r.on_probe(false), RetryAction::TryAgain);
    assert_eq!(r.on_probe(false), RetryAction::TryAgain);
    assert_eq!(r.on_probe(false), RetryAction::GiveUp);
    assert_eq!(r.retries_left, 0);
    let mut s = TileRetry::new();
    assert_eq!(s.on_probe(false), RetryAction::TryAgain);
    assert_eq!(s.on_probe(true), RetryAction::Download);
    assert_eq!(s.retries_left, 2);
}
