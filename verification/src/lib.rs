//! Building full-disk pictures of the Earth from the tiles that the Himawari
//! satellite archive serves: which tiles to ask for, where the archive keeps
//! them, at which time slot, and how the tiles are laid out into one picture
//! or a wallpaper.
pub mod archive;
pub mod civil;
pub mod error;
pub mod mosaic;
pub mod options;
pub mod raster;
pub mod text;
pub mod timefmt;
pub mod wallpaper;

pub use error::HimawariError;
pub use raster::{picture_dimensions, resized_picture, Canvas, Rgba8};
pub use mosaic::{assemble_in_download_order, assemble_received, decode_tile, Tile, TILE_SIZE};
pub use civil::{slot_start, CivilTime};
pub use options::{slot_from_payload_date, tile_base_url, tile_url, DateOptions, Options, TileRequest};
pub use wallpaper::{center_offset, center_picture, wallpaper_from_render};
pub use archive::{archive_latest_url, archive_tile_url, archive_time, RetryAction, TileRetry};
