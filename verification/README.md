# himawari_render

Builds full-disk pictures of the Earth, and wallpapers from them, out of the
tiles that the Himawari-8 satellite archive serves.

- `src/` is the library, verified with Verus: the zoom levels and the
  addresses of the archive's files (`options`, `archive`), the time slots of
  the pictures (`civil`, `timefmt`), the layout of the tiles into one picture
  (`mosaic`) and of a picture on a wallpaper (`wallpaper`), and the calls into
  the `image` and `chrono` crates with the contracts they are trusted to keep
  (`raster`, `timefmt`).
- `app/` is the program around it: the downloads, the command line, saving
  the files, the contrast and the scaling that are computed in floating point,
  and the entry points for C and for the web page.
- `tests/` runs the library on concrete values.
