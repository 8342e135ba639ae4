# retouch

A photo retouch engine. It measures a picture, plans tone and colour settings, grades every
pixel in a perceptual colour space, removes blemishes, sharpens, turns and crops, and writes
JPEG or PNG files with their metadata.

## Layout

- `src/` is the library. Every function carries a contract, and Verus proves all of them but
  those of the functions that hand work to other crates, whose contracts are taken on trust:
  `fit_into`, `base64_encode` and `read_text` in `agent`; `resample`, `encode_rgb_jpeg`,
  `encode_rgb_png` and `encode_rgba_png` in `export`; `rotate90`, `rotate180`, `rotate270`,
  `flip_horizontal`, `flip_vertical` and `crop_part` in `geometry`; `telea` in `inpaint_fill`;
  `read_object` in `patch`.
  - Numbers: `single` and `double` hold IEEE 754 numbers by their bit pattern, so that each
    rounding step can be stated and proved; `text` and `fixed` read and write decimal numbers. A
    constant such as `num(0x3f00_0000)` is a bit pattern, with its decimal value in a comment
    beside it.
  - Pictures: `raster`, `transfer`, `geometry`, `inscribed`, `perspective`, `spatial`, `median`.
  - Measuring and planning: `analyze`, `color_engine`, `auto_color`, `tonemap`, `auto`,
    `guardrail`, `reference`.
  - Rendering: `pipeline`, `lch`, `develop`, `detail`, `advanced`, `sharpen`.
  - Blemishes: `spot`, `components`, `detect_spots`, `source_search`, `heal`, `freqsep`,
    `poisson`, `inpaint_fill`, `patchmatch`.
  - Settings: `params`, `perceptual`, `schema`, `options`, `preset`, `patch`, `agent`.
  - Output: `export`, `selftest`.
- `app/` is the command line program: files, network, threads and the conversions between
  colour spaces.
- `tests/` runs the library.

Sines, exponentials and powers depend on the platform. Where a computation needs one, the
caller passes its value in, and the library proves the rest for every value that may come.
