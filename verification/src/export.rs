//! Export: size, border, encoding and metadata.

use crate::raster::{lemma_area_fits, offset3, RgbImage};
use crate::single::{num, Single};
use crate::text::{is_word, same_word};
use vstd::prelude::*;

verus! {

/// Styles of the border.
#[derive(Clone, Copy, Debug, PartialEq, Eq)]
pub enum BorderStyle {
    /// No border.
    Plain,
    /// White on all sides, as wide as a share of the shorter side.
    White { width_ratio: Single },
    /// White, wider at the bottom, with a slight shadow there.
    Polaroid { width_ratio: Single },
}

impl BorderStyle {
    pub open spec fn spec_bottom_factor(&self) -> Single {
        match self {
            BorderStyle::Plain => num(0),
            BorderStyle::White { width_ratio } => num(0x3f80_0000),  // 1
            BorderStyle::Polaroid { width_ratio } => num(0x3fe6_6666),  // 1.8
        }
    }

    /// Width at the bottom as a factor on the width elsewhere.
    #[verifier::when_used_as_spec(spec_bottom_factor)]
    pub fn bottom_factor(&self) -> (r: Single)
        ensures
            r == self.spec_bottom_factor(),
    {
        match self {
            BorderStyle::Plain => num(0),
            BorderStyle::White { width_ratio } => num(0x3f80_0000),  // 1
            BorderStyle::Polaroid { width_ratio } => num(0x3fe6_6666),  // 1.8
        }
    }
}

/// Sizes of the output.
#[derive(Clone, Copy, Debug, PartialEq, Eq, Structural)]
pub enum TargetSize {
    Original,
    P1080,
    P2048,
    P3000,
    P4096,
    /// The longer side in pixels.
    Custom(u32),
}

impl TargetSize {
    pub open spec fn spec_long_edge(&self) -> u32 {
        match self {
            TargetSize::Original => 0,
            TargetSize::P1080 => 1080,
            TargetSize::P2048 => 2048,
            TargetSize::P3000 => 3000,
            TargetSize::P4096 => 4096,
            TargetSize::Custom(v) => *v,
        }
    }

    /// The longer side in pixels; 0 keeps the size.
    #[verifier::when_used_as_spec(spec_long_edge)]
    pub fn long_edge(&self) -> (r: u32)
        ensures
            r == self.spec_long_edge(),
    {
        match self {
            TargetSize::Original => 0,
            TargetSize::P1080 => 1080,
            TargetSize::P2048 => 2048,
            TargetSize::P3000 => 3000,
            TargetSize::P4096 => 4096,
            TargetSize::Custom(v) => *v,
        }
    }

    pub open spec fn label_text(&self) -> Seq<char> {
        match self {
            TargetSize::Original => "原图"@,
            TargetSize::P1080 => "1080px (社交)"@,
            TargetSize::P2048 => "2048px (高清)"@,
            TargetSize::P3000 => "3000px (印刷)"@,
            TargetSize::P4096 => "4096px (4K)"@,
            TargetSize::Custom(_) => "自定义"@,
        }
    }

    /// Name for display.
    pub fn label(&self) -> (r: &'static str)
        ensures
            r@ == self.label_text(),
    {
        match self {
            TargetSize::Original => "原图",
            TargetSize::P1080 => "1080px (社交)",
            TargetSize::P2048 => "2048px (高清)",
            TargetSize::P3000 => "3000px (印刷)",
            TargetSize::P4096 => "4096px (4K)",
            TargetSize::Custom(_) => "自定义",
        }
    }

    /// The sizes to choose from.
    pub fn all_presets() -> (r: Vec<TargetSize>)
        ensures
            r@ == seq![
                TargetSize::Original,
                TargetSize::P1080,
                TargetSize::P2048,
                TargetSize::P3000,
                TargetSize::P4096,
            ],
    {
        vec![
            TargetSize::Original,
            TargetSize::P1080,
            TargetSize::P2048,
            TargetSize::P3000,
            TargetSize::P4096,
        ]
    }
}

/// Formats of the output.
#[derive(Clone, Copy, Debug, PartialEq, Eq, Structural)]
pub enum OutputFormat {
    Jpeg,
    Png,
}

impl OutputFormat {
    /// Name for display.
    pub fn label(&self) -> (r: &'static str)
        ensures
            r@ == match self {
                OutputFormat::Jpeg => "JPEG"@,
                OutputFormat::Png => "PNG"@,
            },
    {
        match self {
            OutputFormat::Jpeg => "JPEG",
            OutputFormat::Png => "PNG",
        }
    }

    /// Extension of the file's name.
    pub fn ext(&self) -> (r: &'static str)
        ensures
            r@ == match self {
                OutputFormat::Jpeg => "jpg"@,
                OutputFormat::Png => "png"@,
            },
    {
        match self {
            OutputFormat::Jpeg => "jpg",
            OutputFormat::Png => "png",
        }
    }
}

/// Settings of an export.
#[derive(Clone, Copy, Debug, PartialEq, Eq)]
pub struct ExportConfig {
    pub target_size: TargetSize,
    pub border: BorderStyle,
    /// Dots per inch.
    pub dpi: u32,
    /// Quality of a JPEG, 1 to 100.
    pub quality: u8,
    /// Sharpens a picture that was made smaller.
    pub smart_sharpen: bool,
    pub output_format: OutputFormat,
    /// Radius of the corners inside the border, in pixels.
    pub border_round: Option<Single>,
}

impl ExportConfig {
    pub open spec fn spec_default() -> ExportConfig {
        ExportConfig {
            target_size: TargetSize::Original,
            border: BorderStyle::Plain,
            dpi: 300,
            quality: 95,
            smart_sharpen: true,
            output_format: OutputFormat::Jpeg,
            border_round: None,
        }
    }
}

impl Default for ExportConfig {
    fn default() -> (r: ExportConfig)
        ensures
            r == ExportConfig::spec_default(),
    {
        ExportConfig {
            target_size: TargetSize::Original,
            border: BorderStyle::Plain,
            dpi: 300,
            quality: 95,
            smart_sharpen: true,
            output_format: OutputFormat::Jpeg,
            border_round: None,
        }
    }
}

pub open spec fn spec_longer(w: u32, h: u32) -> u32 {
    if w > h {
        w
    } else {
        h
    }
}

/// The longer of two sides.
#[verifier::when_used_as_spec(spec_longer)]
pub fn longer(w: u32, h: u32) -> (r: u32)
    ensures
        r == spec_longer(w, h),
{
    if w > h {
        w
    } else {
        h
    }
}

pub open spec fn spec_shorter(w: u32, h: u32) -> u32 {
    if w < h {
        w
    } else {
        h
    }
}

/// The shorter of two sides.
#[verifier::when_used_as_spec(spec_shorter)]
pub fn shorter(w: u32, h: u32) -> (r: u32)
    ensures
        r == spec_shorter(w, h),
{
    if w < h {
        w
    } else {
        h
    }
}

/// A side scaled and rounded, at least one pixel.
pub open spec fn scaled_side(side: u32, limit: u32, long: u32) -> int {
    let scale = Single::spec_from_int(limit as int).over(Single::spec_from_int(long as int));
    // 1
    Single::spec_from_int(side as int).times(scale).round().max(num(0x3f80_0000)).truncated(0, u32::MAX as int)
}

/// The size of a picture whose longer side is brought down to a limit; nothing where it is
/// within the limit.
pub open spec fn downscaled(w: u32, h: u32, limit: u32) -> Option<(u32, u32)> {
    let long = spec_longer(w, h);
    if long <= limit {
        None
    } else {
        Some((scaled_side(w, limit, long) as u32, scaled_side(h, limit, long) as u32))
    }
}

fn scale_side(side: u32, limit: u32, long: u32) -> (r: u32)
    ensures
        r == scaled_side(side, limit, long),
{
    let scale: Single = Single::from_int(limit as i128).over(Single::from_int(long as i128));
    Single::from_int(side as i128).times(scale).round().max(num(0x3f80_0000)).to_u32()  // 1
}

/// The size of a picture whose longer side is brought down to a limit.
pub fn downscaled_size(w: u32, h: u32, limit: u32) -> (r: Option<(u32, u32)>)
    ensures
        r == downscaled(w, h, limit),
{
    let long: u32 = longer(w, h);
    if long <= limit {
        None
    } else {
        Some((scale_side(w, limit, long), scale_side(h, limit, long)))
    }
}

/// Sides that a resampled picture may have. The places that a pixel is mixed from are computed in
/// single precision: up to this size they are off by an eighth of a pixel at most, so the weights
/// of the pixels around them never add up to zero.
pub const MAX_SIDE: u32 = 0x10_0000;

/// A picture of `w` by `h` pixels can be resampled to at most `nw` by `nh`: no side is too long,
/// and the buffers, of four numbers of four bytes for each pixel, fit the address space.
pub open spec fn resamples(w: int, h: int, nw: int, nh: int) -> bool {
    &&& w <= MAX_SIDE
    &&& h <= MAX_SIDE
    &&& nw <= MAX_SIDE
    &&& nh <= MAX_SIDE
    &&& w * nh * 16 <= isize::MAX
    &&& nw * nh * 16 <= isize::MAX
}

/// Whether a picture of `w` by `h` pixels can be resampled to at most `nw` by `nh`.
pub fn can_resample(w: u32, h: u32, nw: u32, nh: u32) -> (r: bool)
    ensures
        r == resamples(w as int, h as int, nw as int, nh as int),
{
    if w > MAX_SIDE || h > MAX_SIDE || nw > MAX_SIDE || nh > MAX_SIDE {
        return false;
    }
    proof {
        assert(0 <= w * nh <= 0x100_0000_0000 && 0 <= nw * nh <= 0x100_0000_0000)
            by (nonlinear_arith)
            requires
                0 <= w <= 0x10_0000,
                0 <= nw <= 0x10_0000,
                0 <= nh <= 0x10_0000,
        ;
    }
    let most: u64 = isize::MAX as u64;
    w as u64 * nh as u64 * 16 <= most && nw as u64 * nh as u64 * 16 <= most
}

/// Resamples a picture to a new size: `image::imageops::resize` with the Lanczos filter. The
/// contract claims its size. The values of the pixels come from sums of products with sines,
/// which a platform's mathematics library computes, so nothing is claimed of them.
#[verifier::external_body]
fn resample(img: &RgbImage, width: u32, height: u32) -> (r: RgbImage)
    requires
        img.wf(),
        0 < width,
        0 < height,
        resamples(img.width as int, img.height as int, width as int, height as int),
    ensures
        r.wf(),
        r.width == width,
        r.height == height,
{
    let src = image::RgbImage::from_raw(img.width, img.height, img.data.clone()).unwrap();
    let out = image::imageops::resize(&src, width, height, image::imageops::FilterType::Lanczos3);
    RgbImage { width, height, data: out.into_raw() }
}

/// Brings the longer side of a picture down to a limit. A picture within the limit is kept.
pub fn smart_downscale(img: &RgbImage, limit: u32) -> (r: RgbImage)
    requires
        img.wf(),
        downscaled(img.width, img.height, limit) matches Some(s) ==> 0 < s.0 && 0 < s.1
            && resamples(img.width as int, img.height as int, s.0 as int, s.1 as int),
    ensures
        r.wf(),
        downscaled(img.width, img.height, limit) is None ==> r.width == img.width && r.height
            == img.height && r.data@ == img.data@,
        downscaled(img.width, img.height, limit) matches Some(s) ==> r.width == s.0 && r.height
            == s.1,
{
    match downscaled_size(img.width, img.height, limit) {
        None => img.clone(),
        Some((w, h)) => resample(img, w, h),
    }
}

/// How strongly a picture of the second size is sharpened that comes from one of the first: the
/// ratio of the longer sides. Nothing where sharpening is off, where it was not made smaller or
/// where its longer side is under 400.
pub open spec fn sharpening(on: bool, before: u32, after: u32) -> Option<Single> {
    if on && after < before && after >= 400 {
        Some(Single::spec_from_int(after as int).over(Single::spec_from_int(before as int)))
    } else {
        None
    }
}

/// Whether and how strongly an exported picture is sharpened.
pub fn sharpen_scale(cfg: &ExportConfig, before_w: u32, before_h: u32, w: u32, h: u32) -> (r:
    Option<Single>)
    ensures
        r == sharpening(cfg.smart_sharpen, spec_longer(before_w, before_h), spec_longer(w, h)),
{
    let before: u32 = longer(before_w, before_h);
    let after: u32 = longer(w, h);
    if cfg.smart_sharpen && after < before && after >= 400 {
        Some(Single::from_int(after as i128).over(Single::from_int(before as i128)))
    } else {
        None
    }
}

/// The measures of a border.
#[derive(Clone, Copy, Debug, PartialEq, Eq, Structural)]
pub struct Frame {
    /// Width at the top and the sides.
    pub side: u32,
    /// Width at the bottom.
    pub bottom: u32,
    /// There is a shadow at the bottom.
    pub shadow: bool,
    /// Radius of the corners; 0 for none.
    pub round: u32,
}

/// The radius of the corners: none where it is not below half of either side.
pub open spec fn corner_radius(w: u32, h: u32, radius: Option<Single>) -> int {
    match radius {
        Some(r) => {
            let n = r.round().truncated(0, u32::MAX as int);
            if n < w / 2 && n < h / 2 {
                n
            } else {
                0
            }
        },
        None => 0,
    }
}

/// The width of a border at the top and the sides.
pub open spec fn border_width(w: u32, h: u32, ratio: Single) -> int {
    // 1
    Single::spec_from_int(spec_shorter(w, h) as int).times(ratio).round().max(num(0x3f80_0000)).truncated(
        0,
        u32::MAX as int,
    )
}

/// The width of a border at the bottom.
pub open spec fn bottom_width(side: int, factor: Single) -> int {
    Single::spec_from_int(side).times(factor).round().truncated(0, u32::MAX as int)
}

/// The measures of a border round a picture; nothing where there is none.
pub open spec fn frame_of(style: BorderStyle, w: u32, h: u32, radius: Option<Single>) -> Option<
    Frame,
> {
    match style {
        BorderStyle::Plain => None,
        BorderStyle::White { width_ratio } => {
            let side = border_width(w, h, width_ratio);
            Some(
                Frame {
                    side: side as u32,
                    bottom: bottom_width(side, style.bottom_factor()) as u32,
                    shadow: false,
                    round: corner_radius(w, h, radius) as u32,
                },
            )
        },
        BorderStyle::Polaroid { width_ratio } => {
            let side = border_width(w, h, width_ratio);
            Some(
                Frame {
                    side: side as u32,
                    bottom: bottom_width(side, style.bottom_factor()) as u32,
                    shadow: true,
                    round: corner_radius(w, h, radius) as u32,
                },
            )
        },
    }
}

fn find_radius(w: u32, h: u32, radius: Option<Single>) -> (r: u32)
    ensures
        r == corner_radius(w, h, radius),
{
    match radius {
        Some(x) => {
            let n: u32 = x.round().to_u32();
            if n < w / 2 && n < h / 2 {
                n
            } else {
                0
            }
        },
        None => 0,
    }
}

fn find_frame(style: &BorderStyle, ratio: Single, shadow: bool, w: u32, h: u32, radius: Option<Single>) -> (r: Frame)
    ensures
        r == (Frame {
            side: border_width(w, h, ratio) as u32,
            bottom: bottom_width(border_width(w, h, ratio), style.bottom_factor()) as u32,
            shadow,
            round: corner_radius(w, h, radius) as u32,
        }),
{
    // 1
    let side: u32 = Single::from_int(shorter(w, h) as i128).times(ratio).round().max(num(0x3f80_0000)).to_u32();
    let bottom: u32 = Single::from_int(side as i128).times(style.bottom_factor()).round().to_u32();
    Frame { side, bottom, shadow, round: find_radius(w, h, radius) }
}

/// The measures of a border round a picture.
pub fn measure_frame(style: &BorderStyle, w: u32, h: u32, radius: Option<Single>) -> (r: Option<Frame>)
    ensures
        r == frame_of(*style, w, h, radius),
{
    match style {
        BorderStyle::Plain => None,
        BorderStyle::White { width_ratio } => Some(
            find_frame(style, *width_ratio, false, w, h, radius),
        ),
        BorderStyle::Polaroid { width_ratio } => Some(
            find_frame(style, *width_ratio, true, w, h, radius),
        ),
    }
}

pub open spec fn spec_in_rounded_rect(x: u32, y: u32, r: u32, w: u32, h: u32, left: bool, top: bool) -> bool {
    let cx = if left {
        r - 1
    } else {
        w - r
    };
    let cy = if top {
        r - 1
    } else {
        h - r
    };
    let dx = Single::spec_from_int(x - cx);
    let dy = Single::spec_from_int(y - cy);
    let d = Single::spec_from_int(r as int);
    dx.times(dx).plus(dy.times(dy)).le(d.times(d))
}

/// A pixel lies within the quarter circle of a corner: its distance to the circle's centre is at
/// most the radius.
pub fn in_rounded_rect(x: u32, y: u32, r: u32, w: u32, h: u32, left: bool, top: bool) -> (inside: bool)
    ensures
        inside == spec_in_rounded_rect(x, y, r, w, h, left, top),
{
    let cx: i128 = if left {
        r as i128 - 1
    } else {
        w as i128 - r as i128
    };
    let cy: i128 = if top {
        r as i128 - 1
    } else {
        h as i128 - r as i128
    };
    let dx: Single = Single::from_int(x as i128 - cx);
    let dy: Single = Single::from_int(y as i128 - cy);
    let d: Single = Single::from_int(r as i128);
    dx.times(dx).plus(dy.times(dy)).le(d.times(d))
}

/// A pixel of the picture is cut off by a round corner.
pub open spec fn cut_off(x: u32, y: u32, r: u32, w: u32, h: u32) -> bool {
    r > 0 && {
        ||| x < r && y < r && !spec_in_rounded_rect(x, y, r, w, h, true, true)
        ||| x >= w - r && y < r && !spec_in_rounded_rect(x, y, r, w, h, false, true)
        ||| x < r && y >= h - r && !spec_in_rounded_rect(x, y, r, w, h, true, false)
        ||| x >= w - r && y >= h - r && !spec_in_rounded_rect(x, y, r, w, h, false, false)
    }
}

fn is_cut_off(x: u32, y: u32, r: u32, w: u32, h: u32) -> (b: bool)
    requires
        r <= w,
        r <= h,
    ensures
        b == cut_off(x, y, r, w, h),
{
    r > 0 && ((x < r && y < r && !in_rounded_rect(x, y, r, w, h, true, true)) || (x >= w - r && y
        < r && !in_rounded_rect(x, y, r, w, h, false, true)) || (x < r && y >= h - r
        && !in_rounded_rect(x, y, r, w, h, true, false)) || (x >= w - r && y >= h - r
        && !in_rounded_rect(x, y, r, w, h, false, false)))
}

/// How much a row of the shadow is darkened, counted from the bottom.
pub open spec fn shade(row: int) -> int {
    3 * row / 2
}

/// One channel of a bordered picture: the picture inside the border but for cut corners, white
/// outside, and a shadow of up to twenty rows at the bottom.
pub open spec fn framed_at(img: RgbImage, f: Frame, x: int, y: int, c: int) -> int {
    let height = img.height + f.side + f.bottom;
    let px = x - f.side;
    let py = y - f.side;
    let row = height - 1 - y;
    let deep = if f.bottom < 20 {
        f.bottom as int
    } else {
        20
    };
    if 0 <= px < img.width && 0 <= py < img.height {
        if cut_off(px as u32, py as u32, f.round, img.width, img.height) {
            255
        } else {
            img.at(px, py, c) as int
        }
    } else if f.shadow && row < deep {
        255 - shade(row)
    } else {
        255
    }
}

/// The border fits: the sides of the bordered picture and its bytes are within the limits.
pub open spec fn frame_fits(w: u32, h: u32, f: Frame) -> bool {
    &&& w + 2 * f.side <= u32::MAX
    &&& h + f.side + f.bottom <= u32::MAX
    &&& (w + 2 * f.side) * (h + f.side + f.bottom) * 3 <= usize::MAX
    &&& f.round <= w
    &&& f.round <= h
}

fn frame_byte(img: &RgbImage, f: &Frame, x: u32, y: u32, c: usize) -> (r: u8)
    requires
        img.wf(),
        frame_fits(img.width, img.height, *f),
        y < img.height + f.side + f.bottom,
        c < 3,
    ensures
        r == framed_at(*img, *f, x as int, y as int, c as int),
{
    if x >= f.side && y >= f.side {
        let px: u32 = x - f.side;
        let py: u32 = y - f.side;
        if px < img.width && py < img.height {
            if is_cut_off(px, py, f.round, img.width, img.height) {
                return 255;
            }
            let i: usize = img.offset(px, py);
            return img.data[i + c];
        }
    }
    let row: u32 = img.height + f.side + f.bottom - 1 - y;
    if f.shadow && row < 20 && row < f.bottom {
        255 - (3 * row / 2) as u8
    } else {
        255
    }
}

/// Paints a border round a picture.
pub fn paint_frame(img: &RgbImage, f: &Frame) -> (r: RgbImage)
    requires
        img.wf(),
        frame_fits(img.width, img.height, *f),
    ensures
        r.wf(),
        r.width == img.width + 2 * f.side,
        r.height == img.height + f.side + f.bottom,
        forall|x: int, y: int, c: int|
            0 <= x < r.width && 0 <= y < r.height && 0 <= c < 3 ==> #[trigger] r.at(x, y, c)
                == framed_at(*img, *f, x, y, c),
{
    let width: u32 = img.width + f.side + f.side;
    let height: u32 = img.height + f.side + f.bottom;
    proof {
        lemma_area_fits(width, height);
    }
    let mut data: Vec<u8> = Vec::new();
    let mut y: u32 = 0;
    while y < height
        invariant
            y <= height,
            width == img.width + 2 * f.side,
            height == img.height + f.side + f.bottom,
            img.wf(),
            frame_fits(img.width, img.height, *f),
            data@.len() == y * width * 3,
            forall|i: int, j: int, c: int|
                0 <= i < width && 0 <= j < y && 0 <= c < 3 ==> #[trigger] data@[offset3(
                    width as int,
                    i,
                    j,
                    c,
                )] == framed_at(*img, *f, i, j, c),
        decreases height - y,
    {
        let mut x: u32 = 0;
        while x < width
            invariant
                x <= width,
                y < height,
                width == img.width + 2 * f.side,
                height == img.height + f.side + f.bottom,
                img.wf(),
                frame_fits(img.width, img.height, *f),
                data@.len() == (y * width + x) * 3,
                forall|i: int, j: int, c: int|
                    0 <= i < width && 0 <= j < height && 0 <= c < 3 && (j < y || j == y && i < x)
                        ==> #[trigger] data@[offset3(width as int, i, j, c)] == framed_at(
                        *img,
                        *f,
                        i,
                        j,
                        c,
                    ),
            decreases width - x,
        {
            let ghost before = data@;
            data.push(frame_byte(img, f, x, y, 0));
            data.push(frame_byte(img, f, x, y, 1));
            data.push(frame_byte(img, f, x, y, 2));
            proof {
                assert forall|i: int, j: int, c: int|
                    0 <= i < width && 0 <= j < height && 0 <= c < 3 && (j < y || j == y && i <= x)
                    implies #[trigger] data@[offset3(width as int, i, j, c)] == framed_at(
                    *img,
                    *f,
                    i,
                    j,
                    c,
                ) by {
                    if j < y {
                        assert((j * width + i) * 3 + c < (y * width + x) * 3) by (nonlinear_arith)
                            requires
                                0 <= j < y,
                                0 <= i < width,
                                0 <= c < 3,
                                0 <= x,
                        ;
                        assert((j * width + i) * 3 + c >= 0) by (nonlinear_arith)
                            requires
                                0 <= j,
                                0 <= i < width,
                                0 <= c,
                        ;
                    }
                    if j == y && i < x {
                        assert((j * width + i) * 3 + c >= 0) by (nonlinear_arith)
                            requires
                                0 <= j,
                                0 <= i < width,
                                0 <= c,
                        ;
                        assert(offset3(width as int, i, j, c) < before.len());
                    }
                    if j < y || i < x {
                        assert(data@[offset3(width as int, i, j, c)] == before[offset3(
                            width as int,
                            i,
                            j,
                            c,
                        )]);
                    } else {
                        assert(offset3(width as int, i, j, c) == before.len() + c);
                    }
                }
            }
            x = x + 1;
        }
        proof {
            assert((y * width + width) * 3 == (y + 1) * width * 3) by (nonlinear_arith);
        }
        y = y + 1;
    }
    proof {
        assert(height * width * 3 == width * height * 3) by (nonlinear_arith);
    }
    RgbImage { width, height, data }
}

/// A picture and whether it is written with an opaque alpha channel.
#[derive(Debug)]
pub struct Framed {
    pub image: RgbImage,
    pub alpha: bool,
}

/// Adds the border to a picture. A bordered picture has an alpha channel.
pub fn add_border(img: &RgbImage, style: &BorderStyle, radius: Option<Single>) -> (r: Framed)
    requires
        img.wf(),
        frame_of(*style, img.width, img.height, radius) matches Some(f) ==> frame_fits(
            img.width,
            img.height,
            f,
        ),
    ensures
        r.image.wf(),
        match frame_of(*style, img.width, img.height, radius) {
            None => !r.alpha && r.image.width == img.width && r.image.height == img.height
                && r.image.data@ == img.data@,
            Some(f) => r.alpha && r.image.width == img.width + 2 * f.side && r.image.height
                == img.height + f.side + f.bottom && (forall|x: int, y: int, c: int|
                0 <= x < r.image.width && 0 <= y < r.image.height && 0 <= c < 3
                    ==> #[trigger] r.image.at(x, y, c) == framed_at(*img, f, x, y, c)),
        },
{
    match measure_frame(style, img.width, img.height, radius) {
        None => Framed { image: img.clone(), alpha: false },
        Some(f) => Framed { image: paint_frame(img, &f), alpha: true },
    }
}

/// Inside the border a picture is as it was, but for its round corners.
pub proof fn law_border_keeps_picture(img: RgbImage, f: Frame, x: int, y: int, c: int)
    requires
        0 <= x < img.width,
        0 <= y < img.height,
        f.round == 0,
    ensures
        framed_at(img, f, x + f.side, y + f.side, c) == img.at(x, y, c),
{
}

/// Dots per inch as a file can hold them: at most 65535.
pub open spec fn density(dpi: u32) -> int {
    if dpi > 65535 {
        65535
    } else {
        dpi as int
    }
}

/// A number below 65536 as two bytes, the higher one first.
pub open spec fn big_endian(n: int) -> Seq<u8> {
    seq![(n / 256) as u8, (n % 256) as u8]
}

/// The segment with the density that begins a file, behind the start marker: its version, its
/// unit, which is one for dots per inch, the density both ways, and no small picture.
pub open spec fn density_segment(dpi: u32) -> Seq<u8> {
    seq![0xffu8, 0xe0u8] + big_endian(16) + seq![
        0x4au8,
        0x46u8,
        0x49u8,
        0x46u8,
        0u8,
        1u8,
        1u8,
        1u8,
    ] + big_endian(density(dpi)) + big_endian(density(dpi)) + seq![0u8, 0u8]
}

/// The segment with a camera's data. Its length is kept in two bytes, the rest of it is lost.
pub open spec fn exif_segment(exif: Seq<u8>) -> Seq<u8> {
    seq![0xffu8, 0xe1u8] + big_endian((exif.len() + 2) as int % 65536) + exif
}

/// What follows the start marker of a file; all of it where there is no such marker.
pub open spec fn after_start(jpeg: Seq<u8>) -> Seq<u8> {
    if jpeg.len() >= 2 && jpeg[0] == 0xff && jpeg[1] == 0xd8 {
        jpeg.skip(2)
    } else {
        jpeg
    }
}

/// A file with metadata: start marker, density, camera data where there are any, and the rest.
pub open spec fn jpeg_with_metadata(jpeg: Seq<u8>, exif: Option<Seq<u8>>, dpi: u32) -> Seq<u8> {
    let head = seq![0xffu8, 0xd8u8] + density_segment(dpi);
    match exif {
        Some(e) => head + exif_segment(e) + after_start(jpeg),
        None => head + after_start(jpeg),
    }
}

fn push_all(out: &mut Vec<u8>, bytes: &Vec<u8>, from: usize)
    requires
        from <= bytes@.len(),
    ensures
        final(out)@ == old(out)@ + bytes@.skip(from as int),
{
    let mut i: usize = from;
    while i < bytes.len()
        invariant
            from <= i <= bytes@.len(),
            out@ =~= old(out)@ + bytes@.subrange(from as int, i as int),
        decreases bytes@.len() - i,
    {
        out.push(bytes[i]);
        i = i + 1;
    }
    assert(bytes@.skip(from as int) =~= bytes@.subrange(from as int, bytes@.len() as int));
}

fn push_big_endian(out: &mut Vec<u8>, n: u32)
    requires
        n < 65536,
    ensures
        final(out)@ == old(out)@ + big_endian(n as int),
{
    out.push((n / 256) as u8);
    out.push((n % 256) as u8);
    assert(out@ =~= old(out)@ + big_endian(n as int));
}

/// Puts the metadata into an encoded file.
pub fn build_jpeg_with_metadata(jpeg: &Vec<u8>, exif: Option<&Vec<u8>>, dpi: u32) -> (r: Vec<u8>)
    ensures
        r@ == jpeg_with_metadata(
            jpeg@,
            match exif {
                Some(e) => Some(e@),
                None => None,
            },
            dpi,
        ),
{
    let d: u32 = if dpi > 65535 {
        65535
    } else {
        dpi
    };
    let mut out: Vec<u8> = Vec::new();
    out.push(0xff);
    out.push(0xd8);
    out.push(0xff);
    out.push(0xe0);
    push_big_endian(&mut out, 16);
    out.push(0x4a);
    out.push(0x46);
    out.push(0x49);
    out.push(0x46);
    out.push(0);
    out.push(1);
    out.push(1);
    out.push(1);
    push_big_endian(&mut out, d);
    push_big_endian(&mut out, d);
    out.push(0);
    out.push(0);
    assert(out@ =~= seq![0xffu8, 0xd8u8] + density_segment(dpi));
    if let Some(e) = exif {
        let ghost head = out@;
        let n: usize = e.len();
        let len: u32 = ((n % 65536) as u32 + 2) % 65536;
        assert(len == (n + 2) % 65536);
        out.push(0xff);
        out.push(0xe1);
        push_big_endian(&mut out, len);
        push_all(&mut out, e, 0);
        assert(e@.skip(0) =~= e@);
        assert(out@ =~= head + exif_segment(e@));
    }
    let start: usize = if jpeg.len() >= 2 && jpeg[0] == 0xff && jpeg[1] == 0xd8 {
        2
    } else {
        0
    };
    push_all(&mut out, jpeg, start);
    assert(jpeg@.skip(0) =~= jpeg@);
    out
}

/// The length that a segment gives for itself.
pub open spec fn segment_length(data: Seq<u8>, at: int) -> int {
    data[at + 2] * 256 + data[at + 3]
}

/// The camera data that are found from a place on: the first segment for them that the file
/// holds whole. The search ends where no segment begins and where the picture begins.
pub open spec fn exif_from(data: Seq<u8>, at: int) -> Option<Seq<u8>>
    decreases data.len() - at,
{
    if at < 0 || at + 4 > data.len() || data[at] != 0xff || data[at + 1] == 0xda {
        None
    } else {
        let len = segment_length(data, at);
        if data[at + 1] == 0xe1 && len >= 2 && at + 2 + len <= data.len() {
            Some(data.subrange(at + 4, at + 2 + len))
        } else if at + 2 + len > data.len() {
            None
        } else {
            exif_from(data, at + 2 + len)
        }
    }
}

/// The camera data of a file.
pub open spec fn exif_of(data: Seq<u8>) -> Option<Seq<u8>> {
    if data.len() < 4 || data[0] != 0xff || data[1] != 0xd8 {
        None
    } else {
        exif_from(data, 2)
    }
}

/// Finds the camera data in the bytes of a file.
pub fn find_exif(data: &Vec<u8>) -> (r: Option<Vec<u8>>)
    ensures
        match r {
            Some(v) => exif_of(data@) == Some(v@),
            None => exif_of(data@) is None,
        },
{
    if data.len() < 4 || data[0] != 0xff || data[1] != 0xd8 {
        return None;
    }
    let n: usize = data.len();
    let mut at: usize = 2;
    while at <= n - 4
        invariant
            n == data@.len(),
            n >= 4,
            at <= n,
            exif_of(data@) == exif_from(data@, at as int),
        decreases n - at,
    {
        if data[at] != 0xff || data[at + 1] == 0xda {
            return None;
        }
        let len: usize = (data[at + 2] as usize) * 256 + data[at + 3] as usize;
        if data[at + 1] == 0xe1 && len >= 2 && 2 + len <= n - at {
            let mut v: Vec<u8> = Vec::new();
            let mut i: usize = at + 4;
            while i < at + 2 + len
                invariant
                    at + 4 <= i <= at + 2 + len <= n,
                    n == data@.len(),
                    v@ =~= data@.subrange(at + 4, i as int),
                decreases at + 2 + len - i,
            {
                v.push(data[i]);
                i = i + 1;
            }
            return Some(v);
        }
        if 2 + len > n - at {
            return None;
        }
        at = at + 2 + len;
    }
    None
}

/// Whether a file's extension is one of JPEG files, in upper or lower case.
pub fn is_jpeg_ext(ext: &str) -> (r: bool)
    ensures
        r == (same_word(ext@, "jpg"@) || same_word(ext@, "jpeg"@)),
{
    is_word(ext, "jpg") || is_word(ext, "jpeg")
}

/// The camera data that were put into a file are found in it.
pub proof fn law_exif_reads_back(jpeg: Seq<u8>, exif: Seq<u8>, dpi: u32)
    requires
        exif.len() + 2 < 65536,
    ensures
        exif_of(jpeg_with_metadata(jpeg, Some(exif), dpi)) == Some(exif),
{
    let head = seq![0xffu8, 0xd8u8] + density_segment(dpi);
    let all = jpeg_with_metadata(jpeg, Some(exif), dpi);
    let n = exif.len() as int;
    assert(head.len() == 20);
    assert(all.len() >= 24 + n);
    assert(all[0] == 0xff && all[1] == 0xd8 && all[2] == 0xff && all[3] == 0xe0);
    assert(all[4] == 0 && all[5] == 16);
    assert(segment_length(all, 2) == 16);
    assert(all[20] == 0xff && all[21] == 0xe1);
    assert(all[22] == ((n + 2) / 256) as u8 && all[23] == ((n + 2) % 256) as u8);
    assert(segment_length(all, 20) == n + 2);
    assert(exif_from(all, 2) == exif_from(all, 20));
    assert(all.subrange(24, 24 + n) =~= exif);
}

/// The bytes of a picture as a JPEG file.
pub uninterp spec fn jpeg_bytes(data: Seq<u8>, width: u32, height: u32, quality: u8) -> Seq<u8>;

/// Encodes a picture: `image::codecs::jpeg::JpegEncoder::encode` with a quality. The contract
/// gives the bytes a name. It claims that they begin with the start marker where both sides are
/// from 1 to 65535, and that there are none otherwise.
#[verifier::external_body]
pub(crate) fn encode_rgb_jpeg(img: &RgbImage, quality: u8) -> (r: Vec<u8>)
    requires
        img.wf(),
    ensures
        r@ == jpeg_bytes(img.data@, img.width, img.height, quality),
        0 < img.width <= 65535 && 0 < img.height <= 65535 ==> r@.len() >= 2 && r@[0] == 0xff
            && r@[1] == 0xd8,
        !(0 < img.width <= 65535 && 0 < img.height <= 65535) ==> r@.len() == 0,
{
    let mut out = Vec::new();
    let mut enc = image::codecs::jpeg::JpegEncoder::new_with_quality(&mut out, quality);
    let _ = enc.encode(&img.data, img.width, img.height, image::ExtendedColorType::Rgb8);
    out
}

/// The bytes of a picture of three channels as a PNG file.
pub uninterp spec fn png_rgb_bytes(data: Seq<u8>, width: u32, height: u32) -> Seq<u8>;

/// Encodes a picture of three channels: `image::DynamicImage::write_to` in the PNG format. The
/// contract gives the bytes a name.
#[verifier::external_body]
fn encode_rgb_png(data: Vec<u8>, width: u32, height: u32) -> (r: Vec<u8>)
    requires
        data@.len() == width * height * 3,
    ensures
        r@ == png_rgb_bytes(data@, width, height),
{
    let buf = image::RgbImage::from_raw(width, height, data).unwrap();
    let mut out = std::io::Cursor::new(Vec::new());
    let _ = image::DynamicImage::ImageRgb8(buf).write_to(&mut out, image::ImageFormat::Png);
    out.into_inner()
}

/// The bytes of a picture of four channels as a PNG file.
pub uninterp spec fn png_rgba_bytes(data: Seq<u8>, width: u32, height: u32) -> Seq<u8>;

/// Encodes a picture of four channels: `image::DynamicImage::write_to` in the PNG format. The
/// contract gives the bytes a name.
#[verifier::external_body]
fn encode_rgba_png(data: Vec<u8>, width: u32, height: u32) -> (r: Vec<u8>)
    requires
        data@.len() == width * height * 4,
    ensures
        r@ == png_rgba_bytes(data@, width, height),
{
    let buf = image::RgbaImage::from_raw(width, height, data).unwrap();
    let mut out = std::io::Cursor::new(Vec::new());
    let _ = image::DynamicImage::ImageRgba8(buf).write_to(&mut out, image::ImageFormat::Png);
    out.into_inner()
}

/// Bytes of three channels with an opaque alpha channel behind each pixel.
pub open spec fn opaque(data: Seq<u8>) -> Seq<u8> {
    Seq::new(
        data.len() / 3 * 4,
        |i: int|
            if i % 4 == 3 {
                255u8
            } else {
                data[i / 4 * 3 + i % 4]
            },
    )
}

/// Adds an opaque alpha channel to bytes of three channels.
pub fn add_alpha(data: &Vec<u8>) -> (r: Vec<u8>)
    requires
        data@.len() % 3 == 0,
    ensures
        r@ == opaque(data@),
{
    let mut r: Vec<u8> = Vec::new();
    let n: usize = data.len() / 3;
    let mut k: usize = 0;
    while k < n
        invariant
            k <= n,
            data@.len() == 3 * n,
            r@.len() == 4 * k,
            forall|i: int| 0 <= i < 4 * k ==> #[trigger] r@[i] == opaque(data@)[i],
        decreases n - k,
    {
        let size: usize = data.len();
        r.push(data[3 * k]);
        r.push(data[3 * k + 1]);
        r.push(data[3 * k + 2]);
        r.push(255);
        k = k + 1;
    }
    assert(r@ =~= opaque(data@));
    r
}

/// The bytes of an exported file.
pub open spec fn encoded(f: Framed, cfg: ExportConfig, exif: Option<Seq<u8>>) -> Seq<u8> {
    match cfg.output_format {
        OutputFormat::Jpeg => jpeg_with_metadata(
            jpeg_bytes(f.image.data@, f.image.width, f.image.height, cfg.quality),
            exif,
            cfg.dpi,
        ),
        OutputFormat::Png => if f.alpha {
            png_rgba_bytes(opaque(f.image.data@), f.image.width, f.image.height)
        } else {
            png_rgb_bytes(f.image.data@, f.image.width, f.image.height)
        },
    }
}

/// Encodes a picture in the chosen format. A JPEG gets its density and the camera data.
pub fn encode_output(f: &Framed, cfg: &ExportConfig, exif: Option<&Vec<u8>>) -> (r: Vec<u8>)
    requires
        f.image.wf(),
    ensures
        r@ == encoded(
            *f,
            *cfg,
            match exif {
                Some(e) => Some(e@),
                None => None,
            },
        ),
{
    match cfg.output_format {
        OutputFormat::Jpeg => {
            let jpeg: Vec<u8> = encode_rgb_jpeg(&f.image, cfg.quality);
            build_jpeg_with_metadata(&jpeg, exif, cfg.dpi)
        },
        OutputFormat::Png => {
            let copy: RgbImage = f.image.clone();
            if f.alpha {
                proof {
                    assert(f.image.data@.len() % 3 == 0);
                    assert(f.image.data@.len() / 3 == f.image.width * f.image.height);
                }
                encode_rgba_png(add_alpha(&copy.data), copy.width, copy.height)
            } else {
                encode_rgb_png(copy.data, copy.width, copy.height)
            }
        },
    }
}

/// The stages of an export.
#[derive(Clone, Copy, Debug, PartialEq, Eq, Structural)]
pub enum ExportStage {
    /// The colours, upright and uncropped.
    Develop,
    Geometry,
    Heal,
    Resize,
    /// After a change of size, where that is set.
    Sharpen,
    Border,
    Encode,
    End,
}

/// The stage after `s`: spots are healed where there are any, and the size changes where one is
/// set.
pub open spec fn export_stage_after(s: ExportStage, spots: bool, limit: u32) -> ExportStage {
    let resize = if limit > 0 {
        ExportStage::Resize
    } else {
        ExportStage::Sharpen
    };
    match s {
        ExportStage::Develop => ExportStage::Geometry,
        ExportStage::Geometry => if spots {
            ExportStage::Heal
        } else {
            resize
        },
        ExportStage::Heal => resize,
        ExportStage::Resize => ExportStage::Sharpen,
        ExportStage::Sharpen => ExportStage::Border,
        ExportStage::Border => ExportStage::Encode,
        ExportStage::Encode => ExportStage::End,
        ExportStage::End => ExportStage::End,
    }
}

/// Says which stage of an export comes after `s`.
pub fn next_export_stage(s: ExportStage, spots: bool, limit: u32) -> (r: ExportStage)
    ensures
        r == export_stage_after(s, spots, limit),
{
    let resize: ExportStage = if limit > 0 {
        ExportStage::Resize
    } else {
        ExportStage::Sharpen
    };
    match s {
        ExportStage::Develop => ExportStage::Geometry,
        ExportStage::Geometry => if spots {
            ExportStage::Heal
        } else {
            resize
        },
        ExportStage::Heal => resize,
        ExportStage::Resize => ExportStage::Sharpen,
        ExportStage::Sharpen => ExportStage::Border,
        ExportStage::Border => ExportStage::Encode,
        ExportStage::Encode => ExportStage::End,
        ExportStage::End => ExportStage::End,
    }
}

/// The place of a stage in the order of an export.
pub open spec fn export_rank(s: ExportStage) -> nat {
    match s {
        ExportStage::Develop => 0,
        ExportStage::Geometry => 1,
        ExportStage::Heal => 2,
        ExportStage::Resize => 3,
        ExportStage::Sharpen => 4,
        ExportStage::Border => 5,
        ExportStage::Encode => 6,
        ExportStage::End => 7,
    }
}

/// The stages of an export come in one order and come to an end; only healing and the change of
/// size are ever left out.
pub proof fn law_export_stages_come_in_order(s: ExportStage, spots: bool, limit: u32)
    ensures
        ({
            let next = export_stage_after(s, spots, limit);
            &&& s != ExportStage::End ==> export_rank(s) < export_rank(next)
            &&& export_rank(s) < 4 ==> export_rank(next) <= 4
            &&& spots && s == ExportStage::Geometry ==> next == ExportStage::Heal
            &&& limit > 0 && export_rank(s) < 3 ==> export_rank(next) <= 3
            &&& export_rank(s) >= 4 && s != ExportStage::End ==> export_rank(next) == export_rank(s)
                + 1
        }),
{
}

} // verus!
