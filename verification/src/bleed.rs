use vstd::prelude::*;
use crate::raster::{Rgba, RgbaImage};

verus! {

/// Depth, in pixels, of the edge strips that are blurred to fill the bleed.
pub const EDGE_STRIP_DEPTH: u32 = 3;

/// The eight border regions of a card image that feed its bleed: the edge
/// strips along each side and the square blocks at each corner.
///
/// The strips and blocks are `d` pixels deep, where `d` is
/// `strip_depth(width, height)`. The same type carries them after they have
/// been blurred.
#[derive(Debug, Clone)]
pub struct EdgeRegions {
    pub top: RgbaImage,
    pub bottom: RgbaImage,
    pub left: RgbaImage,
    pub right: RgbaImage,
    pub top_left: RgbaImage,
    pub top_right: RgbaImage,
    pub bottom_left: RgbaImage,
    pub bottom_right: RgbaImage,
}

/// Depth of the strips taken from a `w` by `h` image: `EDGE_STRIP_DEPTH`,
/// but never more than the image is wide or tall.
pub open spec fn strip_depth(w: nat, h: nat) -> nat {
    let d = EDGE_STRIP_DEPTH as nat;
    let d = if w < d { w } else { d };
    if h < d { h } else { d }
}

pub open spec fn has_dims(img: RgbaImage, w: nat, h: nat) -> bool {
    img.spec_width() == w && img.spec_height() == h
}

/// `out` is the `w` by `h` block of `img` whose top-left pixel is `(x0, y0)`.
pub open spec fn is_crop(out: RgbaImage, img: RgbaImage, x0: int, y0: int, w: nat, h: nat) -> bool {
    &&& has_dims(out, w, h)
    &&& forall|x: int, y: int|
        0 <= x < w && 0 <= y < h ==> #[trigger] out.pixel(x, y) == img.pixel(x0 + x, y0 + y)
}

/// Each region of `r` has the size of the matching region of `img`.
pub open spec fn regions_shaped(img: RgbaImage, r: EdgeRegions) -> bool {
    let w = img.spec_width();
    let h = img.spec_height();
    let d = strip_depth(w, h);
    &&& has_dims(r.top, w, d)
    &&& has_dims(r.bottom, w, d)
    &&& has_dims(r.left, d, h)
    &&& has_dims(r.right, d, h)
    &&& has_dims(r.top_left, d, d)
    &&& has_dims(r.top_right, d, d)
    &&& has_dims(r.bottom_left, d, d)
    &&& has_dims(r.bottom_right, d, d)
}

/// `r` holds exactly the border regions of `img`: the top and bottom `d`
/// rows, the left and right `d` columns, and the four `d` by `d` corners.
pub open spec fn are_edge_regions(img: RgbaImage, r: EdgeRegions) -> bool {
    let w = img.spec_width();
    let h = img.spec_height();
    let d = strip_depth(w, h);
    &&& is_crop(r.top, img, 0, 0, w, d)
    &&& is_crop(r.bottom, img, 0, h - d, w, d)
    &&& is_crop(r.left, img, 0, 0, d, h)
    &&& is_crop(r.right, img, w - d, 0, d, h)
    &&& is_crop(r.top_left, img, 0, 0, d, d)
    &&& is_crop(r.top_right, img, w - d, 0, d, d)
    &&& is_crop(r.bottom_left, img, 0, h - d, d, d)
    &&& is_crop(r.bottom_right, img, w - d, h - d, d, d)
}

/// The pixel at `(x, y)` of `img` after `b` pixels of bleed are added on
/// every side, where `blurred` holds the blurred border regions of `img`.
///
/// The card image sits unchanged in the middle. Each side band repeats
/// the innermost row (or column) of the blurred strip on that side, and each
/// corner square is filled with the centre pixel of the blurred corner block.
/// An image with no pixels gets a transparent black border.
pub open spec fn bleed_pixel(img: RgbaImage, b: int, blurred: EdgeRegions, x: int, y: int) -> Rgba {
    let w = img.spec_width() as int;
    let h = img.spec_height() as int;
    let d = strip_depth(w as nat, h as nat) as int;
    let c = d / 2;
    let in_x = b <= x < b + w;
    let in_y = b <= y < b + h;
    if in_x && in_y {
        img.pixel(x - b, y - b)
    } else if d == 0 {
        [0u8, 0u8, 0u8, 0u8]
    } else if in_x && y < b {
        blurred.top.pixel(x - b, d - 1)
    } else if in_x {
        blurred.bottom.pixel(x - b, 0)
    } else if in_y && x < b {
        blurred.left.pixel(d - 1, y - b)
    } else if in_y {
        blurred.right.pixel(0, y - b)
    } else if x < b && y < b {
        blurred.top_left.pixel(c, c)
    } else if y < b {
        blurred.top_right.pixel(c, c)
    } else if x < b {
        blurred.bottom_left.pixel(c, c)
    } else {
        blurred.bottom_right.pixel(c, c)
    }
}

/// The card sits unchanged in the middle of its bled image: the pixel at
/// `(x, y)` of the card is at `(x + b, y + b)` after `b` pixels of bleed,
/// whatever the blurred borders hold; with no bleed the bled image is the
/// card itself.
pub proof fn lemma_bleed_keeps_card(img: RgbaImage, b: nat, blurred: EdgeRegions, x: int, y: int)
    requires
        0 <= x < img.spec_width(),
        0 <= y < img.spec_height(),
    ensures
        bleed_pixel(img, b as int, blurred, x + b, y + b) == img.pixel(x, y),
        bleed_pixel(img, 0, blurred, x, y) == img.pixel(x, y),
{
}

/// Cuts the border regions that `apply_bleed_to_thumbnail` needs blurred.
pub fn edge_regions(img: &RgbaImage) -> (r: EdgeRegions)
    ensures
        are_edge_regions(*img, r),
        regions_shaped(*img, r),
{
    let (w, h) = img.dimensions();
    let d = if EDGE_STRIP_DEPTH < w { EDGE_STRIP_DEPTH } else { w };
    let d = if d < h { d } else { h };
    EdgeRegions {
        top: img.crop(0, 0, w, d),
        bottom: img.crop(0, h - d, w, d),
        left: img.crop(0, 0, d, h),
        right: img.crop(w - d, 0, d, h),
        top_left: img.crop(0, 0, d, d),
        top_right: img.crop(w - d, 0, d, d),
        bottom_left: img.crop(0, h - d, d, d),
        bottom_right: img.crop(w - d, h - d, d, d),
    }
}

fn bleed_pixel_at(img: &RgbaImage, b: u32, blurred: &EdgeRegions, x: u32, y: u32) -> (p: Rgba)
    requires
        regions_shaped(*img, *blurred),
        x < img.spec_width() + 2 * b,
        y < img.spec_height() + 2 * b,
    ensures
        p == bleed_pixel(*img, b as int, *blurred, x as int, y as int),
{
    let (w, h) = img.dimensions();
    let d = if EDGE_STRIP_DEPTH < w { EDGE_STRIP_DEPTH } else { w };
    let d = if d < h { d } else { h };
    let c = d / 2;
    let in_x = b <= x && x - b < w;
    let in_y = b <= y && y - b < h;
    if in_x && in_y {
        img.get_pixel(x - b, y - b)
    } else if d == 0 {
        [0u8, 0u8, 0u8, 0u8]
    } else if in_x && y < b {
        blurred.top.get_pixel(x - b, d - 1)
    } else if in_x {
        blurred.bottom.get_pixel(x - b, 0)
    } else if in_y && x < b {
        blurred.left.get_pixel(d - 1, y - b)
    } else if in_y {
        blurred.right.get_pixel(0, y - b)
    } else if x < b && y < b {
        blurred.top_left.get_pixel(c, c)
    } else if y < b {
        blurred.top_right.get_pixel(c, c)
    } else if x < b {
        blurred.bottom_left.get_pixel(c, c)
    } else {
        blurred.bottom_right.get_pixel(c, c)
    }
}

/// Extends a card image by `bleed_pixels` on every side.
///
/// `blurred` holds the border regions of `img` (see `edge_regions`) after
/// a Gaussian blur; each side band repeats the blurred edge next to it and
/// each corner square takes the centre of its blurred corner block, so the
/// bleed continues the card's border without hard seams. With no bleed the
/// result is a copy of `img`.
pub fn apply_bleed_to_thumbnail(img: &RgbaImage, bleed_pixels: u32, blurred: &EdgeRegions) -> (out: RgbaImage)
    requires
        regions_shaped(*img, *blurred),
        img.spec_width() + 2 * bleed_pixels <= u32::MAX,
        img.spec_height() + 2 * bleed_pixels <= u32::MAX,
    ensures
        out.spec_width() == img.spec_width() + 2 * bleed_pixels,
        out.spec_height() == img.spec_height() + 2 * bleed_pixels,
        forall|x: int, y: int|
            0 <= x < out.spec_width() && 0 <= y < out.spec_height() ==> #[trigger] out.pixel(x, y)
                == bleed_pixel(*img, bleed_pixels as int, *blurred, x, y),
{
    let (w, h) = img.dimensions();
    let nw = w + 2 * bleed_pixels;
    let nh = h + 2 * bleed_pixels;
    let mut rows: Vec<Vec<Rgba>> = Vec::new();
    for y in 0..nh
        invariant
            regions_shaped(*img, *blurred),
            w == img.spec_width(),
            h == img.spec_height(),
            nw == w + 2 * bleed_pixels,
            nh == h + 2 * bleed_pixels,
            rows@.len() == y,
            forall|j: int| 0 <= j < y ==> #[trigger] rows@[j]@.len() == nw,
            forall|i: int, j: int|
                0 <= i < nw && 0 <= j < y ==> #[trigger] rows@[j]@[i] == bleed_pixel(
                    *img,
                    bleed_pixels as int,
                    *blurred,
                    i,
                    j,
                ),
    {
        let mut row: Vec<Rgba> = Vec::new();
        for x in 0..nw
            invariant
                regions_shaped(*img, *blurred),
                w == img.spec_width(),
                h == img.spec_height(),
                nw == w + 2 * bleed_pixels,
                nh == h + 2 * bleed_pixels,
                y < nh,
                row@.len() == x,
                forall|i: int| 0 <= i < x ==> #[trigger] row@[i] == bleed_pixel(
                    *img,
                    bleed_pixels as int,
                    *blurred,
                    i,
                    y as int,
                ),
        {
            row.push(bleed_pixel_at(img, bleed_pixels, blurred, x, y));
        }
        rows.push(row);
    }
    // every row was built `nw` pixels long, and there are `nh` of them
    let out = RgbaImage::from_rows(nw, rows);
    assert(out.is_some());
    out.unwrap()
}

} // verus!
