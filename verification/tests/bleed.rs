use tcg_layout::bleed::{apply_bleed_to_thumbnail, edge_regions, EdgeRegions};
use tcg_layout::raster::RgbaImage;

/// Sigma of the Gaussian blur that softens the edge strips.
const BLUR_SIGMA: f32 = 1.5;

fn to_buffer(img: &RgbaImage) -> image::RgbaImage {
    let (w, h) = img.dimensions();
    image::ImageBuffer::from_fn(w, h, |x, y| image::Rgba(img.get_pixel(x, y)))
}

fn from_buffer(buf: &image::RgbaImage) -> RgbaImage {
    let mut out = RgbaImage::new(buf.width(), buf.height());
    for y in 0..buf.height() {
        for x in 0..buf.width() {
            out.put_pixel(x, y, buf.get_pixel(x, y).0);
        }
    }
    out
}

fn blurred(img: &RgbaImage) -> RgbaImage {
    let (w, h) = img.dimensions();
    if w == 0 || h == 0 {
        return img.clone();
    }
    from_buffer(&image::imageops::blur(&to_buffer(img), BLUR_SIGMA))
}

fn blur_regions(r: &EdgeRegions) -> EdgeRegions {
    EdgeRegions {
        top: blurred(&r.top),
        bottom: blurred(&r.bottom),
        left: blurred(&r.left),
        right: blurred(&r.right),
        top_left: blurred(&r.top_left),
        top_right: blurred(&r.top_right),
        bottom_left: blurred(&r.bottom_left),
        bottom_right: blurred(&r.bottom_right),
    }
}

fn bleed(img: &RgbaImage, bleed_pixels: u32) -> RgbaImage {
    apply_bleed_to_thumbnail(img, bleed_pixels, &blur_regions(&edge_regions(img)))
}

fn from_fn(w: u32, h: u32, f: impl Fn(u32, u32) -> [u8; 4]) -> RgbaImage {
    let mut img = RgbaImage::new(w, h);
    for y in 0..h {
        for x in 0..w {
            img.put_pixel(x, y, f(x, y));
        }
    }
    img
}

#[test]
fn test_apply_bleed_to_thumbnail_dimensions() {
    let img = from_fn(100, 100, |x, y| {
        if x < 50 && y < 50 {
            [255, 0, 0, 255]
        } else if x >= 50 && y < 50 {
            [0, 255, 0, 255]
        } else if x < 50 && y >= 50 {
            [0, 0, 255, 255]
        } else {
            [255, 255, 0, 255]
        }
    });
    let bleed_img = bleed(&img, 10);
    assert_eq!(bleed_img.dimensions(), (120, 120));
}

#[test]
fn test_apply_bleed_to_thumbnail_zero_bleed() {
    let img = from_fn(50, 50, |_, _| [128, 128, 128, 255]);
    let bleed_img = bleed(&img, 0);
    assert_eq!(img.dimensions(), bleed_img.dimensions());
    assert_eq!(img, bleed_img);
}

#[test]
fn test_edge_extension() {
    let mut img = RgbaImage::new(2, 2);
    img.put_pixel(0, 0, [255, 0, 0, 255]);
    img.put_pixel(1, 0, [0, 255, 0, 255]);
    img.put_pixel(0, 1, [0, 0, 255, 255]);
    img.put_pixel(1, 1, [255, 255, 0, 255]);

    let bleed_img = bleed(&img, 1);
    assert_eq!(bleed_img.dimensions(), (4, 4));

    for (x, y) in [(0, 0), (3, 0), (0, 3), (3, 3)] {
        let corner = bleed_img.get_pixel(x, y);
        assert!(
            corner[0] > 0 || corner[1] > 0 || corner[2] > 0,
            "corner ({x}, {y}) should have some color"
        );
        assert!(corner[3] == 255, "Alpha should be preserved");
    }

    assert_eq!(bleed_img.get_pixel(1, 1), [255, 0, 0, 255]);
    assert_eq!(bleed_img.get_pixel(2, 1), [0, 255, 0, 255]);
    assert_eq!(bleed_img.get_pixel(1, 2), [0, 0, 255, 255]);
    assert_eq!(bleed_img.get_pixel(2, 2), [255, 255, 0, 255]);
}

#[test]
fn test_top_edge_replication() {
    let mut img = RgbaImage::new(3, 2);
    img.put_pixel(0, 0, [255, 0, 0, 255]);
    img.put_pixel(1, 0, [255, 0, 0, 255]);
    img.put_pixel(2, 0, [255, 0, 0, 255]);
    img.put_pixel(0, 1, [0, 0, 0, 255]);
    img.put_pixel(1, 1, [0, 0, 0, 255]);
    img.put_pixel(2, 1, [0, 0, 0, 255]);

    let bleed_img = bleed(&img, 2);

    for x in 2..5 {
        for y in 0..2 {
            let pixel = bleed_img.get_pixel(x, y);
            assert!(
                pixel[0] > pixel[1] && pixel[0] > pixel[2] && pixel[0] > 50,
                "Top edge bleed should be predominantly red at ({x}, {y}), got {pixel:?}"
            );
            assert!(pixel[3] == 255, "Alpha should be preserved");
        }
    }
}

#[test]
fn test_left_edge_replication() {
    let mut img = RgbaImage::new(2, 3);
    img.put_pixel(0, 0, [255, 0, 0, 255]);
    img.put_pixel(0, 1, [255, 0, 0, 255]);
    img.put_pixel(0, 2, [255, 0, 0, 255]);
    img.put_pixel(1, 0, [0, 0, 0, 255]);
    img.put_pixel(1, 1, [0, 0, 0, 255]);
    img.put_pixel(1, 2, [0, 0, 0, 255]);

    let bleed_img = bleed(&img, 2);

    for y in 2..5 {
        for x in 0..2 {
            let pixel = bleed_img.get_pixel(x, y);
            assert!(
                pixel[0] > pixel[1] && pixel[0] > pixel[2] && pixel[0] > 50,
                "Left edge bleed should be predominantly red at ({x}, {y}), got {pixel:?}"
            );
            assert!(pixel[3] == 255, "Alpha should be preserved");
        }
    }
}

#[test]
fn bleed_keeps_card_in_the_middle() {
    let img = from_fn(7, 5, |x, y| [(x * 30) as u8, (y * 40) as u8, 7, 255]);
    let out = bleed(&img, 3);
    assert_eq!(out.dimensions(), (13, 11));
    for y in 0..5 {
        for x in 0..7 {
            assert_eq!(out.get_pixel(x + 3, y + 3), img.get_pixel(x, y));
        }
    }
}

#[test]
fn bleed_bands_repeat_blurred_edges() {
    let img = from_fn(6, 6, |x, y| [(x * 40) as u8, (y * 40) as u8, 200, 255]);
    let regions = blur_regions(&edge_regions(&img));
    let out = apply_bleed_to_thumbnail(&img, 2, &regions);
    for x in 0..6 {
        // top band repeats the innermost row of the blurred top strip
        assert_eq!(out.get_pixel(x + 2, 0), regions.top.get_pixel(x, 2));
        assert_eq!(out.get_pixel(x + 2, 1), regions.top.get_pixel(x, 2));
        // bottom band repeats the first row of the blurred bottom strip
        assert_eq!(out.get_pixel(x + 2, 9), regions.bottom.get_pixel(x, 0));
    }
    for y in 0..6 {
        assert_eq!(out.get_pixel(0, y + 2), regions.left.get_pixel(2, y));
        assert_eq!(out.get_pixel(9, y + 2), regions.right.get_pixel(0, y));
    }
    assert_eq!(out.get_pixel(0, 0), regions.top_left.get_pixel(1, 1));
    assert_eq!(out.get_pixel(9, 0), regions.top_right.get_pixel(1, 1));
    assert_eq!(out.get_pixel(0, 9), regions.bottom_left.get_pixel(1, 1));
    assert_eq!(out.get_pixel(9, 9), regions.bottom_right.get_pixel(1, 1));
}

#[test]
fn edge_regions_cut_the_border() {
    let img = from_fn(5, 4, |x, y| [x as u8, y as u8, 0, 255]);
    let r = edge_regions(&img);
    assert_eq!(r.top.dimensions(), (5, 3));
    assert_eq!(r.bottom.dimensions(), (5, 3));
    assert_eq!(r.left.dimensions(), (3, 4));
    assert_eq!(r.right.dimensions(), (3, 4));
    assert_eq!(r.top_left.dimensions(), (3, 3));
    assert_eq!(r.bottom.get_pixel(0, 0), [0, 1, 0, 255]);
    assert_eq!(r.right.get_pixel(0, 0), [2, 0, 0, 255]);
    assert_eq!(r.bottom_right.get_pixel(2, 2), [4, 3, 0, 255]);
}

#[test]
fn bleed_of_tiny_image_uses_its_size_as_depth() {
    let img = from_fn(1, 1, |_, _| [10, 20, 30, 255]);
    let r = edge_regions(&img);
    assert_eq!(r.top.dimensions(), (1, 1));
    let out = apply_bleed_to_thumbnail(&img, 1, &r);
    for y in 0..3 {
        for x in 0..3 {
            assert_eq!(out.get_pixel(x, y), [10, 20, 30, 255]);
        }
    }
}

#[test]
fn bleed_of_empty_image_is_transparent() {
    let img = RgbaImage::new(0, 0);
    let out = apply_bleed_to_thumbnail(&img, 2, &edge_regions(&img));
    assert_eq!(out.dimensions(), (4, 4));
    assert_eq!(out.get_pixel(1, 1), [0, 0, 0, 0]);
}
