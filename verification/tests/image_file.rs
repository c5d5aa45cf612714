use tcg_layout::image_file::{guess_image_format, png_walk_in_bounds};
use std::path::PathBuf;
use image::ImageFormat;
use tcg_layout::image_file::{
    detect_image_format, extract_dpi_from_metadata, extract_tiff_dpi, png_pixels_per_meter,
    ImageFormatError, ImageMetadata,
};
use tcg_layout::image_file::{dpi_from_exif_resolution, extract_dpi_from_exif, ExifResolution};

#[test]
fn only_jpeg_png_tiff_are_accepted() {
    assert_eq!(detect_image_format(Some(ImageFormat::Png)), Ok(ImageFormat::Png));
    assert_eq!(detect_image_format(Some(ImageFormat::Tiff)), Ok(ImageFormat::Tiff));
    assert_eq!(detect_image_format(Some(ImageFormat::Jpeg)), Ok(ImageFormat::Jpeg));
    assert_eq!(detect_image_format(Some(ImageFormat::Gif)), Err(ImageFormatError::Unsupported));
    assert_eq!(detect_image_format(Some(ImageFormat::Bmp)), Err(ImageFormatError::Unsupported));
    assert_eq!(detect_image_format(None), Err(ImageFormatError::Undetected));
}

#[test]
fn dpi_sources_in_order() {
    assert_eq!(extract_dpi_from_metadata(Some(300), Some(ImageFormat::Png), Some(72)), Some(300));
    assert_eq!(extract_dpi_from_metadata(None, Some(ImageFormat::Png), Some(72)), Some(72));
    assert_eq!(extract_dpi_from_metadata(None, Some(ImageFormat::Jpeg), Some(72)), None);
    assert_eq!(extract_dpi_from_metadata(None, Some(ImageFormat::Tiff), Some(72)), None);
    assert_eq!(extract_dpi_from_metadata(None, Some(ImageFormat::Gif), Some(72)), None);
    assert_eq!(extract_dpi_from_metadata(None, None, Some(72)), None);
    assert_eq!(extract_tiff_dpi(), None);
}

#[test]
fn effective_dpi_falls_back_to_72() {
    let meta = ImageMetadata {
        format: ImageFormat::Png,
        dimensions: (10, 20),
        dpi: None,
        file_size: 5,
    };
    assert_eq!(meta.effective_dpi(), 72);
    let meta = ImageMetadata { dpi: Some(600), ..meta.clone() };
    assert_eq!(meta.effective_dpi(), 600);
}

fn chunk(kind: &[u8; 4], data: &[u8]) -> Vec<u8> {
    let mut c = (data.len() as u32).to_be_bytes().to_vec();
    c.extend_from_slice(kind);
    c.extend_from_slice(data);
    c.extend_from_slice(&[0, 0, 0, 0]);
    c
}

fn png(chunks: &[Vec<u8>]) -> Vec<u8> {
    let mut b = vec![0x89, b'P', b'N', b'G', 0x0d, 0x0a, 0x1a, 0x0a];
    for c in chunks {
        b.extend_from_slice(c);
    }
    b
}

#[test]
fn png_phys_chunk_is_found() {
    let ihdr = chunk(b"IHDR", &[0; 13]);
    let mut phys = 11811u32.to_be_bytes().to_vec();
    phys.extend_from_slice(&11811u32.to_be_bytes());
    phys.push(1);
    let data = png(&[ihdr.clone(), chunk(b"pHYs", &phys), chunk(b"IEND", &[])]);
    assert_eq!(png_pixels_per_meter(&data), Some(11811));

    // unit 0 (aspect ratio only) records no resolution
    let mut unknown = phys.clone();
    unknown[8] = 0;
    let data = png(&[ihdr.clone(), chunk(b"pHYs", &unknown), chunk(b"IEND", &[])]);
    assert_eq!(png_pixels_per_meter(&data), None);

    let data = png(&[ihdr, chunk(b"IEND", &[])]);
    assert_eq!(png_pixels_per_meter(&data), None);
    assert_eq!(png_pixels_per_meter(&vec![1, 2, 3]), None);
}


/// A little-endian TIFF holding one SHORT attribute `tag` of value `value`.
fn tiff_with(tag: u16, value: u16) -> Vec<u8> {
    let mut b = vec![0x49, 0x49, 0x2a, 0x00, 0x08, 0x00, 0x00, 0x00];
    b.extend_from_slice(&1u16.to_le_bytes());
    b.extend_from_slice(&tag.to_le_bytes());
    b.extend_from_slice(&3u16.to_le_bytes());
    b.extend_from_slice(&1u32.to_le_bytes());
    b.extend_from_slice(&(value as u32).to_le_bytes());
    b.extend_from_slice(&0u32.to_le_bytes());
    b
}

#[test]
fn exif_resolution_is_read() {
    assert_eq!(extract_dpi_from_exif(&tiff_with(0x011a, 300)), Some(300));
    // only the vertical resolution recorded: it is used
    assert_eq!(extract_dpi_from_exif(&tiff_with(0x011b, 150)), Some(150));
    // another attribute only: no resolution
    assert_eq!(extract_dpi_from_exif(&tiff_with(0x0100, 640)), None);
    assert_eq!(extract_dpi_from_exif(&vec![0, 1, 2, 3]), None);
}

#[test]
fn truncated_phys_chunk_is_out_of_bounds() {
    let ihdr = chunk(b"IHDR", &[0; 13]);
    let mut phys = 11811u32.to_be_bytes().to_vec();
    phys.extend_from_slice(&11811u32.to_be_bytes());
    phys.push(1);
    let good = png(&[ihdr.clone(), chunk(b"pHYs", &phys)]);
    assert!(png_walk_in_bounds(&good));
    // cut the file off before the unit byte of the pHYs chunk
    let cut = good[..good.len() - 6].to_vec();
    assert!(!png_walk_in_bounds(&cut));
    assert!(png_walk_in_bounds(&vec![1, 2, 3]));
}

#[test]
fn exif_resolution_prefers_across() {
    let both = ExifResolution { x: Some(300), y: Some(600) };
    assert_eq!(dpi_from_exif_resolution(Some(both)), Some(300));
    let down = ExifResolution { x: None, y: Some(600) };
    assert_eq!(dpi_from_exif_resolution(Some(down)), Some(600));
    let neither = ExifResolution { x: None, y: None };
    assert_eq!(dpi_from_exif_resolution(Some(neither)), None);
    assert_eq!(dpi_from_exif_resolution(None), None);
}

#[test]
fn format_is_guessed_from_the_extension() {
    assert_eq!(guess_image_format(&PathBuf::from("cards/a.JPG")), Ok(ImageFormat::Jpeg));
    assert_eq!(guess_image_format(&PathBuf::from("a.jpeg")), Ok(ImageFormat::Jpeg));
    assert_eq!(guess_image_format(&PathBuf::from("a.png")), Ok(ImageFormat::Png));
    assert_eq!(guess_image_format(&PathBuf::from("a.tif")), Ok(ImageFormat::Tiff));
    assert_eq!(guess_image_format(&PathBuf::from("a.gif")), Err(ImageFormatError::Unsupported));
    assert_eq!(guess_image_format(&PathBuf::from("a.txt")), Err(ImageFormatError::Undetected));
    assert_eq!(guess_image_format(&PathBuf::from("noext")), Err(ImageFormatError::Undetected));
}
