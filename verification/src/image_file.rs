use vstd::prelude::*;
use image::ImageFormat;
use std::path::PathBuf;

verus! {

#[verifier::external_type_specification]
#[verifier::external_body]
pub struct ExImageFormat(ImageFormat);

/// `ImageFormat::clone` (image): the format is a field-less `Copy` enum,
/// so the copy is the same format.
pub assume_specification[ <ImageFormat as Clone>::clone ](f: &ImageFormat) -> (res: ImageFormat)
    ensures
        res == *f,
;

/// The image formats card scans are read in, and every other format.
#[derive(Debug, Clone, Copy, PartialEq, Eq)]
pub enum FormatKind {
    Jpeg,
    Png,
    Tiff,
    Other,
}

/// Which of the supported formats `format` is (image's `ImageFormat`
/// variants `Jpeg`, `Png` and `Tiff`), or `Other`.
pub uninterp spec fn spec_format_kind(format: ImageFormat) -> FormatKind;

/// Tells the variants of image's `ImageFormat` apart: `Jpeg`, `Png` and
/// `Tiff` map to the kinds of the same name, every other variant to `Other`.
/// The result is named for the format value, which Verus cannot look into.
#[verifier::external_body]
pub(crate) fn format_kind(format: &ImageFormat) -> (k: FormatKind)
    ensures
        k == spec_format_kind(*format),
{
    match format {
        ImageFormat::Jpeg => FormatKind::Jpeg,
        ImageFormat::Png => FormatKind::Png,
        ImageFormat::Tiff => FormatKind::Tiff,
        _ => FormatKind::Other,
    }
}

/// What is known of an image file: its format, pixel size, resolution (if
/// known) and size in bytes.
#[derive(Debug)]
pub struct ImageMetadata {
    pub format: ImageFormat,
    pub dimensions: (u32, u32),
    pub dpi: Option<u32>,
    pub file_size: u64,
}

/// The resolution an image is assumed to have when nothing records one.
pub const FALLBACK_DPI: u32 = 72;

impl Clone for ImageMetadata {
    fn clone(&self) -> (res: Self)
        ensures
            res == *self,
    {
        ImageMetadata {
            format: self.format.clone(),
            dimensions: (self.dimensions.0, self.dimensions.1),
            dpi: self.dpi,
            file_size: self.file_size,
        }
    }
}

impl ImageMetadata {
    /// The recorded resolution, or `FALLBACK_DPI`.
    pub fn effective_dpi(&self) -> (d: u32)
        ensures
            d == match self.dpi {
                Some(d) => d,
                None => FALLBACK_DPI,
            },
    {
        match self.dpi {
            Some(d) => d,
            None => FALLBACK_DPI,
        }
    }
}

/// Why an image file is not accepted.
#[derive(Debug, Clone, PartialEq, Eq)]
pub enum ImageFormatError {
    /// The format could not be told from the file.
    Undetected,
    /// The format is neither JPEG, PNG nor TIFF.
    Unsupported,
}

/// Whether the detected format `detected` is one card images are read in:
/// `Undetected` where none was detected, `Unsupported` for any format but
/// JPEG, PNG and TIFF, otherwise the format.
pub open spec fn accepted_format(detected: Option<ImageFormat>) -> Result<ImageFormat, ImageFormatError> {
    match detected {
        None => Err(ImageFormatError::Undetected),
        Some(f) => if spec_format_kind(f) == FormatKind::Other {
            Err(ImageFormatError::Unsupported)
        } else {
            Ok(f)
        },
    }
}

/// Accepts the formats card images are read in (JPEG, PNG and TIFF), given
/// the format detected in a file (`None` when none was); see
/// `accepted_format`.
pub fn detect_image_format(detected: Option<ImageFormat>) -> (r: Result<ImageFormat, ImageFormatError>)
    ensures
        r == accepted_format(detected),
{
    match detected {
        None => Err(ImageFormatError::Undetected),
        Some(f) => match format_kind(&f) {
            FormatKind::Other => Err(ImageFormatError::Unsupported),
            _ => Ok(f),
        },
    }
}

/// The format image guesses from the file extension of `path`, if it
/// knows the extension.
pub uninterp spec fn spec_format_from_path(path: PathBuf) -> Option<ImageFormat>;

/// `ImageFormat::from_path` (image): the format named by the extension of
/// `path`, compared without regard to ASCII case (`jpg`, `jpeg` and `jfif`
/// are JPEG, `png` and `apng` PNG, `tif` and `tiff` TIFF, and so on);
/// `None` where the path has no extension, or one that is not UTF-8 or
/// names no format. This is the format `ImageReader::open` reports.
#[verifier::external_body]
fn format_from_path(path: &PathBuf) -> (r: Option<ImageFormat>)
    ensures
        r == spec_format_from_path(*path),
{
    ImageFormat::from_path(path).ok()
}

/// The format of the image file at `path`, as told by its extension and
/// accepted only for JPEG, PNG and TIFF; see `accepted_format`.
pub fn guess_image_format(path: &PathBuf) -> (r: Result<ImageFormat, ImageFormatError>)
    ensures
        r == accepted_format(spec_format_from_path(*path)),
{
    detect_image_format(format_from_path(path))
}

// --- EXIF ---

/// The resolution attributes of the primary image that an image file's
/// EXIF data holds: the first value of `XResolution` (pixels per unit
/// across) and of `YResolution` (down), each where it is present and an
/// unsigned integer (BYTE, SHORT or LONG).
#[derive(Debug, Clone, Copy, PartialEq, Eq)]
pub struct ExifResolution {
    pub x: Option<u32>,
    pub y: Option<u32>,
}

/// The resolution attributes kamadak-exif reads from the image file
/// `bytes`, or `None` where it finds no EXIF data in them.
pub uninterp spec fn spec_exif_resolution(bytes: Seq<u8>) -> Option<ExifResolution>;

/// `exif::Reader::read_from_container` (kamadak-exif) over the bytes of an
/// image file (TIFF, JPEG, HEIF, PNG or WebP), `None` where it gives an
/// error; then `Exif::get_field` for `XResolution` and `YResolution` of the
/// primary image and `Value::get_uint(0)` of each field found. Only these
/// two numbers leave the call, and they depend on the bytes alone.
#[verifier::external_body]
fn read_exif_resolution(bytes: &Vec<u8>) -> (r: Option<ExifResolution>)
    ensures
        r == spec_exif_resolution(bytes@),
{
    let exif = exif::Reader::new().read_from_container(&mut std::io::Cursor::new(bytes.as_slice())).ok()?;
    let x = exif.get_field(exif::Tag::XResolution, exif::In::PRIMARY).and_then(|f| f.value.get_uint(0));
    let y = exif.get_field(exif::Tag::YResolution, exif::In::PRIMARY).and_then(|f| f.value.get_uint(0));
    Some(ExifResolution { x, y })
}

/// The resolution EXIF attributes record: across when they give it,
/// otherwise down.
pub open spec fn exif_dpi(res: Option<ExifResolution>) -> Option<u32> {
    match res {
        None => None,
        Some(r) => match r.x {
            Some(d) => Some(d),
            None => r.y,
        },
    }
}

/// The resolution that the EXIF resolution attributes `res` of a file
/// record; see `exif_dpi`.
pub fn dpi_from_exif_resolution(res: Option<ExifResolution>) -> (d: Option<u32>)
    ensures
        d == exif_dpi(res),
{
    match res {
        None => None,
        Some(r) => match r.x {
            Some(d) => Some(d),
            None => r.y,
        },
    }
}

/// The resolution the EXIF attributes of the image file `bytes` record;
/// see `exif_dpi`.
pub fn extract_dpi_from_exif(bytes: &Vec<u8>) -> (d: Option<u32>)
    ensures
        d == exif_dpi(spec_exif_resolution(bytes@)),
{
    dpi_from_exif_resolution(read_exif_resolution(bytes))
}

/// The resolution a file records: its EXIF resolution when it has one,
/// otherwise, for a PNG, the resolution its `pHYs` chunk gives; other
/// formats record none elsewhere.
pub open spec fn recorded_dpi(exif_dpi: Option<u32>, kind: Option<FormatKind>, png_dpi: Option<u32>) -> Option<u32> {
    match exif_dpi {
        Some(d) => Some(d),
        None => match kind {
            Some(FormatKind::Png) => png_dpi,
            _ => None,
        },
    }
}

/// The kind of a detected format, if one was detected.
pub open spec fn detected_kind(format: Option<ImageFormat>) -> Option<FormatKind> {
    match format {
        Some(f) => Some(spec_format_kind(f)),
        None => None,
    }
}

/// The resolution a file records, given what its EXIF data
/// (`exif_dpi`), its detected format (`format`) and its PNG `pHYs` chunk
/// (`png_dpi`) say; see `recorded_dpi`.
pub fn extract_dpi_from_metadata(exif_dpi: Option<u32>, format: Option<ImageFormat>, png_dpi: Option<u32>) -> (d: Option<u32>)
    ensures
        d == recorded_dpi(exif_dpi, detected_kind(format), png_dpi),
{
    if let Some(d) = exif_dpi {
        return Some(d);
    }
    let kind = match format {
        Some(f) => Some(format_kind(&f)),
        None => None,
    };
    match kind {
        Some(FormatKind::Png) => png_dpi,
        Some(FormatKind::Tiff) => extract_tiff_dpi(),
        _ => None,
    }
}

/// TIFF resolution outside the EXIF data is not read: there is none.
pub fn extract_tiff_dpi() -> (d: Option<u32>)
    ensures
        d.is_none(),
{
    None
}

// --- PNG `pHYs` chunk ---

/// The big-endian 32-bit number in `b[i..i + 4]`.
pub open spec fn be_u32(b: Seq<u8>, i: int) -> nat {
    b[i] as nat * 16777216 + b[i + 1] as nat * 65536 + b[i + 2] as nat * 256 + b[i + 3] as nat
}

/// How many bytes of `b` lie at or after `pos`.
pub open spec fn bytes_left(b: Seq<u8>, pos: nat) -> nat {
    if pos < b.len() { (b.len() - pos) as nat } else { 0 }
}

/// Whether the chunk type at `b[i + 4..i + 8]` is `pHYs`.
pub open spec fn is_phys_at(b: Seq<u8>, i: int) -> bool {
    b[i + 4] == 0x70u8 && b[i + 5] == 0x48u8 && b[i + 6] == 0x59u8 && b[i + 7] == 0x73u8
}

/// The horizontal pixels per metre of the first `pHYs` chunk with its unit
/// set to metres, walking the chunks of the PNG data `b` from offset `pos`.
/// A chunk is 12 bytes of framing around its data, and the walk stops
/// when fewer than 9 bytes are left at `pos`.
pub open spec fn phys_pixels_per_meter(b: Seq<u8>, pos: nat) -> Option<nat>
    decreases bytes_left(b, pos),
{
    if pos + 8 >= b.len() {
        None
    } else {
        let len = be_u32(b, pos as int);
        if is_phys_at(b, pos as int) && len >= 9 && b[pos as int + 16] == 1u8 {
            Some(be_u32(b, pos as int + 8))
        } else {
            phys_pixels_per_meter(b, pos + 12 + len)
        }
    }
}

/// The walk of `phys_pixels_per_meter` never meets a `pHYs` chunk that
/// claims 9 or more bytes of data but is cut off before its unit byte.
pub open spec fn phys_walk_in_bounds(b: Seq<u8>, pos: nat) -> bool
    decreases bytes_left(b, pos),
{
    if pos + 8 >= b.len() {
        true
    } else {
        let len = be_u32(b, pos as int);
        if is_phys_at(b, pos as int) && len >= 9 {
            pos + 16 < b.len() && (b[pos as int + 16] == 1u8 || phys_walk_in_bounds(b, pos + 12 + len))
        } else {
            phys_walk_in_bounds(b, pos + 12 + len)
        }
    }
}

fn be_u32_at(b: &Vec<u8>, i: usize) -> (v: u64)
    requires
        i + 4 <= b.len(),
    ensures
        v == be_u32(b@, i as int),
        v <= u32::MAX,
{
    let b0 = b[i] as u64;
    let b1 = b[i + 1] as u64;
    let b2 = b[i + 2] as u64;
    let b3 = b[i + 3] as u64;
    assert(b0 * 16777216 + b1 * 65536 + b2 * 256 + b3 <= u32::MAX) by (nonlinear_arith)
        requires
            b0 <= 255,
            b1 <= 255,
            b2 <= 255,
            b3 <= 255,
    ;
    b0 * 16777216 + b1 * 65536 + b2 * 256 + b3
}

/// Whether reading the `pHYs` chunk of the PNG data `buffer` stays inside
/// it (see `phys_walk_in_bounds`); reading a `pHYs` chunk that is cut off
/// before its unit byte runs off the end of the data.
pub fn png_walk_in_bounds(buffer: &Vec<u8>) -> (b: bool)
    ensures
        b == phys_walk_in_bounds(buffer@, 8),
{
    let n = buffer.len() as u128;
    let mut pos: u128 = 8;
    while pos + 8 < n
        invariant
            n == buffer@.len(),
            n <= usize::MAX,
            8 <= pos,
            pos <= n + 12 + u32::MAX,
            phys_walk_in_bounds(buffer@, 8) == phys_walk_in_bounds(buffer@, pos as nat),
        decreases n + 12 + u32::MAX - pos,
    {
        let p = pos as usize;
        let len = be_u32_at(buffer, p);
        if buffer[p + 4] == 0x70u8 && buffer[p + 5] == 0x48u8 && buffer[p + 6] == 0x59u8
            && buffer[p + 7] == 0x73u8 && len >= 9 {
            if pos + 16 >= n {
                return false;
            }
            if buffer[p + 16] == 1u8 {
                return true;
            }
        }
        pos = pos + 12 + len as u128;
    }
    true
}

/// The horizontal pixels per metre that the PNG data `buffer` records in a
/// `pHYs` chunk whose unit is metres, walking its chunks from the first
/// one past the 8-byte signature; see `phys_pixels_per_meter`.
pub fn png_pixels_per_meter(buffer: &Vec<u8>) -> (r: Option<u32>)
    requires
        phys_walk_in_bounds(buffer@, 8),
    ensures
        match r {
            Some(v) => phys_pixels_per_meter(buffer@, 8) == Some(v as nat),
            None => phys_pixels_per_meter(buffer@, 8).is_none(),
        },
{
    let n = buffer.len() as u128;
    let mut pos: u128 = 8;
    while pos + 8 < n
        invariant
            n == buffer@.len(),
            n <= usize::MAX,
            8 <= pos,
            pos <= n + 12 + u32::MAX,
            phys_walk_in_bounds(buffer@, pos as nat),
            phys_pixels_per_meter(buffer@, 8) == phys_pixels_per_meter(buffer@, pos as nat),
        decreases n + 12 + u32::MAX - pos,
    {
        let p = pos as usize;
        let len = be_u32_at(buffer, p);
        if buffer[p + 4] == 0x70u8 && buffer[p + 5] == 0x48u8 && buffer[p + 6] == 0x59u8
            && buffer[p + 7] == 0x73u8 && len >= 9 {
            if buffer[p + 16] == 1u8 {
                let v = be_u32_at(buffer, p + 8);
                return Some(v as u32);
            }
        }
        pos = pos + 12 + len as u128;
    }
    None
}

} // verus!
