use vstd::prelude::*;
use std::path::PathBuf;
use std::time::SystemTime;
use crate::raster::RgbaImage;

verus! {

#[verifier::external_type_specification]
#[verifier::external_body]
pub struct ExSystemTime(SystemTime);

/// `SystemTime::clone` (std): `SystemTime` is `Copy`, so the copy is the
/// same instant and is taken to equal the value cloned.
pub assume_specification[ <SystemTime as Clone>::clone ](t: &SystemTime) -> (res: SystemTime)
    ensures
        res == *t,
;

/// What a cached thumbnail depends on: the file, when it was last modified,
/// and every processing setting (bleed on or off and its width; sharpening
/// on or off, its amount, radius and threshold), the numbers rounded so
/// that equal settings give equal keys.
#[derive(Debug, Clone, PartialEq, Eq, Hash)]
pub struct CacheKey {
    path: PathBuf,
    modified_time: SystemTime,
    bleed_enabled: bool,
    bleed_mm_rounded: u32,
    sharpen_enabled: bool,
    sharpen_amount_rounded: u32,
    sharpen_radius_rounded: u32,
    sharpen_threshold_rounded: u32,
}

impl CacheKey {
    /// The key of the thumbnail of the file at `path`, last modified at
    /// `modified_time`, made with bleed `bleed_enabled` of
    /// `bleed_mm_rounded` tenths of a millimetre and sharpening
    /// `sharpen_enabled` of strength `sharpen_amount_rounded` hundredths,
    /// radius `sharpen_radius_rounded` hundredths of a pixel and threshold
    /// `sharpen_threshold_rounded` thousandths.
    pub fn new(
        path: PathBuf,
        modified_time: SystemTime,
        bleed_enabled: bool,
        bleed_mm_rounded: u32,
        sharpen_enabled: bool,
        sharpen_amount_rounded: u32,
        sharpen_radius_rounded: u32,
        sharpen_threshold_rounded: u32,
    ) -> (k: Self)
        ensures
            k.spec_path() == path,
            k.spec_modified_time() == modified_time,
            k.spec_bleed() == (bleed_enabled, bleed_mm_rounded),
            k.spec_sharpen() == (
                sharpen_enabled,
                sharpen_amount_rounded,
                sharpen_radius_rounded,
                sharpen_threshold_rounded,
            ),
    {
        CacheKey {
            path,
            modified_time,
            bleed_enabled,
            bleed_mm_rounded,
            sharpen_enabled,
            sharpen_amount_rounded,
            sharpen_radius_rounded,
            sharpen_threshold_rounded,
        }
    }

    pub closed spec fn spec_path(&self) -> PathBuf {
        self.path
    }

    pub closed spec fn spec_modified_time(&self) -> SystemTime {
        self.modified_time
    }

    pub closed spec fn spec_bleed(&self) -> (bool, u32) {
        (self.bleed_enabled, self.bleed_mm_rounded)
    }

    pub closed spec fn spec_sharpen(&self) -> (bool, u32, u32, u32) {
        (
            self.sharpen_enabled,
            self.sharpen_amount_rounded,
            self.sharpen_radius_rounded,
            self.sharpen_threshold_rounded,
        )
    }

    /// The image file the key is for.
    pub fn path(&self) -> (p: &PathBuf)
        ensures
            *p == self.spec_path(),
    {
        &self.path
    }
}

/// The outcome of building one thumbnail.
#[derive(Debug, Clone)]
pub enum ThumbnailResult {
    Success(RgbaImage),
    Error(String),
}

} // verus!
