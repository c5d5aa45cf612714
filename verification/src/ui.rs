use vstd::prelude::*;
use std::path::PathBuf;
use crate::text::{chars_of, decimal, decimal_chars, extend_chars, string_from_chars};
use crate::google_drive::{spec_secs_since_epoch, timestamp_now};
use std::time::SystemTime;

verus! {

broadcast use vstd::string::group_string_axioms;

/// The page sizes offered in the user interface.
#[derive(Debug, Clone, Copy, PartialEq, Eq)]
pub enum PageSizeOption {
    A4,
    USLetter,
    A3,
    Custom,
}

/// The card sizes offered in the user interface.
#[derive(Debug, Clone, Copy, PartialEq, Eq)]
pub enum CardSizeOption {
    Poker,
    Bridge,
    Tarot,
    Custom,
}

impl PageSizeOption {
    pub fn display_name(&self) -> (s: &'static str)
        ensures
            s@ == match *self {
                PageSizeOption::A4 => "A4 (210 × 297 mm)"@,
                PageSizeOption::USLetter => "US Letter (215.9 × 279.4 mm)"@,
                PageSizeOption::A3 => "A3 (297 × 420 mm)"@,
                PageSizeOption::Custom => "Custom"@,
            },
    {
        match self {
            PageSizeOption::A4 => "A4 (210 × 297 mm)",
            PageSizeOption::USLetter => "US Letter (215.9 × 279.4 mm)",
            PageSizeOption::A3 => "A3 (297 × 420 mm)",
            PageSizeOption::Custom => "Custom",
        }
    }
}

impl CardSizeOption {
    pub fn display_name(&self) -> (s: &'static str)
        ensures
            s@ == match *self {
                CardSizeOption::Poker => "Poker Card (63 × 88 mm)"@,
                CardSizeOption::Bridge => "Bridge Card (56 × 87 mm)"@,
                CardSizeOption::Tarot => "Tarot Card (70 × 120 mm)"@,
                CardSizeOption::Custom => "Custom"@,
            },
    {
        match self {
            CardSizeOption::Poker => "Poker Card (63 × 88 mm)",
            CardSizeOption::Bridge => "Bridge Card (56 × 87 mm)",
            CardSizeOption::Tarot => "Tarot Card (70 × 120 mm)",
            CardSizeOption::Custom => "Custom",
        }
    }
}

/// One image the color editor can page through: a card front or a back image.
#[derive(Debug, Clone)]
pub struct PreviewEntry {
    pub path: PathBuf,
    pub is_back: bool,
}

/// What the user asked for on the decklist panel during one frame.
#[derive(Debug, Clone, Copy, Default)]
pub struct DecklistPanelActions {
    pub browse_marvel_dir_clicked: bool,
    pub api_key_changed: bool,
    pub marvel_dir_changed: bool,
    pub google_drive_api_key_changed: bool,
    pub google_drive_folder_url_changed: bool,
    pub start_build_drive_index: bool,
}

/// The formats pages can be exported to.
#[derive(Debug, Clone, Copy, PartialEq, Eq)]
pub enum ExportFormat {
    Svg,
    Pdf,
}

impl ExportFormat {
    pub fn label(self) -> (s: &'static str)
        ensures
            s@ == match self {
                ExportFormat::Svg => "SVG"@,
                ExportFormat::Pdf => "PDF"@,
            },
    {
        match self {
            ExportFormat::Svg => "SVG",
            ExportFormat::Pdf => "PDF",
        }
    }
}

/// How an age of `secs` seconds is shown: "just now" under a minute, then
/// whole minutes, hours or days.
pub open spec fn age_text(secs: nat) -> Seq<char> {
    if secs < 60 {
        "just now"@
    } else if secs < 3600 {
        decimal(secs / 60) + " min ago"@
    } else if secs < 86400 {
        decimal(secs / 3600) + " hours ago"@
    } else {
        decimal(secs / 86400) + " days ago"@
    }
}

/// `a - b`, or zero when `b` is larger.
pub open spec fn saturating_diff(a: nat, b: nat) -> nat {
    if a >= b {
        (a - b) as nat
    } else {
        0
    }
}

/// An age of `age_secs` seconds in words; see `age_text`.
pub fn format_age(age_secs: u64) -> (s: String)
    ensures
        s@ == age_text(age_secs as nat),
{
    if age_secs < 60 {
        return string_from_chars(&chars_of("just now"));
    }
    let (n, unit) = if age_secs < 3600 {
        (age_secs / 60, " min ago")
    } else if age_secs < 86400 {
        (age_secs / 3600, " hours ago")
    } else {
        (age_secs / 86400, " days ago")
    };
    let mut out = decimal_chars(n);
    extend_chars(&mut out, &chars_of(unit));
    string_from_chars(&out)
}

/// How long ago the Drive index was built, given when (`updated_at`,
/// seconds since the Unix epoch), read against the clock.
pub fn format_index_age(updated_at: u64) -> (s: String)
    ensures
        exists|t: SystemTime|
            s@ == age_text(saturating_diff(spec_secs_since_epoch(t) as nat, updated_at as nat)),
{
    let now = timestamp_now();
    let age = if now >= updated_at { now - updated_at } else { 0 };
    let s = format_age(age);
    assert(s@ == age_text(saturating_diff(now as nat, updated_at as nat)));
    s
}

} // verus!
