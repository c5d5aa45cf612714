use vstd::prelude::*;
use std::path::PathBuf;
use crate::marvelcdb::{file_stem, spec_file_stem};
use crate::types::Card;

verus! {

broadcast use vstd::string::group_string_axioms;

/// Extension used for saved project files, without the leading dot.
pub const PROJECT_FILE_EXTENSION: &'static str = "tcgproj";

/// The copy count of a saved card that does not record one.
pub fn default_copy_count() -> (n: u32)
    ensures
        n == 1,
{
    1
}

/// A card as saved in a project file: just enough to rebuild a `Card` on
/// load. Thumbnails, DPI, etc. are re-derived from disk, not persisted.
#[derive(Debug, Clone, PartialEq)]
pub struct ProjectCard {
    pub path: PathBuf,
    pub back_path: Option<PathBuf>,
    pub copy_count: u32,
}

/// What a project file records of `card`.
pub open spec fn saved(card: Card) -> ProjectCard {
    ProjectCard { path: card.path, back_path: card.back_path, copy_count: card.copy_count }
}

impl ProjectCard {
    /// The card rebuilt from what was saved, its file recording a
    /// resolution of `exif_dpi`.
    pub open spec fn rebuilt(self, exif_dpi: Option<u32>) -> Card {
        Card {
            back_path: self.back_path,
            copy_count: if self.copy_count < 1 { 1 } else { self.copy_count },
            ..Card::new_spec(self.path, exif_dpi)
        }
    }

    /// What a project file records of `card`.
    pub fn from_card(card: &Card) -> (pc: Self)
        ensures
            pc == saved(*card),
    {
        ProjectCard {
            path: card.path.clone(),
            back_path: card.back_path.clone(),
            copy_count: card.copy_count,
        }
    }

    /// Rebuilds the card, given the resolution its file records
    /// (`exif_dpi`, `None` when it records none or cannot be read). A file
    /// that has moved or been deleted still gives a card; loading its
    /// thumbnail is what surfaces the failure.
    pub fn to_card(&self, exif_dpi: Option<u32>) -> (card: Card)
        ensures
            card == self.rebuilt(exif_dpi),
    {
        let mut card = Card::new(self.path.clone(), exif_dpi);
        card.back_path = self.back_path.clone();
        card.set_copy_count(self.copy_count);
        card
    }
}

impl<'a> From<&'a Card> for ProjectCard {
    fn from(card: &'a Card) -> (pc: Self) {
        ProjectCard::from_card(card)
    }
}

impl<'a> vstd::std_specs::convert::FromSpecImpl<&'a Card> for ProjectCard {
    open spec fn obeys_from_spec() -> bool {
        true
    }

    open spec fn from_spec(card: &'a Card) -> Self {
        saved(*card)
    }
}

/// Saving a card in a project and loading it back gives its file, its
/// back image and its copy count again (for a card printed at least once;
/// a card saved with no copies comes back with one).
pub proof fn lemma_saved_card_round_trip(card: Card, exif_dpi: Option<u32>)
    ensures
        saved(card).rebuilt(exif_dpi).path == card.path,
        saved(card).rebuilt(exif_dpi).back_path == card.back_path,
        card.copy_count >= 1 ==> saved(card).rebuilt(exif_dpi).copy_count == card.copy_count,
        saved(card).rebuilt(exif_dpi).copy_count >= 1,
{
}

/// The label a project file is shown by: its file stem, or the whole path
/// when it has none.
pub open spec fn project_label(path: Seq<char>) -> Seq<char> {
    match spec_file_stem(path) {
        Some(s) => s,
        None => path,
    }
}

/// The project file's name without extension, used as a window-title /
/// display label; see `project_label`.
pub fn display_name(path: &str) -> (s: String)
    ensures
        s@ == project_label(path@),
{
    match file_stem(path) {
        Some(s) => s,
        None => path.to_owned(),
    }
}

} // verus!
