use vstd::prelude::*;
use std::path::PathBuf;
use crate::raster::RgbaImage;

verus! {

#[verifier::external_type_specification]
#[verifier::external_body]
pub struct ExPathBuf(PathBuf);

/// `PathBuf::clone` (std): the copy holds the same path as the value cloned,
/// so it is taken to equal it.
pub assume_specification[ <PathBuf as Clone>::clone ](p: &PathBuf) -> (res: PathBuf)
    ensures
        res == *p,
;

/// Order in which cards fill the grid slots of a page.
#[derive(Debug, Clone, Copy, PartialEq, Eq, Default)]
pub enum FillOrder {
    #[default]
    RowMajor,
    ColumnMajor,
}

#[derive(Debug, Clone, Copy, PartialEq, Eq, Default)]
pub enum PageOrientation {
    #[default]
    Portrait,
    Landscape,
}

/// Which edge the sheet is flipped along when printing double-sided.
/// Determines the mirror axis for back-page card positions.
#[derive(Debug, Clone, Copy, PartialEq, Eq, Default)]
pub enum FlipEdge {
    #[default]
    LongEdge,
    ShortEdge,
}

/// Whether a page holds card fronts or generated card backs.
#[derive(Debug, Clone, Copy, PartialEq, Eq, Default)]
pub enum PageSide {
    #[default]
    Front,
    Back,
}

/// Progress of a card's thumbnail.
#[derive(Debug, Clone, PartialEq, Default)]
pub enum ThumbnailState {
    #[default]
    NotLoaded,
    Loading,
    Loaded(RgbaImage),
    Failed(String),
}

/// A card image in the project: its file, thumbnail, resolution, how many
/// copies to print and, for double-sided printing, its own back image.
#[derive(Debug, Clone)]
pub struct Card {
    pub path: PathBuf,
    pub thumbnail_state: ThumbnailState,
    pub original_dpi: Option<u32>,
    pub needs_scaling: bool,
    pub copy_count: u32,
    pub back_path: Option<PathBuf>,
}

/// The resolution a card is assumed to have when its file records none.
pub const DEFAULT_DPI: u32 = 72;

impl Card {
    /// The card `Card::new(path, exif_dpi)` makes.
    pub open spec fn new_spec(path: PathBuf, exif_dpi: Option<u32>) -> Card {
        Card {
            path,
            thumbnail_state: ThumbnailState::NotLoaded,
            original_dpi: Some(
                match exif_dpi {
                    Some(d) => d,
                    None => DEFAULT_DPI,
                },
            ),
            needs_scaling: false,
            copy_count: 1,
            back_path: None,
        }
    }

    /// A card for the image at `path` whose file records a resolution of
    /// `exif_dpi` (`None` when it records none or cannot be read); such a card
    /// is taken to be `DEFAULT_DPI`.
    pub fn new(path: PathBuf, exif_dpi: Option<u32>) -> (card: Self)
        ensures
            card == Card::new_spec(path, exif_dpi),
            card.path == path,
            card.thumbnail_state == ThumbnailState::NotLoaded,
            card.original_dpi == Some(
                match exif_dpi {
                    Some(d) => d,
                    None => DEFAULT_DPI,
                },
            ),
            !card.needs_scaling,
            card.copy_count == 1,
            card.back_path.is_none(),
    {
        let mut card = Self::placeholder(path);
        card.original_dpi = match exif_dpi {
            Some(d) => Some(d),
            None => Some(DEFAULT_DPI),
        };
        card
    }

    /// A card that records nothing about its file. Used for generated
    /// back-side slots whose thumbnail-loaded instances live elsewhere.
    pub fn placeholder(path: PathBuf) -> (card: Self)
        ensures
            card.path == path,
            card.thumbnail_state == ThumbnailState::NotLoaded,
            card.original_dpi.is_none(),
            !card.needs_scaling,
            card.copy_count == 1,
            card.back_path.is_none(),
    {
        Self {
            path,
            thumbnail_state: ThumbnailState::NotLoaded,
            original_dpi: None,
            needs_scaling: false,
            copy_count: 1,
            back_path: None,
        }
    }

    pub fn set_thumbnail_loading(&mut self)
        ensures
            *final(self) == (Card { thumbnail_state: ThumbnailState::Loading, ..*old(self) }),
    {
        self.thumbnail_state = ThumbnailState::Loading;
    }

    pub fn set_thumbnail_loaded(&mut self, thumbnail: RgbaImage)
        ensures
            *final(self) == (Card { thumbnail_state: ThumbnailState::Loaded(thumbnail), ..*old(self) }),
    {
        self.thumbnail_state = ThumbnailState::Loaded(thumbnail);
    }

    pub fn set_thumbnail_failed(&mut self, error: String)
        ensures
            *final(self) == (Card { thumbnail_state: ThumbnailState::Failed(error), ..*old(self) }),
    {
        self.thumbnail_state = ThumbnailState::Failed(error);
    }

    /// The thumbnail, once it has loaded.
    pub fn get_thumbnail(&self) -> (t: Option<&RgbaImage>)
        ensures
            match self.thumbnail_state {
                ThumbnailState::Loaded(img) => t == Some(&img),
                _ => t.is_none(),
            },
    {
        match &self.thumbnail_state {
            ThumbnailState::Loaded(thumbnail) => Some(thumbnail),
            _ => None,
        }
    }

    pub fn is_thumbnail_loaded(&self) -> (b: bool)
        ensures
            b == (self.thumbnail_state is Loaded),
    {
        match &self.thumbnail_state {
            ThumbnailState::Loaded(_) => true,
            _ => false,
        }
    }

    pub fn is_thumbnail_loading(&self) -> (b: bool)
        ensures
            b == (self.thumbnail_state is Loading),
    {
        match &self.thumbnail_state {
            ThumbnailState::Loading => true,
            _ => false,
        }
    }

    /// The card with `count` copies, but at least one.
    pub open spec fn with_copy_count(self, count: u32) -> Card {
        Card { copy_count: if count < 1 { 1 } else { count }, ..self }
    }

    /// The card with one copy more.
    pub open spec fn incremented(self) -> Card {
        Card { copy_count: (self.copy_count + 1) as u32, ..self }
    }

    /// The card with one copy fewer, but never fewer than one.
    pub open spec fn decremented(self) -> Card {
        Card {
            copy_count: if self.copy_count > 1 { (self.copy_count - 1) as u32 } else { self.copy_count },
            ..self
        }
    }

    /// Sets how many copies are printed; a card is always printed at least once.
    pub fn set_copy_count(&mut self, count: u32)
        ensures
            *final(self) == old(self).with_copy_count(count),
    {
        self.copy_count = if count < 1 { 1 } else { count };
    }

    pub fn get_copy_count(&self) -> (n: u32)
        ensures
            n == self.copy_count,
    {
        self.copy_count
    }

    pub fn increment_copy_count(&mut self)
        requires
            old(self).copy_count < u32::MAX,
        ensures
            *final(self) == old(self).incremented(),
    {
        self.copy_count = self.copy_count + 1;
    }

    /// One copy fewer, but never below one.
    pub fn decrement_copy_count(&mut self)
        ensures
            *final(self) == old(self).decremented(),
    {
        if self.copy_count > 1 {
            self.copy_count = self.copy_count - 1;
        }
    }
}

/// Every way of changing a card's copy count keeps it printed at least
/// once, and one copy more followed by one copy fewer gives the card back
/// (for a card printed at least once: a card with no copies comes back
/// with one).
pub proof fn lemma_copy_count_stays_positive(card: Card, count: u32)
    ensures
        card.with_copy_count(count).copy_count >= 1,
        card.copy_count >= 1 ==> card.decremented().copy_count >= 1,
        card.copy_count >= 1 && card.copy_count < u32::MAX ==> card.incremented().decremented() == card,
        card.decremented().copy_count <= card.copy_count,
{
}

/// The grid of card slots on one page.
#[derive(Debug, Clone)]
pub struct GridLayout {
    pub rows: usize,
    pub cols: usize,
    pub cards_per_page: usize,
    pub total_pages: usize,
}

/// A card whose resolution is below the resolution it is printed at.
#[derive(Debug, Clone)]
pub struct DpiWarning {
    pub card_path: PathBuf,
    pub original_dpi: u32,
    pub target_dpi: u32,
    pub message: String,
}

#[derive(Debug, Clone, Copy, PartialEq, Eq)]
pub enum CutMarkType {
    Horizontal, // cuts between rows
    Vertical,   // cuts between columns
}

} // verus!
