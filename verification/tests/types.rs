use std::path::PathBuf;
use tcg_layout::types::{
    Card, DpiWarning, FillOrder, FlipEdge, GridLayout, PageOrientation, PageSide, ThumbnailState,
};
use tcg_layout::raster::RgbaImage;

#[test]
fn test_fill_order_default() {
    assert_eq!(FillOrder::default(), FillOrder::RowMajor);
}

#[test]
fn test_fill_order_variants() {
    let row_major = FillOrder::RowMajor;
    let column_major = FillOrder::ColumnMajor;
    assert_ne!(row_major, column_major);
    assert_eq!(row_major, FillOrder::RowMajor);
    assert_eq!(column_major, FillOrder::ColumnMajor);
}

#[test]
fn test_page_orientation_default() {
    assert_eq!(PageOrientation::default(), PageOrientation::Portrait);
}

#[test]
fn test_page_orientation_variants() {
    let portrait = PageOrientation::Portrait;
    let landscape = PageOrientation::Landscape;
    assert_ne!(portrait, landscape);
    assert_eq!(portrait, PageOrientation::Portrait);
    assert_eq!(landscape, PageOrientation::Landscape);
}

#[test]
fn test_card_new() {
    let path = PathBuf::from("/test/path/card.jpg");
    let card = Card::new(path.clone(), None);
    assert_eq!(card.path, path);
    assert!(matches!(card.thumbnail_state, ThumbnailState::NotLoaded));
    assert_eq!(card.original_dpi, Some(72));
    assert!(!card.needs_scaling);
    assert_eq!(card.copy_count, 1);
}

#[test]
fn card_new_keeps_recorded_dpi() {
    let card = Card::new(PathBuf::from("hi.png"), Some(600));
    assert_eq!(card.original_dpi, Some(600));
    assert_eq!(card.back_path, None);
}

#[test]
fn test_card_with_properties() {
    let path = PathBuf::from("/test/path/card.png");
    let mut card = Card::new(path.clone(), None);
    card.original_dpi = Some(150);
    card.needs_scaling = true;
    assert_eq!(card.path, path);
    assert_eq!(card.original_dpi, Some(150));
    assert!(card.needs_scaling);
    assert!(matches!(card.thumbnail_state, ThumbnailState::NotLoaded));
    assert_eq!(card.copy_count, 1);
}

#[test]
fn test_grid_layout() {
    let layout = GridLayout {
        rows: 3,
        cols: 4,
        cards_per_page: 12,
        total_pages: 2,
    };
    assert_eq!(layout.rows, 3);
    assert_eq!(layout.cols, 4);
    assert_eq!(layout.cards_per_page, 12);
    assert_eq!(layout.total_pages, 2);
}

#[test]
fn test_dpi_warning() {
    let warning = DpiWarning {
        card_path: PathBuf::from("low_res.jpg"),
        original_dpi: 72,
        target_dpi: 300,
        message: "Low resolution detected".to_string(),
    };
    assert_eq!(warning.card_path, PathBuf::from("low_res.jpg"));
    assert_eq!(warning.original_dpi, 72);
    assert_eq!(warning.target_dpi, 300);
    assert_eq!(warning.message, "Low resolution detected");
}

#[test]
fn test_card_clone() {
    let original = Card::new(PathBuf::from("original.jpg"), None);
    let cloned = original.clone();
    assert_eq!(original.path, cloned.path);
    assert_eq!(original.thumbnail_state, cloned.thumbnail_state);
    assert_eq!(original.original_dpi, cloned.original_dpi);
    assert_eq!(original.needs_scaling, cloned.needs_scaling);
    assert_eq!(original.copy_count, cloned.copy_count);
}

#[test]
fn test_card_copy_count_methods() {
    let mut card = Card::new(PathBuf::from("test.jpg"), None);
    assert_eq!(card.get_copy_count(), 1);
    card.increment_copy_count();
    assert_eq!(card.get_copy_count(), 2);
    card.set_copy_count(5);
    assert_eq!(card.get_copy_count(), 5);
    card.decrement_copy_count();
    assert_eq!(card.get_copy_count(), 4);
    card.set_copy_count(0);
    assert_eq!(card.get_copy_count(), 1);
    card.decrement_copy_count();
    assert_eq!(card.get_copy_count(), 1);
}

#[test]
fn increment_then_decrement_restores_count() {
    let mut card = Card::new(PathBuf::from("a.jpg"), None);
    for n in [1u32, 2, 9] {
        card.set_copy_count(n);
        card.increment_copy_count();
        card.decrement_copy_count();
        assert_eq!(card.get_copy_count(), n);
    }
}

#[test]
fn test_flip_edge_default() {
    assert_eq!(FlipEdge::default(), FlipEdge::LongEdge);
}

#[test]
fn test_page_side_default() {
    assert_eq!(PageSide::default(), PageSide::Front);
}

#[test]
fn test_card_placeholder() {
    let card = Card::placeholder(PathBuf::from("back.png"));
    assert_eq!(card.path, PathBuf::from("back.png"));
    assert!(matches!(card.thumbnail_state, ThumbnailState::NotLoaded));
    assert_eq!(card.original_dpi, None);
    assert_eq!(card.copy_count, 1);
    assert_eq!(card.back_path, None);
}

#[test]
fn thumbnail_state_transitions() {
    let mut card = Card::new(PathBuf::from("t.png"), None);
    assert!(!card.is_thumbnail_loaded());
    card.set_thumbnail_loading();
    assert!(card.is_thumbnail_loading());
    assert!(card.get_thumbnail().is_none());
    card.set_thumbnail_loaded(RgbaImage::new(2, 3));
    assert!(card.is_thumbnail_loaded());
    assert!(!card.is_thumbnail_loading());
    assert_eq!(card.get_thumbnail().unwrap().dimensions(), (2, 3));
    card.set_thumbnail_failed("gone".to_string());
    assert!(matches!(card.thumbnail_state, ThumbnailState::Failed(ref e) if e == "gone"));
    assert!(card.get_thumbnail().is_none());
}
