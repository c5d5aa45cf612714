use std::path::PathBuf;
use tcg_layout::project::{default_copy_count, display_name, ProjectCard};
use tcg_layout::types::Card;

#[test]
fn test_project_card_from_card_and_back() {
    let mut card = Card::new(PathBuf::from("front.png"), None);
    card.back_path = Some(PathBuf::from("back.png"));
    card.set_copy_count(4);

    let project_card = ProjectCard::from(&card);
    assert_eq!(project_card.path, card.path);
    assert_eq!(project_card.back_path, card.back_path);
    assert_eq!(project_card.copy_count, 4);

    let rebuilt = project_card.to_card(None);
    assert_eq!(rebuilt.path, card.path);
    assert_eq!(rebuilt.back_path, card.back_path);
    assert_eq!(rebuilt.copy_count, card.copy_count);
}

#[test]
fn test_display_name() {
    assert_eq!(display_name("/foo/bar/My Deck.tcgproj"), "My Deck");
    assert_eq!(display_name("no_extension"), "no_extension");
}

#[test]
fn project_card_rebuild_reads_dpi_and_clamps_count() {
    let pc = ProjectCard {
        path: PathBuf::from("a.png"),
        back_path: None,
        copy_count: 0,
    };
    let card = pc.to_card(Some(300));
    assert_eq!(card.original_dpi, Some(300));
    assert_eq!(card.copy_count, 1);
    assert_eq!(default_copy_count(), 1);
}
