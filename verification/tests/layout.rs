use tcg_layout::layout::copy_count_total;
use std::path::PathBuf;
use tcg_layout::layout::{distribute_cards, grid_cell, CardSlot, PagePlan};
use tcg_layout::types::{Card, FillOrder, GridLayout, PageSide};

fn grid(rows: usize, cols: usize) -> GridLayout {
    GridLayout {
        rows,
        cols,
        cards_per_page: rows * cols,
        total_pages: 1,
    }
}

fn cards(names: &[&str]) -> Vec<Card> {
    names.iter().map(|n| Card::new(PathBuf::from(n), None)).collect()
}

fn paths(cards: &[Card], page: &PagePlan) -> Vec<PathBuf> {
    page.slots.iter().map(|s| cards[s.card].path.clone()).collect()
}

#[test]
fn test_distribute_cards_single_page() {
    let cards = cards(&["card1.jpg", "card2.jpg", "card3.jpg"]);
    let pages = distribute_cards(&cards, &grid(2, 3), false, false);
    assert_eq!(pages.len(), 1);
    assert_eq!(pages[0].page_number, 1);
    assert_eq!(pages[0].slots.len(), 3);
}

#[test]
fn test_distribute_cards_multiple_pages() {
    let cards = cards(&["card1.jpg", "card2.jpg", "card3.jpg", "card4.jpg", "card5.jpg"]);
    let pages = distribute_cards(&cards, &grid(1, 2), false, false);
    assert_eq!(pages.len(), 3);
    assert_eq!(pages[0].slots.len(), 2);
    assert_eq!(pages[1].slots.len(), 2);
    assert_eq!(pages[2].slots.len(), 1);
    assert_eq!(pages[0].page_number, 1);
    assert_eq!(pages[1].page_number, 2);
    assert_eq!(pages[2].page_number, 3);
}

#[test]
fn test_distribute_cards_with_copy_counts() {
    let mut cards = cards(&["card1.jpg", "card2.jpg"]);
    cards[0].set_copy_count(3);
    cards[1].set_copy_count(2);
    let pages = distribute_cards(&cards, &grid(2, 2), false, false);
    assert_eq!(pages.len(), 2);
    assert_eq!(pages[0].slots.len(), 4);
    assert_eq!(pages[1].slots.len(), 1);
    let first = paths(&cards, &pages[0]);
    assert_eq!(first[0], PathBuf::from("card1.jpg"));
    assert_eq!(first[1], PathBuf::from("card1.jpg"));
    assert_eq!(first[2], PathBuf::from("card1.jpg"));
    assert_eq!(first[3], PathBuf::from("card2.jpg"));
    assert_eq!(paths(&cards, &pages[1])[0], PathBuf::from("card2.jpg"));
}

#[test]
fn test_duplex_interleaves_front_and_back_pages() {
    let mut cards = cards(&["card1.jpg", "card2.jpg", "card3.jpg"]);
    cards[2].set_copy_count(3);
    let pages = distribute_cards(&cards, &grid(2, 2), true, true);
    assert_eq!(pages.len(), 4);
    assert_eq!(pages[0].side, PageSide::Front);
    assert_eq!(pages[1].side, PageSide::Back);
    assert_eq!(pages[2].side, PageSide::Front);
    assert_eq!(pages[3].side, PageSide::Back);
    assert_eq!(pages.iter().map(|p| p.page_number).collect::<Vec<_>>(), vec![1, 2, 3, 4]);
    assert_eq!(pages[1].slots.len(), 4);
    // each back sits in the slot of its front
    assert_eq!(pages[0].slots, pages[1].slots);
    assert_eq!(pages[2].slots.len(), 1);
    assert_eq!(pages[3].slots.len(), 1);
}

#[test]
fn test_duplex_per_card_back_overrides_default() {
    let mut cards = cards(&["card1.jpg", "card2.jpg"]);
    cards[0].back_path = Some(PathBuf::from("special_back.png"));
    let pages = distribute_cards(&cards, &grid(2, 2), true, true);
    assert_eq!(pages.len(), 2);
    // the back page pairs slot 0 with a card carrying its own back, and
    // slot 1 with one that falls back on the default
    assert_eq!(pages[1].slots[0], CardSlot { card: 0, slot: 0 });
    assert_eq!(cards[pages[1].slots[0].card].back_path, Some(PathBuf::from("special_back.png")));
    assert_eq!(pages[1].slots[1], CardSlot { card: 1, slot: 1 });
    assert_eq!(cards[pages[1].slots[1].card].back_path, None);
}

#[test]
fn test_duplex_without_any_back_emits_empty_back_page() {
    let cards = cards(&["card1.jpg"]);
    let pages = distribute_cards(&cards, &grid(1, 1), true, false);
    assert_eq!(pages.len(), 2);
    assert_eq!(pages[1].side, PageSide::Back);
    assert!(pages[1].slots.is_empty());
}

#[test]
fn test_non_duplex_pages_are_all_front() {
    let cards = cards(&["card1.jpg"]);
    let pages = distribute_cards(&cards, &grid(1, 1), false, true);
    assert_eq!(pages.len(), 1);
    assert_eq!(pages[0].side, PageSide::Front);
}

#[test]
fn duplex_backs_leave_gaps_for_cards_without_back() {
    let mut cards = cards(&["a.jpg", "b.jpg", "c.jpg"]);
    cards[1].back_path = Some(PathBuf::from("b_back.png"));
    let pages = distribute_cards(&cards, &grid(1, 3), true, false);
    assert_eq!(pages.len(), 2);
    assert_eq!(pages[1].slots, vec![CardSlot { card: 1, slot: 1 }]);
}

#[test]
fn no_cards_no_pages() {
    let pages = distribute_cards(&Vec::new(), &grid(2, 2), true, true);
    assert!(pages.is_empty());
}

#[test]
fn fronts_read_in_order_list_every_copy() {
    let mut cards = cards(&["a", "b", "c", "d"]);
    cards[0].set_copy_count(2);
    cards[2].set_copy_count(4);
    let pages = distribute_cards(&cards, &grid(1, 3), false, false);
    let read: Vec<usize> = pages.iter().flat_map(|p| p.slots.iter().map(|s| s.card)).collect();
    assert_eq!(read, vec![0, 0, 1, 2, 2, 2, 2, 3]);
    for p in &pages {
        assert!(!p.slots.is_empty() && p.slots.len() <= 3);
        for (j, s) in p.slots.iter().enumerate() {
            assert_eq!(s.slot, j);
        }
    }
}

#[test]
fn grid_cells_by_fill_order() {
    let g = grid(2, 3);
    assert_eq!(grid_cell(0, &g, FillOrder::RowMajor), (0, 0));
    assert_eq!(grid_cell(1, &g, FillOrder::RowMajor), (0, 1));
    assert_eq!(grid_cell(4, &g, FillOrder::RowMajor), (1, 1));
    assert_eq!(grid_cell(1, &g, FillOrder::ColumnMajor), (1, 0));
    assert_eq!(grid_cell(2, &g, FillOrder::ColumnMajor), (0, 1));
    assert_eq!(grid_cell(5, &g, FillOrder::ColumnMajor), (1, 2));
    let mut seen = std::collections::HashSet::new();
    for i in 0..6 {
        let c = grid_cell(i, &g, FillOrder::ColumnMajor);
        assert!(c.0 < 2 && c.1 < 3);
        assert!(seen.insert(c));
    }
}

#[test]
fn copy_totals_add_up() {
    let mut cards = cards(&["a", "b"]);
    cards[0].set_copy_count(u32::MAX);
    cards[1].set_copy_count(7);
    assert_eq!(copy_count_total(&cards), u32::MAX as u128 + 7);
    assert_eq!(copy_count_total(&Vec::new()), 0);
}
