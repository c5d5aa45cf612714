use tcg_layout::decklist::DecklistManager;

#[test]
fn test_parse_decklist_format_1() {
    let manager = DecklistManager::new(None);
    let decklist = "4 Lightning Bolt\n2 Shock\n1 Fireball";
    let entries = manager.parse_decklist(decklist).unwrap();
    assert_eq!(entries.len(), 3);
    assert_eq!(entries[0].card_name, "Lightning Bolt");
    assert_eq!(entries[0].count, 4);
    assert_eq!(entries[1].card_name, "Shock");
    assert_eq!(entries[1].count, 2);
}

#[test]
fn test_parse_decklist_format_2() {
    let manager = DecklistManager::new(None);
    let decklist = "4x Lightning Bolt\n2x Shock";
    let entries = manager.parse_decklist(decklist).unwrap();
    assert_eq!(entries.len(), 2);
    assert_eq!(entries[0].card_name, "Lightning Bolt");
    assert_eq!(entries[0].count, 4);
}

#[test]
fn test_parse_decklist_format_3() {
    let manager = DecklistManager::new(None);
    let decklist = "Lightning Bolt x4\nShock x2";
    let entries = manager.parse_decklist(decklist).unwrap();
    assert_eq!(entries.len(), 2);
    assert_eq!(entries[0].card_name, "Lightning Bolt");
    assert_eq!(entries[0].count, 4);
}

#[test]
fn test_parse_decklist_format_4() {
    let manager = DecklistManager::new(None);
    let decklist = "Lightning Bolt (4)\nShock (2)";
    let entries = manager.parse_decklist(decklist).unwrap();
    assert_eq!(entries.len(), 2);
    assert_eq!(entries[0].card_name, "Lightning Bolt");
    assert_eq!(entries[0].count, 4);
}

#[test]
fn test_parse_decklist_mixed_formats() {
    let manager = DecklistManager::new(None);
    let decklist = "4 Lightning Bolt\n2x Shock\nFireball x1\nCounterspell (3)\nPlain Card Name";
    let entries = manager.parse_decklist(decklist).unwrap();
    assert_eq!(entries.len(), 5);
    assert_eq!(entries[4].card_name, "Plain Card Name");
    assert_eq!(entries[4].count, 1);
}

#[test]
fn test_parse_decklist_with_comments() {
    let manager = DecklistManager::new(None);
    let decklist =
        "# This is a comment\n4 Lightning Bolt\n// Another comment\n2 Shock\n\n3 Fireball";
    let entries = manager.parse_decklist(decklist).unwrap();
    assert_eq!(entries.len(), 3);
    assert_eq!(entries[0].card_name, "Lightning Bolt");
}

fn parsed(text: &str) -> Vec<(String, u32)> {
    DecklistManager::new(None)
        .parse_decklist(text)
        .unwrap()
        .into_iter()
        .map(|e| (e.card_name, e.count))
        .collect()
}

#[test]
fn decklist_edge_cases() {
    // CRLF line ends and surrounding space are trimmed away
    assert_eq!(parsed("  3 Shock \r\n\r\n"), vec![("Shock".to_string(), 3)]);
    // several trailing x's before the space are all dropped
    assert_eq!(parsed("2xx Shock"), vec![("Shock".to_string(), 2)]);
    // a leading + is part of what u32 parsing accepts
    assert_eq!(parsed("+5 Bolt"), vec![("Bolt".to_string(), 5)]);
    // the last " x" decides format 3
    assert_eq!(parsed("Box xylophone x7"), vec![("Box xylophone".to_string(), 7)]);
    // a count too large for u32 is no count: the line names one card
    assert_eq!(
        parsed("4294967296 Bolt"),
        vec![("4294967296 Bolt".to_string(), 1)]
    );
    assert_eq!(parsed("4294967295 Bolt"), vec![("Bolt".to_string(), 4294967295)]);
    // parenthesised count uses the last '('
    assert_eq!(parsed("Ant (Man) (2)"), vec![("Ant (Man)".to_string(), 2)]);
    assert_eq!(parsed("Name (x)"), vec![("Name (x)".to_string(), 1)]);
    // comments and blank lines only
    assert!(parsed("# a\n//b\n   \n").is_empty());
    assert!(parsed("").is_empty());
    // a lone slash is a card name
    assert_eq!(parsed("/"), vec![("/".to_string(), 1)]);
}

#[test]
fn decklist_manager_key() {
    let mut m = DecklistManager::new(None);
    assert_eq!(m.get_api_key(), &None);
    m.set_api_key("k".to_string());
    assert_eq!(m.get_api_key(), &Some("k".to_string()));
}

use std::path::PathBuf;
use tcg_layout::types::Card;
use tcg_layout::decklist::{find_path_match, match_cards_by_path, DecklistMatch};
use tcg_layout::decklist::{card_file_stems, pair_ai_matches, pair_replies, AiPairing, DecklistEntry};

#[test]
fn test_apply_decklist_to_cards() {
    let manager = DecklistManager::new(None);
    let mut cards = vec![
        Card::new(PathBuf::from("shock.jpg"), None),
        Card::new(PathBuf::from("lightning_bolt.jpg"), None),
    ];
    let matched_cards = vec![
        DecklistMatch {
            card_name: "Lightning Bolt".to_string(),
            count: 4,
            matched_path: PathBuf::from("lightning_bolt.jpg"),
        },
        DecklistMatch {
            card_name: "Shock".to_string(),
            count: 2,
            matched_path: PathBuf::from("shock.jpg"),
        },
    ];
    manager
        .apply_decklist_to_cards(&matched_cards, &mut cards)
        .unwrap();
    assert_eq!(cards[0].path, PathBuf::from("lightning_bolt.jpg"));
    assert_eq!(cards[0].copy_count, 4);
    assert_eq!(cards[1].path, PathBuf::from("shock.jpg"));
    assert_eq!(cards[1].copy_count, 2);
}

#[test]
fn last_match_of_a_file_counts_and_unmatched_stay_last() {
    let manager = DecklistManager::new(None);
    let mut cards = vec![
        Card::new(PathBuf::from("other.jpg"), None),
        Card::new(PathBuf::from("bolt.jpg"), None),
        Card::new(PathBuf::from("shock.jpg"), None),
    ];
    let entry = |name: &str, count: u32, path: &str| DecklistMatch {
        card_name: name.to_string(),
        count,
        matched_path: PathBuf::from(path),
    };
    let matched_cards = vec![
        entry("Shock", 2, "shock.jpg"),
        entry("Bolt", 4, "bolt.jpg"),
        entry("Bolt Again", 3, "bolt.jpg"),
    ];
    assert_eq!(match_cards_by_path(&matched_cards, &cards), vec![None, Some(2), Some(0)]);
    manager.apply_decklist_to_cards(&matched_cards, &mut cards).unwrap();
    let order: Vec<String> = cards.iter().map(|c| c.path.display().to_string()).collect();
    assert_eq!(order, vec!["shock.jpg", "bolt.jpg", "other.jpg"]);
    assert_eq!(cards[0].copy_count, 2);
    assert_eq!(cards[1].copy_count, 3);
    assert_eq!(cards[2].copy_count, 1);
    // paths are compared as paths: a trailing separator does not matter
    let m = vec![entry("Shock", 2, "cards/shock.jpg/")];
    assert_eq!(find_path_match(&m, &PathBuf::from("cards/shock.jpg")), Some(0));
    assert_eq!(find_path_match(&m, &PathBuf::from("cards/bolt.jpg")), None);
}

#[test]
fn decklist_order_keeps_unmatched_last_and_ties_stable() {
    let manager = DecklistManager::new(None);
    let names = ["u1.jpg", "b1.jpg", "a.jpg", "u2.jpg", "b2.jpg"];
    let mut cards: Vec<Card> = names.iter().map(|n| Card::new(PathBuf::from(n), None)).collect();
    let matched = vec![
        ("A".to_string(), 3),
        ("B".to_string(), 0),
        ("B".to_string(), 5),
    ];
    let card_match = vec![None, Some(2), Some(0), None, Some(1)];
    manager
        .order_by_decklist(&matched, &card_match, &mut cards)
        .unwrap();
    let order: Vec<String> = cards.iter().map(|c| c.path.display().to_string()).collect();
    assert_eq!(order, vec!["a.jpg", "b1.jpg", "b2.jpg", "u1.jpg", "u2.jpg"]);
    assert_eq!(cards[0].copy_count, 3);
    assert_eq!(cards[1].copy_count, 5);
    // a count of 0 still prints the card once
    assert_eq!(cards[2].copy_count, 1);
    assert_eq!(cards[3].copy_count, 1);
}

#[test]
fn proposed_matches_are_paired_with_entries_and_cards() {
    let cards = vec![
        Card::new(PathBuf::from("imgs/shock_01.jpg"), None),
        Card::new(PathBuf::from("imgs/bolt.png"), None),
        Card::new(PathBuf::from("other/bolt.tiff"), None),
    ];
    assert_eq!(card_file_stems(&cards), vec!["shock_01", "bolt", "bolt"]);
    let entries = vec![
        DecklistEntry { card_name: "Lightning Bolt".to_string(), count: 4 },
        DecklistEntry { card_name: "Shock".to_string(), count: 2 },
        DecklistEntry { card_name: "Lightning Bolt".to_string(), count: 3 },
    ];
    let replies = vec![
        ("Shock".to_string(), "shock_01".to_string()),
        ("Fireball".to_string(), "bolt".to_string()),
        ("Lightning Bolt".to_string(), "bolt".to_string()),
        ("Shock".to_string(), "missing".to_string()),
    ];
    assert_eq!(
        pair_ai_matches(&entries, &cards, &replies),
        vec![
            AiPairing { reply: 0, count: 2, card: 0 },
            // the last entry of a name gives the count, the first card of a stem is taken
            AiPairing { reply: 2, count: 3, card: 1 },
        ]
    );
    assert!(pair_ai_matches(&entries, &cards, &vec![]).is_empty());
}

#[test]
fn replies_pair_with_the_first_card_of_a_stem() {
    let entries = vec![DecklistEntry { card_name: "Shock".to_string(), count: 2 }];
    let stems = vec![None, Some("shock".to_string()), Some("shock".to_string())];
    let replies = vec![
        ("Shock".to_string(), "shock".to_string()),
        ("Shock".to_string(), "Shock".to_string()),
        ("shock".to_string(), "shock".to_string()),
    ];
    assert_eq!(pair_replies(&entries, &stems, &replies), vec![AiPairing { reply: 0, count: 2, card: 1 }]);
}
