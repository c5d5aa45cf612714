use tcg_layout::deck::unmatched_cards;
use tcg_layout::marvelcdb::FetchedDeck;
use tcg_layout::deck::{assemble_deck, signature_cards, sort_cards_by_code, HeroCards};
use tcg_layout::marvelcdb::{FetchedCard, MarvelCdbCard, MarvelCdbDecklist};

fn card(code: &str, name: &str, faction: &str, pack: &str) -> MarvelCdbCard {
    MarvelCdbCard {
        code: code.to_string(),
        name: name.to_string(),
        type_code: "event".to_string(),
        faction_code: faction.to_string(),
        pack_code: pack.to_string(),
        linked_card: None,
    }
}

fn decklist(hero_name: Option<&str>, slots: &[(&str, u32)]) -> MarvelCdbDecklist {
    MarvelCdbDecklist {
        id: 1,
        name: "My Deck".to_string(),
        hero_code: Some("01001a".to_string()),
        hero_name: hero_name.map(|s| s.to_string()),
        slots: slots.iter().map(|(c, n)| (c.to_string(), *n)).collect(),
        meta: None,
    }
}

fn codes(cards: &[FetchedCard]) -> Vec<&str> {
    cards.iter().map(|c| c.code.as_str()).collect()
}

#[test]
fn sort_by_code_is_stable() {
    let f = |code: &str, name: &str| FetchedCard {
        code: code.to_string(),
        name: name.to_string(),
        count: 1,
        faction_code: "x".to_string(),
        pack_code: "p".to_string(),
    };
    let sorted = sort_cards_by_code(vec![f("b", "1"), f("a", "2"), f("ab", "3"), f("b", "4"), f("", "5")]);
    let got: Vec<(&str, &str)> = sorted.iter().map(|c| (c.code.as_str(), c.name.as_str())).collect();
    assert_eq!(got, vec![("", "5"), ("a", "2"), ("ab", "3"), ("b", "1"), ("b", "4")]);
}

#[test]
fn deck_is_assembled_and_ordered() {
    let list = decklist(Some("Listed Hero"), &[("01050", 2), ("01010", 1)]);
    let slot_cards = vec![
        (card("01050", "Swinging Web Kick", "hero", "core"), 2),
        (card("01010", "Backflip", "basic", "core"), 1),
    ];
    let mut hero_card = card("01001a", "Spider-Man", "hero", "core");
    hero_card.linked_card = Some(Box::new(card("01001b", "Peter Parker", "hero", "core")));
    let signature = vec![
        card("01005", "Web-Shooter", "hero", "core"),
        card("01050", "Swinging Web Kick", "hero", "core"),
    ];
    let deck = assemble_deck(
        &list,
        &slot_cards,
        &HeroCards::Fetched { hero_card: Some(hero_card), signature },
    );
    assert_eq!(deck.deck_name, "My Deck");
    assert_eq!(deck.hero_name, "Spider-Man");
    assert_eq!(codes(&deck.cards), vec!["01001a", "01001b", "01005", "01010", "01050"]);
    let kick = deck.cards.iter().find(|c| c.code == "01050").unwrap();
    assert_eq!(kick.count, 2);
    assert_eq!(kick.faction_code, "hero");
    let backflip = deck.cards.iter().find(|c| c.code == "01010").unwrap();
    assert_eq!(backflip.faction_code, "basic");
    let shooter = deck.cards.iter().find(|c| c.code == "01005").unwrap();
    assert_eq!(shooter.count, 1);
}

#[test]
fn deck_hero_name_falls_back() {
    let list = decklist(Some("Listed Hero"), &[]);
    let deck = assemble_deck(&list, &Vec::new(), &HeroCards::Failed);
    assert_eq!(deck.hero_name, "Listed Hero");
    assert!(deck.cards.is_empty());
    let deck = assemble_deck(
        &decklist(None, &[]),
        &Vec::new(),
        &HeroCards::Fetched { hero_card: None, signature: vec![] },
    );
    assert_eq!(deck.hero_name, "");
    let deck = assemble_deck(&decklist(None, &[]), &Vec::new(), &HeroCards::NoHero);
    assert_eq!(deck.hero_name, "");
}

#[test]
fn signature_cards_are_hero_cards_other_than_the_hero() {
    let pack = vec![
        card("01001a", "Spider-Man", "hero", "core"),
        card("01005", "Web-Shooter", "hero", "core"),
        card("01020", "Haymaker", "basic", "core"),
        card("01006", "Aunt May", "hero", "core"),
    ];
    let sig = signature_cards(pack, &"01001a".to_string());
    let got: Vec<&str> = sig.iter().map(|c| c.code.as_str()).collect();
    assert_eq!(got, vec!["01005", "01006"]);
}

#[test]
fn every_card_unmatched() {
    let deck = FetchedDeck {
        deck_name: "d".to_string(),
        hero_name: "h".to_string(),
        cards: vec![FetchedCard {
            code: "01001".to_string(),
            name: "Web".to_string(),
            count: 2,
            faction_code: "hero".to_string(),
            pack_code: "core".to_string(),
        }],
    };
    let u = unmatched_cards(&deck);
    assert_eq!(u.len(), 1);
    assert_eq!(u[0].name, "Web");
    assert_eq!(u[0].count, 2);
    assert_eq!(u[0].faction, "hero");
    assert_eq!(u[0].pack_code, "core");
}
