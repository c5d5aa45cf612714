use tcg_layout::marvelcdb::{normalize_name, parse_card_name_from_filename, parse_marvelcdb_input};

#[test]
fn test_parse_marvelcdb_input_numeric() {
    assert_eq!(parse_marvelcdb_input("12345").unwrap(), 12345);
}

#[test]
fn test_parse_marvelcdb_input_url() {
    assert_eq!(
        parse_marvelcdb_input("https://marvelcdb.com/decklist/view/12345/my-cool-deck").unwrap(),
        12345
    );
}

#[test]
fn test_parse_marvelcdb_input_url_no_slug() {
    assert_eq!(
        parse_marvelcdb_input("https://marvelcdb.com/decklist/view/99999").unwrap(),
        99999
    );
}

#[test]
fn test_parse_marvelcdb_input_invalid() {
    assert!(parse_marvelcdb_input("not-a-number").is_err());
}

#[test]
fn marvelcdb_input_error_message_and_edges() {
    assert_eq!(
        parse_marvelcdb_input("  not-a-number ").unwrap_err(),
        "Could not parse MarvelCDB deck ID from input: not-a-number"
    );
    assert_eq!(parse_marvelcdb_input("  42  ").unwrap(), 42);
    assert_eq!(parse_marvelcdb_input("https://marvelcdb.com/deck/view/77").unwrap(), 77);
    // the last numeric segment is used when no decklist segment gives one
    assert_eq!(parse_marvelcdb_input("https://x.com/a/5/b/6/c").unwrap(), 6);
    assert_eq!(
        parse_marvelcdb_input("18446744073709551615").unwrap(),
        18446744073709551615
    );
    assert!(parse_marvelcdb_input("18446744073709551616").is_err());
}

#[test]
fn deck_id_round_trips_through_its_decimal_form() {
    for id in [0u64, 7, 12345, 99999, 18446744073709551615] {
        assert_eq!(parse_marvelcdb_input(&id.to_string()).unwrap(), id);
    }
}

#[test]
fn test_normalize_name() {
    assert_eq!(normalize_name("Spider-Man"), "spiderman");
    assert_eq!(normalize_name("Captain America"), "captain america");
    assert_eq!(normalize_name("Nick Fury's Plan"), "nick furys plan");
}

#[test]
fn normalize_name_collapses_space() {
    assert_eq!(normalize_name("  Hulk   SMASH!  "), "hulk smash");
    assert_eq!(normalize_name(""), "");
    assert_eq!(normalize_name(&normalize_name("Black Widow's  Kit")), "black widows kit");
}

#[test]
fn test_parse_card_name_from_filename() {
    let path = "/images/Aspects/Aggression/Aggression_Uppercut_Event_01.tiff";
    let name = parse_card_name_from_filename(path, Some("Aggression"));
    assert_eq!(name, "Uppercut");
}

#[test]
fn test_parse_card_name_possessive() {
    let path = "/images/heros/Tony_IronMan/IronMan_Pepper_s_Rescue_Ally.tiff";
    let name = parse_card_name_from_filename(path, Some("Tony_IronMan"));
    assert_eq!(name, "Pepper's Rescue");
}

#[test]
fn card_name_without_context() {
    assert_eq!(parse_card_name_from_filename("Swinging_Web_Kick_Event_2.png", None), "Swinging Web Kick");
    assert_eq!(parse_card_name_from_filename("/x/Enhanced-Spider-Sense-Upgrade.jpg", None), "Enhanced Spider Sense");
}
