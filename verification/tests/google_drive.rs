use std::path::PathBuf;
use tcg_layout::google_drive::{
    capitalize, determine_context_prefix, determine_local_path, extract_hero_name_from_drive,
    is_folder, map_faction_to_aspect, parse_drive_filename, parse_drive_folder_url, DriveFile,
    DriveIndex, DriveUrlError, FolderMap, HeroFolder,
};

#[test]
fn test_parse_drive_folder_url_raw_id() {
    let result = parse_drive_folder_url("1FO7FRfJbqGsmAkfePhkzpmEqmW1-VwF2").unwrap();
    assert_eq!(result, "1FO7FRfJbqGsmAkfePhkzpmEqmW1-VwF2");
}

#[test]
fn test_parse_drive_folder_url_standard() {
    let result = parse_drive_folder_url(
        "https://drive.google.com/drive/folders/1FO7FRfJbqGsmAkfePhkzpmEqmW1-VwF2",
    )
    .unwrap();
    assert_eq!(result, "1FO7FRfJbqGsmAkfePhkzpmEqmW1-VwF2");
}

#[test]
fn test_parse_drive_folder_url_with_query_params() {
    let result = parse_drive_folder_url(
        "https://drive.google.com/drive/folders/1FO7FRfJbqGsmAkfePhkzpmEqmW1-VwF2?usp=sharing",
    )
    .unwrap();
    assert_eq!(result, "1FO7FRfJbqGsmAkfePhkzpmEqmW1-VwF2");
}

#[test]
fn test_parse_drive_folder_url_with_user_path() {
    let result = parse_drive_folder_url(
        "https://drive.google.com/drive/u/0/folders/1FO7FRfJbqGsmAkfePhkzpmEqmW1-VwF2",
    )
    .unwrap();
    assert_eq!(result, "1FO7FRfJbqGsmAkfePhkzpmEqmW1-VwF2");
}

#[test]
fn test_parse_drive_folder_url_empty() {
    assert!(parse_drive_folder_url("").is_err());
}

#[test]
fn test_parse_drive_folder_url_invalid_url() {
    assert!(parse_drive_folder_url("https://drive.google.com/drive/whatever").is_err());
}

#[test]
fn test_parse_drive_folder_url_with_whitespace() {
    let result = parse_drive_folder_url("  1FO7FRfJbqGsmAkfePhkzpmEqmW1-VwF2  ").unwrap();
    assert_eq!(result, "1FO7FRfJbqGsmAkfePhkzpmEqmW1-VwF2");
}

#[test]
fn drive_url_errors_name_their_cause() {
    assert_eq!(parse_drive_folder_url("   "), Err(DriveUrlError::EmptyInput));
    assert_eq!(
        parse_drive_folder_url(" https://drive.google.com/drive/folders/ "),
        Err(DriveUrlError::NoFolderId("https://drive.google.com/drive/folders/".to_string()))
    );
    assert_eq!(
        parse_drive_folder_url("http://x/folders/abc?q=1").unwrap(),
        "abc"
    );
}

#[test]
fn parsed_folder_id_parses_to_itself() {
    let id = parse_drive_folder_url(
        "https://drive.google.com/drive/folders/1FO7FRfJbqGsmAkfePhkzpmEqmW1-VwF2?usp=sharing",
    )
    .unwrap();
    assert_eq!(parse_drive_folder_url(&id).unwrap(), id);
}

#[test]
fn test_extract_hero_name_from_drive_simple() {
    assert_eq!(extract_hero_name_from_drive("Ororo Monroe_Storm"), "Storm");
}

#[test]
fn test_extract_hero_name_from_drive_with_suffix() {
    assert_eq!(extract_hero_name_from_drive("Ororo Monroe_Storm (u)"), "Storm");
}

#[test]
fn test_extract_hero_name_from_drive_no_underscore() {
    assert_eq!(extract_hero_name_from_drive("Wolverine"), "Wolverine");
}

#[test]
fn test_extract_hero_name_from_drive_with_parenthetical() {
    assert_eq!(extract_hero_name_from_drive("Anna Marie_Rogue (u)"), "Rogue");
}

fn hero(id: &str, folder: &str, name: &str) -> HeroFolder {
    HeroFolder {
        folder_id: id.to_string(),
        folder_name: folder.to_string(),
        hero_name: name.to_string(),
    }
}

#[test]
fn test_folder_map_folders_for_faction() {
    let mut map = FolderMap::new();
    map.insert_aspect_folder("aggression".to_string(), "agg_id".to_string());
    map.insert_aspect_folder("basic".to_string(), "basic_id".to_string());
    map.hero_folders.push(hero("storm_id", "Ororo Monroe_Storm", "Storm"));

    let folders = map.folders_for_faction("aggression", "Storm", "");
    assert!(folders.contains(&"agg_id".to_string()));
    assert!(folders.contains(&"basic_id".to_string()));
    assert!(folders.contains(&"storm_id".to_string()));

    let folders = map.folders_for_faction("hero", "Storm", "");
    assert!(folders.contains(&"basic_id".to_string()));
    assert!(folders.contains(&"storm_id".to_string()));

    map.hero_folders.push(hero("nova_id", "Sam Alexander_Nova", "Nova"));
    let folders = map.folders_for_faction("aggression", "Storm", "nova");
    assert!(folders.contains(&"agg_id".to_string()));
    assert!(folders.contains(&"storm_id".to_string()));
    assert!(folders.contains(&"nova_id".to_string()));
}

#[test]
fn folders_for_faction_order_and_no_repeats() {
    let mut map = FolderMap::new();
    map.insert_aspect_folder("aggression".to_string(), "agg_id".to_string());
    map.insert_aspect_folder("basic".to_string(), "basic_id".to_string());
    map.hero_folders.push(hero("storm_id", "Ororo Monroe_Storm", "Storm"));
    let folders = map.folders_for_faction("aggression", "Storm", "storm");
    assert_eq!(folders, vec!["agg_id", "basic_id", "storm_id"]);
    let folders = map.folders_for_faction("basic", "Storm", "");
    assert_eq!(folders, vec!["basic_id", "storm_id"]);
    let all = map.all_folder_ids();
    for f in &folders {
        assert!(all.contains(f));
    }
}

#[test]
fn insert_aspect_folder_replaces() {
    let mut map = FolderMap::new();
    map.insert_aspect_folder("justice".to_string(), "a".to_string());
    map.insert_aspect_folder("justice".to_string(), "b".to_string());
    assert_eq!(map.aspect_folder(&"justice".to_string()), Some(&"b".to_string()));
    assert_eq!(map.aspect_folders.len(), 1);
    assert_eq!(map.aspect_folder(&"leadership".to_string()), None);
}

#[test]
fn test_determine_local_path_aspect_folder() {
    let mut map = FolderMap::new();
    map.insert_aspect_folder("aggression".to_string(), "agg_id".to_string());

    let images_dir = "/images/Marvel Champions";
    let result = determine_local_path(
        "Aggression_Uppercut_Event.tiff",
        "aggression",
        "Storm",
        images_dir,
        "agg_id",
        &map,
    );
    assert_eq!(
        PathBuf::from(result),
        PathBuf::from("/images/Marvel Champions/Aspects/Aggression/Aggression_Uppercut_Event.tiff")
    );
}

#[test]
fn test_determine_local_path_hero_folder() {
    let mut map = FolderMap::new();
    map.hero_folders.push(hero("storm_id", "Ororo Monroe_Storm (u)", "Storm"));

    let images_dir = "/images/Marvel Champions";
    let result = determine_local_path(
        "Storm_Lightning_Bolt_Event.tiff",
        "hero",
        "Storm",
        images_dir,
        "storm_id",
        &map,
    );
    assert_eq!(
        PathBuf::from(result),
        PathBuf::from(
            "/images/Marvel Champions/heros/Ororo Monroe_Storm (u)/Storm_Lightning_Bolt_Event.tiff"
        )
    );
}

#[test]
fn faction_mapping() {
    assert_eq!(map_faction_to_aspect("hero"), "hero");
    assert_eq!(map_faction_to_aspect("neutral"), "basic");
    assert_eq!(map_faction_to_aspect("pool"), "basic");
    assert_eq!(map_faction_to_aspect("justice"), "justice");
    assert_eq!(map_faction_to_aspect(&map_faction_to_aspect("pool")), "basic");
}

#[test]
fn folder_mime_and_prefix() {
    assert!(is_folder("application/vnd.google-apps.folder"));
    assert!(!is_folder("image/png"));
    assert_eq!(capitalize("aggression"), Some("Aggression".to_string()));
    assert_eq!(capitalize(""), None);
    let mut map = FolderMap::new();
    map.insert_aspect_folder("protection".to_string(), "p_id".to_string());
    map.hero_folders.push(hero("h_id", "Peter Parker_Spider-Man", "Spider-Man"));
    assert_eq!(determine_context_prefix("p_id", &map), Some("Protection".to_string()));
    assert_eq!(
        determine_context_prefix("h_id", &map),
        Some("Spider-Man".to_string())
    );
    assert_eq!(determine_context_prefix("other", &map), None);
}

#[test]
fn drive_filename_names() {
    assert_eq!(
        parse_drive_filename("Aggression_Uppercut_Event.tiff", Some("Aggression")),
        "uppercut"
    );
}

#[test]
fn drive_index_counts_files() {
    let file = |n: &str| DriveFile {
        id: n.to_string(),
        name: n.to_string(),
        mime_type: "image/png".to_string(),
    };
    let index = DriveIndex {
        root_folder_id: "root".to_string(),
        folder_map: FolderMap::new(),
        folder_files: vec![
            ("a".to_string(), vec![file("1"), file("2")]),
            ("b".to_string(), vec![]),
            ("c".to_string(), vec![file("3")]),
        ],
        updated_at: 0,
    };
    assert_eq!(index.file_count(), 3);
}

use tcg_layout::google_drive::{classify_top_folder, is_card_image_file, TopFolder};

fn drive_file(id: &str, name: &str, folder: bool) -> DriveFile {
    DriveFile {
        id: id.to_string(),
        name: name.to_string(),
        mime_type: if folder {
            "application/vnd.google-apps.folder".to_string()
        } else {
            "image/png".to_string()
        },
    }
}

#[test]
fn top_level_folders_are_classified() {
    assert_eq!(classify_top_folder(&drive_file("1", "Aspects", true)), TopFolder::Aspects);
    assert_eq!(classify_top_folder(&drive_file("1", "ASPECT", true)), TopFolder::Aspects);
    assert_eq!(classify_top_folder(&drive_file("1", "Heros", true)), TopFolder::Heroes);
    assert_eq!(classify_top_folder(&drive_file("1", "heroes", true)), TopFolder::Heroes);
    assert_eq!(classify_top_folder(&drive_file("1", "Hero", true)), TopFolder::Heroes);
    assert_eq!(classify_top_folder(&drive_file("1", "Aspects", false)), TopFolder::Other);
    assert_eq!(classify_top_folder(&drive_file("1", "Basic", true)), TopFolder::Other);
}

#[test]
fn folder_map_is_built_from_listings() {
    let mut map = FolderMap::new();
    map.add_aspect_listing(&vec![
        drive_file("agg", "Aggression", true),
        drive_file("x", "readme.png", false),
        drive_file("jus", "Justice", true),
        drive_file("agg2", "AGGRESSION", true),
    ]);
    assert_eq!(map.aspect_folder(&"aggression".to_string()), Some(&"agg2".to_string()));
    assert_eq!(map.aspect_folder(&"justice".to_string()), Some(&"jus".to_string()));
    assert_eq!(map.aspect_folder(&"readme.png".to_string()), None);
    map.add_hero_listing(&vec![
        drive_file("s", "Ororo Monroe_Storm (u)", true),
        drive_file("f", "cover.png", false),
    ]);
    assert_eq!(map.hero_folders.len(), 1);
    assert_eq!(map.hero_folders[0].folder_id, "s");
    assert_eq!(map.hero_folders[0].hero_name, "Storm");
}

#[test]
fn only_image_files_are_candidates() {
    assert!(is_card_image_file(&drive_file("1", "Card.TIFF", false)));
    assert!(is_card_image_file(&drive_file("1", "a.b.jpeg", false)));
    assert!(is_card_image_file(&drive_file("1", "x.png", false)));
    assert!(!is_card_image_file(&drive_file("1", "x.gif", false)));
    assert!(!is_card_image_file(&drive_file("1", "noext", false)));
    assert!(!is_card_image_file(&drive_file("1", "folder.png", true)));
}

#[test]
fn index_lists_files_by_folder() {
    let index = DriveIndex {
        root_folder_id: "root".to_string(),
        folder_map: FolderMap::new(),
        folder_files: vec![("a".to_string(), vec![drive_file("1", "x.png", false)])],
        updated_at: 0,
    };
    assert_eq!(index.files_in(&"a".to_string()).map(|v| v.len()), Some(1));
    assert!(index.files_in(&"b".to_string()).is_none());
}

#[test]
fn recorded_files_are_read_back() {
    let mut index = DriveIndex::new("root".to_string(), FolderMap::new(), 7);
    assert!(index.folder_ids_unique());
    index.record_folder_files("a".to_string(), vec![drive_file("1", "x.png", false)]);
    index.record_folder_files("b".to_string(), vec![]);
    index.record_folder_files(
        "a".to_string(),
        vec![drive_file("2", "y.png", false), drive_file("3", "z.png", false)],
    );
    assert_eq!(index.folder_files.len(), 2);
    assert!(index.folder_ids_unique());
    assert_eq!(index.files_in(&"a".to_string()).map(|v| v.len()), Some(2));
    assert_eq!(index.files_in(&"b".to_string()).map(|v| v.len()), Some(0));
    assert_eq!(index.file_count(), 2);
    assert_eq!(index.updated_at, 7);
    index.folder_files.push(("b".to_string(), vec![]));
    assert!(!index.folder_ids_unique());
}
