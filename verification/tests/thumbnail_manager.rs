use std::path::PathBuf;
use std::time::UNIX_EPOCH;
use tcg_layout::thumbnail_manager::CacheKey;

fn key(amount: u32, radius: u32, threshold: u32) -> CacheKey {
    CacheKey::new(PathBuf::from("cards/a.png"), UNIX_EPOCH, true, 30, true, amount, radius, threshold)
}

#[test]
fn every_sharpen_setting_is_part_of_the_key() {
    assert_eq!(key(120, 70, 20), key(120, 70, 20));
    assert_ne!(key(120, 70, 20), key(130, 70, 20));
    assert_ne!(key(120, 70, 20), key(120, 100, 20));
    assert_ne!(key(120, 70, 20), key(120, 70, 50));
}

#[test]
fn file_and_bleed_are_part_of_the_key() {
    let a = key(120, 70, 20);
    let other_file = CacheKey::new(PathBuf::from("cards/b.png"), UNIX_EPOCH, true, 30, true, 120, 70, 20);
    assert_ne!(a, other_file);
    let other_bleed = CacheKey::new(PathBuf::from("cards/a.png"), UNIX_EPOCH, true, 20, true, 120, 70, 20);
    assert_ne!(a, other_bleed);
    assert_eq!(a.path(), &PathBuf::from("cards/a.png"));
}
