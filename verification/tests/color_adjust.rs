use tcg_layout::color_adjust::{default_enabled, AdjustmentScope};

#[test]
fn test_scope_applies_to_sides() {
    assert!(AdjustmentScope::All.applies_to(false));
    assert!(AdjustmentScope::All.applies_to(true));
    assert!(AdjustmentScope::FrontsOnly.applies_to(false));
    assert!(!AdjustmentScope::FrontsOnly.applies_to(true));
    assert!(!AdjustmentScope::BacksOnly.applies_to(false));
    assert!(AdjustmentScope::BacksOnly.applies_to(true));
}

#[test]
fn scope_default_and_names() {
    assert_eq!(AdjustmentScope::default(), AdjustmentScope::All);
    assert_eq!(AdjustmentScope::All.display_name(), "All cards");
    assert_eq!(AdjustmentScope::FrontsOnly.display_name(), "Fronts only");
    assert_eq!(AdjustmentScope::BacksOnly.display_name(), "Backs only");
    assert!(default_enabled());
}
