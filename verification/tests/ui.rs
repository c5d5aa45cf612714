use tcg_layout::google_drive::timestamp_now;
use tcg_layout::ui::{format_age, format_index_age, CardSizeOption, ExportFormat, PageSizeOption};

#[test]
fn ages_read_naturally() {
    assert_eq!(format_age(0), "just now");
    assert_eq!(format_age(59), "just now");
    assert_eq!(format_age(60), "1 min ago");
    assert_eq!(format_age(3599), "59 min ago");
    assert_eq!(format_age(3600), "1 hours ago");
    assert_eq!(format_age(86399), "23 hours ago");
    assert_eq!(format_age(86400), "1 days ago");
    assert_eq!(format_age(3 * 86400 + 5), "3 days ago");
}

#[test]
fn option_names() {
    assert_eq!(PageSizeOption::A4.display_name(), "A4 (210 × 297 mm)");
    assert_eq!(CardSizeOption::Poker.display_name(), "Poker Card (63 × 88 mm)");
    assert_eq!(ExportFormat::Pdf.label(), "PDF");
    assert_eq!(ExportFormat::Svg.label(), "SVG");
}

#[test]
fn clock_reads_seconds_since_the_epoch() {
    let now = timestamp_now();
    // after 2020 and not in milliseconds
    assert!(now > 1_600_000_000 && now < 100_000_000_000);
    assert_eq!(format_index_age(now), "just now");
    assert_eq!(format_index_age(now - 7200), "2 hours ago");
    // an index stamped in the future reads as just made
    assert_eq!(format_index_age(now + 1000), "just now");
}
