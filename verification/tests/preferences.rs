use cosmic_comic::settings::{config_path, Background, Settings};

#[test]
fn backgrounds_have_labels_and_places() {
    assert_eq!(Background::Theme.label(), "Theme");
    assert_eq!(Background::Black.label(), "Black");
    for b in [Background::Theme, Background::Black] {
        assert_eq!(Background::from_index(b.index()), Some(b));
    }
    assert_eq!(Background::from_index(2), None);
}

#[test]
fn defaults_are_those_of_a_first_start() {
    let s = Settings::default();
    assert_eq!(s.background, Background::Theme);
    assert!(!s.dual_page);
    assert!(!s.theater_mode);
    assert!(s.fetch_metadata);
    assert_eq!(config_path("/conf/cosmic-comic"), "/conf/cosmic-comic/settings.json");
}
