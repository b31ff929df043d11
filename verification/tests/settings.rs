use magictaskbar::registry_values::{
    hide_mode_registry_text, hide_mode_with_registry, join_shortcut_keys, parse_hide_mode,
    parse_shortcut_keys, HideMode,
};
use magictaskbar::icon_packs::icon_files_present;
use magictaskbar::resources::{acrylic_gradient_color, is_acrylic_window_label, is_dark_background};

#[test]
fn hide_modes_read_back_what_was_written() {
    for mode in [HideMode::Never, HideMode::OnOverlap, HideMode::Always] {
        assert_eq!(parse_hide_mode(hide_mode_registry_text(mode)), Some(mode));
    }
    assert_eq!(hide_mode_registry_text(HideMode::OnOverlap), "OnOverlap");
}

#[test]
fn unknown_hide_mode_text_keeps_the_configured_mode() {
    assert_eq!(parse_hide_mode("never"), None);
    assert_eq!(hide_mode_with_registry(HideMode::Always, Some("sometimes")), HideMode::Always);
    assert_eq!(hide_mode_with_registry(HideMode::Always, Some("Never")), HideMode::Never);
    assert_eq!(hide_mode_with_registry(HideMode::OnOverlap, None), HideMode::OnOverlap);
}

#[test]
fn shortcut_keys_are_trimmed_and_empty_ones_dropped() {
    assert_eq!(parse_shortcut_keys(" a , b,,c , "), vec!["a", "b", "c"]);
    assert!(parse_shortcut_keys("").is_empty());
    assert!(parse_shortcut_keys(" , ").is_empty());
}

#[test]
fn shortcut_keys_read_back_what_was_written() {
    let keys = vec!["copy".to_string(), "paste".to_string(), "screen shot".to_string()];
    let joined = join_shortcut_keys(&keys);
    assert_eq!(joined, "copy,paste,screen shot");
    assert_eq!(parse_shortcut_keys(&joined), keys);
    assert_eq!(join_shortcut_keys(&vec![]), "");
    assert_eq!(join_shortcut_keys(&vec!["one".to_string()]), "one");
}

#[test]
fn acrylic_color_follows_the_theme() {
    assert_eq!(acrylic_gradient_color(true), 0xA8303030);
    assert_eq!(acrylic_gradient_color(false), 0xA8FDFBFA);
}

#[test]
fn acrylic_applies_to_previews_and_context_menus() {
    assert!(is_acrylic_window_label("QG1hZ2ljL3ByZXZpZXc"));
    assert!(is_acrylic_window_label("QG1hZ2ljL2NvbnRleHRtZW51_2"));
    assert!(!is_acrylic_window_label("QG1hZ2ljL3Rhc2tiYXI"));
}

fn reference_is_dark(background: &str) -> bool {
    background
        .get(1..3)
        .and_then(|s| u8::from_str_radix(s, 16).ok())
        .map(|r| r < 128)
        .unwrap_or(false)
}

#[test]
fn dark_backgrounds_have_a_low_red_component() {
    for colour in ["#202020ff", "#7F0000", "#800000", "#ffffff", "#", "", "#7", "#+7", "#+z", "é7f", "#é", "#1é", "#é12", "#0g", "x00"] {
        assert_eq!(is_dark_background(colour), reference_is_dark(colour), "{}", colour);
    }
    assert!(is_dark_background("#202020"));
    assert!(!is_dark_background("#F0F0F0"));
}

#[test]
fn icon_files_are_present_with_a_base_or_both_variants() {
    assert!(icon_files_present(Some(true), None, None));
    assert!(icon_files_present(Some(false), Some(true), Some(true)));
    assert!(!icon_files_present(None, Some(true), None));
    assert!(!icon_files_present(Some(false), Some(true), Some(false)));
    assert!(!icon_files_present(None, None, None));
}
