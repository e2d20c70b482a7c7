use tors::theme::{accent_of_theme, get_color_for_type, get_colors, hex_to_rgb, Accent};

#[test]
fn each_theme_resolves_to_its_palette() {
    let desert = get_colors("Desert");
    assert_eq!(desert.success, "#E5CAB7");
    assert_eq!(desert.error, "#FF0000");
    assert_eq!(desert.warning, "#FF00FF");
    assert_eq!(desert.info, "#DCB8B0");

    let oasis = get_colors("Oasis");
    assert_eq!(oasis.success, "#A6DFA7");
    assert_eq!(oasis.error, "#F7A1A3");
    assert_eq!(oasis.warning, "#F8C98B");
    assert_eq!(oasis.info, "#A5D8F3");

    let forest = get_colors("Forest");
    assert_eq!(forest.success, "#B6D8B3");
    assert_eq!(forest.error, "#E6A6A8");
    assert_eq!(forest.warning, "#F1D8A5");
    assert_eq!(forest.info, "#92C8C7");

    let snow = get_colors("Snow");
    assert_eq!(snow.success, "#C8E3D4");
    assert_eq!(snow.error, "#F4B6C2");
    assert_eq!(snow.warning, "#F8E8A1");
    assert_eq!(snow.info, "#B7E1F5");
}

#[test]
fn unrecognized_theme_falls_back_to_the_desert_palette() {
    let fallback = get_colors("Midnight");
    assert_eq!(fallback.success, "#E5CAB7");
    assert_eq!(fallback.error, "#FF0000");
    assert_eq!(fallback.warning, "#FF00FF");
    assert_eq!(fallback.info, "#DCB8B0");
}

#[test]
fn color_for_type_picks_one_semantic_color() {
    assert_eq!(get_color_for_type("Oasis", "success"), "#A6DFA7");
    assert_eq!(get_color_for_type("Oasis", "error"), "#F7A1A3");
    assert_eq!(get_color_for_type("Snow", "warning"), "#F8E8A1");
    assert_eq!(get_color_for_type("Forest", "info"), "#92C8C7");
    assert_eq!(get_color_for_type("Oasis", "mystery"), "#000000");
}

#[test]
fn accents_follow_the_theme() {
    assert_eq!(accent_of_theme("Desert"), Accent::Yellow);
    assert_eq!(accent_of_theme("Oasis"), Accent::Cyan);
    assert_eq!(accent_of_theme("Forest"), Accent::Green);
    assert_eq!(accent_of_theme("Snow"), Accent::White);
    assert_eq!(accent_of_theme("Midnight"), Accent::Blue);
}

#[test]
fn hex_colors_parse_exactly() {
    assert_eq!(hex_to_rgb("#FF0000"), Some((255, 0, 0)));
    assert_eq!(hex_to_rgb("#E5CAB7"), Some((0xE5, 0xCA, 0xB7)));
    assert_eq!(hex_to_rgb("00ff7f"), Some((0, 255, 127)));
    assert_eq!(hex_to_rgb("##92C8C7"), Some((0x92, 0xC8, 0xC7)));
    assert_eq!(hex_to_rgb("#AbCdEf"), Some((0xAB, 0xCD, 0xEF)));
}

#[test]
fn hex_parsing_ignores_trailing_characters() {
    assert_eq!(hex_to_rgb("#FF0000extra"), Some((255, 0, 0)));
}

#[test]
fn malformed_hex_colors_are_rejected() {
    assert_eq!(hex_to_rgb(""), None);
    assert_eq!(hex_to_rgb("#FFF"), None);
    assert_eq!(hex_to_rgb("#GG0000"), None);
    assert_eq!(hex_to_rgb("#FF00 0"), None);
    assert_eq!(hex_to_rgb("######"), None);
}
