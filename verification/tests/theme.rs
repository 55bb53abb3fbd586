//! Colour themes.

use papr::theme::{builtin, builtin_theme, parse_color, Rgb, Theme, ThemeError, ThemeSpec};

#[test]
fn loads_every_builtin_theme() {
    for name in [
        "catppuccin-mocha",
        "catppuccin-macchiato",
        "catppuccin-frappe",
        "catppuccin-latte",
        "tokyo-night",
        "gruvbox",
        "nord",
        "dracula",
        "light",
        "rose-pink-dark",
        "rose-pink-light",
        "everforest",
        "kanagawa",
        "one-dark",
        "cyberpunk",
        "ember",
        "verdant",
        "lavender",
        "parchment",
    ] {
        let theme = Theme::load(name).unwrap();
        assert_ne!(theme.text, theme.background);
    }
}

#[test]
fn parses_rgb_colors() {
    let theme = Theme::load("catppuccin").unwrap();
    assert_eq!(theme.accent, Rgb { r: 137, g: 180, b: 250 });
}

#[test]
fn names_are_found_in_whatever_case() {
    let theme = Theme::load("NORD").unwrap();
    assert_eq!(theme.name, "NORD");
    assert_eq!(theme.background, Rgb { r: 0x2e, g: 0x34, b: 0x40 });
    assert_eq!(builtin("nord").unwrap().border, "#4c566a");
    assert_eq!(builtin_theme(18), "parchment");
}

#[test]
fn an_unknown_theme_is_told() {
    let error = Theme::load("no such theme").unwrap_err();
    assert!(matches!(&error, ThemeError::UnknownTheme(name) if name == "no such theme"));
    assert_eq!(error.message(), "unknown theme 'no such theme'");
}

#[test]
fn colors_take_a_number_sign_or_none() {
    assert_eq!(parse_color("#0a0B0c").unwrap(), Rgb { r: 10, g: 11, b: 12 });
    assert_eq!(parse_color("ff0010").unwrap(), Rgb { r: 255, g: 0, b: 16 });
    for wrong in [
        "", "#", "#12345", "#1234567", "zz0000", "0+0000x", "f+0000", "#+1+2+3", "+f0010", "##12345",
        "1\u{e9}1\u{e9}", "\u{e9}\u{e9}\u{e9}",
    ] {
        let error = parse_color(wrong).unwrap_err();
        assert!(matches!(&error, ThemeError::InvalidColor(_)));
    }
    assert_eq!(
        parse_color("#12").unwrap_err().message(),
        "invalid color '12'; expected #RRGGBB"
    );
}

#[test]
fn the_first_wrong_color_is_told() {
    let mut spec = builtin("gruvbox").unwrap();
    spec.muted = "grey".into();
    spec.border = "none".into();
    let error = Theme::try_from(spec).unwrap_err();
    assert!(matches!(&error, ThemeError::InvalidColor(value) if value == "grey"));
}

#[test]
fn messages_tell_what_went_wrong_with_a_file() {
    assert_eq!(ThemeError::Io("gone".into()).message(), "could not read theme: gone");
    assert_eq!(ThemeError::Toml("line 1".into()).message(), "invalid theme TOML: line 1");
}

#[test]
fn a_theme_of_ones_own_is_read() {
    let color = || "#010203".to_owned();
    let spec = ThemeSpec {
        name: "own".into(),
        background: color(),
        surface: color(),
        text: "0a0a0a".into(),
        muted: color(),
        accent: color(),
        secondary: color(),
        success: color(),
        warning: color(),
        error: color(),
        border: "#ffffff".into(),
    };
    let theme = Theme::try_from(spec).unwrap();
    assert_eq!(theme.name, "own");
    assert_eq!(theme.text, Rgb { r: 10, g: 10, b: 10 });
    assert_eq!(theme.warning, Rgb { r: 1, g: 2, b: 3 });
    assert_eq!(theme.border, Rgb { r: 255, g: 255, b: 255 });
}
