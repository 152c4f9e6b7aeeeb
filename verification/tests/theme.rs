use rendermd_core::theme::{effective_background, palette_from_colors, Settings, ThemeColors};

fn colors() -> ThemeColors {
    ThemeColors {
        mode: None,
        accent: None,
        selection: None,
        muted: None,
        background: None,
        dark_background: None,
        darker_background: None,
        lighter_background: None,
        foreground: None,
        dark_foreground: None,
        red: None,
        yellow: None,
        green: None,
        cyan: None,
        blue: None,
        magenta: None,
    }
}

#[test]
fn palette_defaults_and_fallbacks() {
    let c = colors();
    assert_eq!(effective_background(&c), "#101010");
    let p = palette_from_colors(&c, true);
    assert!(p.dark);
    assert_eq!(p.background, "#101010");
    assert_eq!(p.darker_background, "#101010");
    assert_eq!(p.lighter_background, "#101010");
    assert_eq!(p.foreground, "#eeeeee");
    assert_eq!(p.muted, "#6a6565");
    assert_eq!(p.dark_foreground, "#6a6565");
    assert_eq!(p.accent, "#5584aa");
    assert_eq!(p.magenta, "#8b3a45");
}

#[test]
fn palette_mode_overrides_background_lightness() {
    let mut c = colors();
    c.mode = Some("light".into());
    c.background = Some("#000000".into());
    c.dark_background = Some("#111111".into());
    c.muted = Some("".into());
    let p = palette_from_colors(&c, true);
    assert!(!p.dark);
    assert_eq!(p.darker_background, "#111111");
    assert_eq!(p.muted, "#6a6565");
    c.mode = Some("dark".into());
    assert!(palette_from_colors(&c, false).dark);
    c.mode = Some("other".into());
    assert!(!palette_from_colors(&c, false).dark);
}

#[test]
fn palette_css_uses_palette_colours() {
    let mut c = colors();
    c.background = Some("#123456".into());
    c.yellow = Some("#ffff00".into());
    let css = palette_from_colors(&c, true).preview_css();
    assert!(css.starts_with("\n:root {\n  --bg: #123456;\n"));
    assert!(css.contains("--change: #ffff00;"));
    assert!(css.contains("body {\n  background: #123456;\n  color: #eeeeee;"));
}

#[test]
fn settings_default_shows_history() {
    let s = Settings::default();
    assert!(s.history_visible);
    assert!(!s.history_collapsed);
}
