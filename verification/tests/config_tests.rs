use typy::config::{
    hex_to_rgb, parse_default_modes, zoom_hooks, Color, ConfigToml, ModesTable, ThemeColors, ThemeTable, ZoomTable,
};
use typy::mode::ModeType;

#[test]
fn test_hex_to_rgb() {
    assert_eq!(hex_to_rgb("#ffffff"), Some(Color::Rgb { r: 255, g: 255, b: 255 }));
    assert_eq!(hex_to_rgb("#000000"), Some(Color::Rgb { r: 0, g: 0, b: 0 }));
    assert_eq!(hex_to_rgb("#ff0000"), Some(Color::Rgb { r: 255, g: 0, b: 0 }));
    assert_eq!(hex_to_rgb("#00ff00"), Some(Color::Rgb { r: 0, g: 255, b: 0 }));
    assert_eq!(hex_to_rgb("#0000ff"), Some(Color::Rgb { r: 0, g: 0, b: 255 }));
    assert_eq!(hex_to_rgb("#123456"), Some(Color::Rgb { r: 18, g: 52, b: 86 }));
    assert_eq!(hex_to_rgb("#abcdef"), Some(Color::Rgb { r: 171, g: 205, b: 239 }));
    assert_eq!(hex_to_rgb("#12345"), None);
    assert_eq!(hex_to_rgb("#1234567"), None);
    assert_eq!(hex_to_rgb("123456"), None);
    assert_eq!(hex_to_rgb("#12345g"), None);
}

#[test]
fn hex_to_rgb_reads_upper_case_and_plus_signs() {
    assert_eq!(hex_to_rgb("#ABCDEF"), Some(Color::Rgb { r: 171, g: 205, b: 239 }));
    assert_eq!(hex_to_rgb("#+f0a+1"), Some(Color::Rgb { r: 15, g: 10, b: 1 }));
    assert_eq!(hex_to_rgb("#-f0a01"), None);
    assert_eq!(hex_to_rgb("#é1234"), None);
}

#[test]
fn theme_falls_back_per_colour() {
    let table = ThemeTable {
        fg: Some("#102030".to_string()),
        missing: None,
        error: Some("red".to_string()),
        accent: None,
    };
    let theme = ThemeColors::new(Some(table));
    assert_eq!(
        theme,
        ThemeColors {
            fg: Color::Rgb { r: 16, g: 32, b: 48 },
            missing: Color::DarkGrey,
            error: Color::Red,
            accent: Color::Yellow,
        }
    );
}

#[test]
fn theme_without_table_is_default() {
    assert_eq!(ThemeColors::new(None), ThemeColors::default());
    assert_eq!(ThemeColors::default().missing, Color::DarkGrey);
}

#[test]
fn default_modes_parse_comma_lists() {
    assert_eq!(parse_default_modes("uppercase, punctuation"), vec![ModeType::Uppercase, ModeType::Punctuation]);
    assert_eq!(parse_default_modes(" numbers ,bogus,,uppercase"), vec![ModeType::Numbers, ModeType::Uppercase]);
    assert_eq!(parse_default_modes("uppercase,normal"), vec![ModeType::Normal]);
    assert_eq!(parse_default_modes(""), Vec::<ModeType>::new());
}

#[test]
fn config_getters_return_the_tables() {
    let mut config = ConfigToml::default();
    assert!(config.get_theme().is_none());
    assert!(config.get_modes().is_none());
    config.modes = Some(ModesTable {
        default_mode: Some("numbers".to_string()),
        uppercase_chance: None,
        punctuation_chance: Some("0.5".to_string()),
        numbers_chance: None,
    });
    let modes = config.get_modes().unwrap();
    assert_eq!(modes.default_mode.as_deref(), Some("numbers"));
    assert_eq!(modes.punctuation_chance.as_deref(), Some("0.5"));
    assert!(config.get_cursor().is_none());
    assert!(config.get_language().is_none());
    assert!(config.get_zoom().is_none());
}

#[test]
fn zoom_hooks_default_to_one_step() {
    let none = zoom_hooks(None);
    assert_eq!((none.enter, none.exit, none.steps), (None, None, 1));
    let table = ZoomTable { enter: Some("zoom in".to_string()), exit: Some("zoom out".to_string()), steps: None };
    let hooks = zoom_hooks(Some(table));
    assert_eq!(hooks.enter.as_deref(), Some("zoom in"));
    assert_eq!(hooks.exit.as_deref(), Some("zoom out"));
    assert_eq!(hooks.steps, 1);
    let three = zoom_hooks(Some(ZoomTable { enter: None, exit: None, steps: Some(3) }));
    assert_eq!(three.steps, 3);
}
