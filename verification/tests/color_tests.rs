use bestls::color::{
    default_extension_colors, get_file_color, load_theme, ColorConfig, ColorValue, FileTypeColors,
    TableColors, Theme, ThemeConfig,
};
use bestls::fsops::FileType;

fn palette() -> Vec<(ColorValue, &'static str, u8)> {
    vec![
        (ColorValue::Black, "black", 30),
        (ColorValue::Red, "red", 31),
        (ColorValue::Green, "green", 32),
        (ColorValue::Yellow, "yellow", 33),
        (ColorValue::Blue, "blue", 34),
        (ColorValue::Magenta, "magenta", 35),
        (ColorValue::Cyan, "cyan", 36),
        (ColorValue::White, "white", 37),
        (ColorValue::BrightBlack, "bright_black", 90),
        (ColorValue::BrightRed, "bright_red", 91),
        (ColorValue::BrightGreen, "bright_green", 92),
        (ColorValue::BrightYellow, "bright_yellow", 93),
        (ColorValue::BrightBlue, "bright_blue", 94),
        (ColorValue::BrightMagenta, "bright_magenta", 95),
        (ColorValue::BrightCyan, "bright_cyan", 96),
        (ColorValue::BrightWhite, "bright_white", 97),
    ]
}

#[test]
fn test_color_value_from_str() {
    assert_eq!(
        ColorValue::from_str("bright_cyan"),
        Some(ColorValue::BrightCyan)
    );
    assert_eq!(ColorValue::from_str("red"), Some(ColorValue::Red));
    assert_eq!(ColorValue::from_str("invalid"), None);
}

#[test]
fn test_get_file_color() {
    let theme = Theme::default();

    let color = get_file_color(&FileType::File, "test.rs", &theme);
    assert_eq!(color, ColorValue::Yellow);

    let color = get_file_color(&FileType::File, "test.unknown", &theme);
    assert_eq!(color, theme.file_types.file);

    let color = get_file_color(&FileType::Directory, "src", &theme);
    assert_eq!(color, theme.file_types.directory);
}

#[test]
fn test_default_extension_colors() {
    let colors = default_extension_colors();
    assert!(colors.contains_key("rs"));
    assert_eq!(colors.get("rs"), Some(&ColorValue::Yellow));
    assert!(colors.contains_key("py"));
}

#[test]
fn every_color_has_its_name_and_code() {
    for (color, name, code) in palette() {
        assert_eq!(color.to_string(), name);
        assert_eq!(ColorValue::from_str(name), Some(color));
        assert_eq!(ColorValue::from_lowercase(name), Some(color));
        assert_eq!(color.ansi_code(), code);
        assert_eq!(color.ansi_prefix(), format!("\u{1b}[{}m", code));
    }
}

#[test]
fn color_names_are_read_without_regard_to_case() {
    assert_eq!(ColorValue::from_str("Bright_Cyan"), Some(ColorValue::BrightCyan));
    assert_eq!(ColorValue::from_str("RED"), Some(ColorValue::Red));
    assert_eq!(ColorValue::from_lowercase("RED"), None);
    assert_eq!(ColorValue::from_str(""), None);
    assert_eq!(ColorValue::from_str("bright-cyan"), None);
    assert_eq!(ColorValue::from_str(" red"), None);
}

#[test]
fn tabled_color_wraps_text_in_the_escape_sequences() {
    let color = ColorValue::BrightCyan.to_tabled_color();
    assert_eq!(color.get_prefix(), "\u{1b}[96m");
    assert_eq!(color.get_suffix(), "\u{1b}[39m");
    let red = ColorValue::Red.to_tabled_color();
    assert_eq!(red.get_prefix(), "\u{1b}[31m");
}

#[test]
fn default_theme_has_the_documented_colors() {
    let theme = Theme::default();
    assert_eq!(theme.file_types.file, ColorValue::BrightCyan);
    assert_eq!(theme.file_types.directory, ColorValue::BrightBlue);
    assert_eq!(theme.file_types.symlink, ColorValue::BrightMagenta);
    assert_eq!(theme.table.name, ColorValue::BrightCyan);
    assert_eq!(theme.table.size, ColorValue::BrightMagenta);
    assert_eq!(theme.table.date, ColorValue::BrightYellow);
    assert_eq!(theme.table.header, ColorValue::BrightGreen);
    assert_eq!(theme.extensions.len(), 24);
    assert_eq!(theme.extensions.get("svg"), Some(&ColorValue::Yellow));
    assert_eq!(theme.extensions.get("go"), Some(&ColorValue::BrightCyan));
    assert_eq!(theme.extensions.get("exe"), None);
}

#[test]
fn load_theme_without_configuration_gives_the_defaults() {
    let theme = load_theme(None);
    assert_eq!(theme.file_types, FileTypeColors::default());
    assert_eq!(theme.table, TableColors::default());
    assert_eq!(theme.extensions.len(), 24);
}

#[test]
fn configuration_is_laid_over_the_defaults() {
    let config = ThemeConfig {
        colors: ColorConfig {
            file_types: Some(FileTypeColors {
                file: ColorValue::White,
                directory: ColorValue::Blue,
                symlink: ColorValue::Cyan,
            }),
            extensions: Some(vec![
                ("rs".to_string(), "RED".to_string()),
                ("zig".to_string(), "bright_yellow".to_string()),
                ("py".to_string(), "no such color".to_string()),
                ("zig".to_string(), "green".to_string()),
            ]),
            table: None,
        },
    };
    let theme = load_theme(Some(config));
    assert_eq!(theme.file_types.file, ColorValue::White);
    assert_eq!(theme.table, TableColors::default());
    assert_eq!(theme.extensions.get("rs"), Some(&ColorValue::Red));
    assert_eq!(theme.extensions.get("zig"), Some(&ColorValue::Green));
    assert_eq!(theme.extensions.get("py"), Some(&ColorValue::Blue));
    assert_eq!(theme.extensions.len(), 25);
}

#[test]
fn into_theme_with_an_empty_configuration_is_the_default() {
    let config = ThemeConfig {
        colors: ColorConfig { file_types: None, extensions: None, table: None },
    };
    let theme = config.into_theme();
    assert_eq!(theme.file_types, FileTypeColors::default());
    assert_eq!(theme.table.header, ColorValue::BrightGreen);
    assert_eq!(theme.extensions.len(), 24);
}

#[test]
fn file_color_goes_by_the_lower_cased_extension() {
    let theme = Theme::default();
    assert_eq!(get_file_color(&FileType::File, "MAIN.RS", &theme), ColorValue::Yellow);
    assert_eq!(get_file_color(&FileType::File, "archive.tar.gz", &theme), ColorValue::Red);
    assert_eq!(get_file_color(&FileType::File, "noextension", &theme), ColorValue::BrightCyan);
    assert_eq!(get_file_color(&FileType::File, "trailing.", &theme), ColorValue::BrightCyan);
    assert_eq!(get_file_color(&FileType::Symlink, "link.rs", &theme), ColorValue::BrightMagenta);
    assert_eq!(get_file_color(&FileType::Directory, "dir.rs", &theme), ColorValue::BrightBlue);
}
