use mark_tui::theme::{
    base16_index, builtin_theme_choice, config_color, line_gutter_fg, parse_ansi_index,
    parse_base16_line, parse_base16_scheme, parse_config_color, parse_config_hex_color,
    parse_hex_color, parse_hex_digits, parse_named_color, BuiltinTheme, Color, ColorOverrides,
    DiffTheme, RgbColor, SyntaxClass, SyntaxPalette, ThemeError,
};
use mark_tui::emphasis::DiffLineKind;

fn no_overrides() -> ColorOverrides {
    ColorOverrides {
        bg: None, fg: None, header: None, file: None, hunk: None, notice: None, cursor: None,
        cursor_line_bg: None, muted: None, gutter_bg: None, empty_diff: None, search_match_fg: None,
        search_match_bg: None, statusline_fg: None, statusline_bg: None, statusline_accent_fg: None,
        statusline_accent_bg: None, statusline_info_fg: None, statusline_info_bg: None,
        addition_fg: None, addition_gutter_bg: None, addition_bg: None, addition_inline_bg: None,
        deletion_fg: None, deletion_gutter_bg: None, deletion_bg: None, deletion_inline_bg: None,
        attribute: None, comment: None, constant: None, constructor: None, function: None,
        keyword: None, label: None, module: None, number: None, operator: None, property: None,
        punctuation: None, string: None, tag: None, typ: None, variable: None,
    }
}

#[test]
fn hex_digits_parse_in_pairs() {
    assert_eq!(parse_hex_digits("0a1B2c"), Some(RgbColor::new(10, 27, 44)));
    assert_eq!(parse_hex_digits("0a1B2"), None);
    assert_eq!(parse_hex_digits("0g1B2c"), None);
    assert_eq!(parse_hex_digits("abcdef99"), Some(RgbColor::new(0xab, 0xcd, 0xef)));
}

#[test]
fn hex_color_reads_after_hash_or_first_word() {
    assert_eq!(parse_hex_color("  \"#010203\""), Some(RgbColor::new(1, 2, 3)));
    assert_eq!(parse_hex_color("'aabbcc', other"), Some(RgbColor::new(0xaa, 0xbb, 0xcc)));
    assert_eq!(parse_hex_color("'aabbcc', # comment"), None);
    assert_eq!(parse_hex_color("   "), None);
}

#[test]
fn base16_keys_and_lines() {
    assert_eq!(base16_index("base0A"), Some(10));
    assert_eq!(base16_index("base10"), None);
    assert_eq!(base16_index("base0g"), None);
    assert_eq!(parse_base16_line("  base0C: \"#112233\""), Some((12, RgbColor::new(0x11, 0x22, 0x33))));
    assert_eq!(parse_base16_line("\"BASE02\" = \"445566\""), Some((2, RgbColor::new(0x44, 0x55, 0x66))));
    assert_eq!(parse_base16_line("scheme: \"x\""), None);
}

#[test]
fn base16_scheme_parser_reads_yaml_and_toml_lines() {
    let scheme = parse_base16_scheme(
        r##"
base00: "#000000"
base01: "111111"
base02: "222222"
base03: "333333"
base04 = "444444"
base05 = "555555"
base06 = "666666"
base07 = "777777"
base08 = "888888"
base09 = "999999"
base0A = "aaaaaa"
base0B = "bbbbbb"
base0C = "cccccc"
base0D = "dddddd"
base0E = "eeeeee"
base0F = "ffffff"
"##,
    )
    .expect("base16 scheme should parse");
    assert_eq!(scheme.base03.color(), Color::Rgb(51, 51, 51));
    assert_eq!(scheme.base0b.color(), Color::Rgb(187, 187, 187));
    assert_eq!(SyntaxPalette::base16(scheme).color(SyntaxClass::String), Some(Color::Rgb(187, 187, 187)));
}

#[test]
fn base16_scheme_needs_every_slot() {
    assert_eq!(parse_base16_scheme("base00: 000000\nbase01: 111111\n"), None);
}

#[test]
fn config_colors_accept_every_form() {
    assert_eq!(parse_config_hex_color(" '#010203' "), Some(RgbColor::new(1, 2, 3)));
    assert_eq!(parse_config_hex_color("0x0a0b0c"), Some(RgbColor::new(10, 11, 12)));
    assert_eq!(parse_ansi_index("ansi-13"), Some(13));
    assert_eq!(parse_ansi_index("indexed:255"), Some(255));
    assert_eq!(parse_ansi_index("256"), None);
    assert_eq!(parse_ansi_index("+7"), Some(7));
    assert_eq!(parse_named_color("bright_red"), Some(Color::LightRed));
    assert_eq!(parse_named_color("purple"), Some(Color::Magenta));
    assert_eq!(parse_named_color("orange"), None);
    assert_eq!(parse_config_color(" Reset ", "bg"), Ok(Color::Reset));
    assert_eq!(parse_config_color("WHITE", "fg"), Ok(Color::White));
    assert_eq!(parse_config_color("ansi-3", "fg"), Ok(Color::Indexed(3)));
    assert_eq!(
        parse_config_color("nope", "cursor"),
        Err(ThemeError::Usage(
            "invalid color for cursor: nope; expected #rrggbb, ansi-N, or a named color".to_owned()
        ))
    );
    assert_eq!(config_color(&None, "bg"), Ok(None));
}

#[test]
fn color_overrides_replace_only_given_slots() {
    let base = DiffTheme::ansi();
    let overrides = ColorOverrides {
        bg: Some("#010203".to_owned()),
        addition_bg: Some("#123456".to_owned()),
        deletion_fg: Some("bright-red".to_owned()),
        cursor: Some("white".to_owned()),
        keyword: Some("ansi-13".to_owned()),
        variable: Some("red".to_owned()),
        ..no_overrides()
    };
    let theme = base.with_color_overrides(&overrides).expect("color overrides should parse");
    assert_eq!(theme.background, Color::Rgb(1, 2, 3));
    assert_eq!(theme.addition_bg, Color::Rgb(0x12, 0x34, 0x56));
    assert_eq!(theme.deletion_fg, Color::LightRed);
    assert_eq!(theme.cursor, Color::White);
    assert_eq!(theme.syntax.color(SyntaxClass::Keyword), Some(Color::Indexed(13)));
    assert_eq!(theme.syntax.color(SyntaxClass::Variable), Some(Color::Red));
    assert_eq!(theme.foreground, base.foreground);
    assert_eq!(line_gutter_fg(DiffLineKind::Deletion, theme), Color::LightRed);
}

#[test]
fn first_bad_override_is_reported() {
    let overrides = ColorOverrides {
        fg: Some("bad".to_owned()),
        keyword: Some("worse".to_owned()),
        ..no_overrides()
    };
    assert_eq!(
        DiffTheme::ansi().with_color_overrides(&overrides),
        Err(ThemeError::Usage("invalid color for fg: bad; expected #rrggbb, ansi-N, or a named color".to_owned()))
    );
}

#[test]
fn builtin_names_select_schemes() {
    assert_eq!(builtin_theme_choice(None), Ok(BuiltinTheme::System));
    assert_eq!(builtin_theme_choice(Some(" Default ")), Ok(BuiltinTheme::System));
    assert_eq!(builtin_theme_choice(Some("mocha")), Ok(BuiltinTheme::CatppuccinMocha));
    assert_eq!(builtin_theme_choice(Some("tokyo-night")), Ok(BuiltinTheme::Tokyonight));
    assert_eq!(
        builtin_theme_choice(Some(" Solarized ")),
        Err(ThemeError::Usage("unknown colorscheme 'solarized'".to_owned()))
    );
}

#[test]
fn ansi_palette_uses_terminal_indices() {
    let theme = DiffTheme::ansi();
    assert_eq!(theme.addition_fg, Color::Indexed(2));
    assert_eq!(theme.syntax.color(SyntaxClass::Keyword), Some(Color::Indexed(13)));
}

#[test]
fn overrides_without_colors_keep_the_theme() {
    let base = DiffTheme::ansi();
    assert!(base.with_color_overrides(&no_overrides()).unwrap() == DiffTheme::ansi());
    let transparent = DiffTheme::ansi().with_transparent_background(true);
    assert!(transparent.with_color_overrides(&no_overrides()).unwrap() == DiffTheme::ansi().with_transparent_background(true));
}

#[test]
fn color_overrides_layer_on_colorscheme() {
    let theme = DiffTheme::ansi()
        .with_color_overrides(&ColorOverrides {
            bg: Some("#010203".to_owned()),
            addition_bg: Some("#123456".to_owned()),
            deletion_fg: Some("bright-red".to_owned()),
            cursor: Some("white".to_owned()),
            search_match_fg: Some("#112233".to_owned()),
            search_match_bg: Some("#223344".to_owned()),
            statusline_accent_bg: Some("#334455".to_owned()),
            statusline_info_fg: Some("#445566".to_owned()),
            keyword: Some("ansi-13".to_owned()),
            ..no_overrides()
        })
        .expect("color overrides should parse");

    assert_eq!(theme.background, Color::Rgb(1, 2, 3));
    assert_eq!(
        mark_tui::style::row_bg(DiffLineKind::Addition, theme, mark_tui::style::DiffBackground::Subtle),
        Color::Rgb(0x12, 0x34, 0x56)
    );
    assert_eq!(theme.deletion_fg, Color::LightRed);
    assert_eq!(theme.cursor, Color::White);
    assert_eq!(theme.search_match_fg, Color::Rgb(0x11, 0x22, 0x33));
    assert_eq!(theme.search_match_bg, Color::Rgb(0x22, 0x33, 0x44));
    assert_eq!(theme.statusline_accent_bg, Color::Rgb(0x33, 0x44, 0x55));
    assert_eq!(theme.statusline_info_fg, Color::Rgb(0x44, 0x55, 0x66));
    assert_eq!(theme.syntax.color(SyntaxClass::Keyword), Some(Color::Indexed(13)));
}
