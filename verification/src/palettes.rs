//! The named palettes that colorschemes are built from, and the syntax
//! colors each scheme family takes from its palette.
use vstd::prelude::*;
use crate::theme::{Color, RgbColor, SyntaxPalette};

verus! {

/// The terminal color of a palette entry.
pub open spec fn rgb(c: RgbColor) -> Color {
    Color::Rgb(c.red, c.green, c.blue)
}

/// The colors of one Catppuccin flavor.
#[derive(Debug, Clone, Copy, PartialEq, Eq, Structural)]
pub struct CatppuccinPalette {
    pub rosewater: RgbColor,
    pub flamingo: RgbColor,
    pub pink: RgbColor,
    pub mauve: RgbColor,
    pub red: RgbColor,
    pub maroon: RgbColor,
    pub peach: RgbColor,
    pub yellow: RgbColor,
    pub green: RgbColor,
    pub teal: RgbColor,
    pub sky: RgbColor,
    pub sapphire: RgbColor,
    pub blue: RgbColor,
    pub lavender: RgbColor,
    pub text: RgbColor,
    pub subtext1: RgbColor,
    pub subtext0: RgbColor,
    pub overlay2: RgbColor,
    pub overlay1: RgbColor,
    pub overlay0: RgbColor,
    pub surface2: RgbColor,
    pub surface1: RgbColor,
    pub surface0: RgbColor,
    pub base: RgbColor,
    pub mantle: RgbColor,
    pub crust: RgbColor,
}

/// The colors of one Gruvbox variant.
#[derive(Debug, Clone, Copy, PartialEq, Eq, Structural)]
pub struct GruvboxPalette {
    pub bg0_h: RgbColor,
    pub bg0: RgbColor,
    pub bg0_s: RgbColor,
    pub bg1: RgbColor,
    pub bg2: RgbColor,
    pub bg3: RgbColor,
    pub bg4: RgbColor,
    pub fg0: RgbColor,
    pub fg1: RgbColor,
    pub fg2: RgbColor,
    pub fg3: RgbColor,
    pub fg4: RgbColor,
    pub red: RgbColor,
    pub green: RgbColor,
    pub yellow: RgbColor,
    pub blue: RgbColor,
    pub purple: RgbColor,
    pub aqua: RgbColor,
    pub gray: RgbColor,
    pub orange: RgbColor,
    pub bright_red: RgbColor,
    pub bright_green: RgbColor,
    pub bright_yellow: RgbColor,
    pub bright_blue: RgbColor,
    pub bright_purple: RgbColor,
    pub bright_aqua: RgbColor,
    pub bright_gray: RgbColor,
    pub bright_orange: RgbColor,
}

/// The colors of one GitHub theme.
#[derive(Debug, Clone, Copy, PartialEq, Eq, Structural)]
pub struct GithubPalette {
    pub fg_default: RgbColor,
    pub fg_muted: RgbColor,
    pub fg_subtle: RgbColor,
    pub canvas_default: RgbColor,
    pub canvas_subtle: RgbColor,
    pub canvas_inset: RgbColor,
    pub border_default: RgbColor,
    pub accent_fg: RgbColor,
    pub success_fg: RgbColor,
    pub attention_fg: RgbColor,
    pub severe_fg: RgbColor,
    pub danger_fg: RgbColor,
    pub done_fg: RgbColor,
    pub syntax_comment: RgbColor,
    pub syntax_constant: RgbColor,
    pub syntax_entity: RgbColor,
    pub syntax_storage: RgbColor,
    pub syntax_string: RgbColor,
    pub syntax_variable: RgbColor,
    pub syntax_regexp: RgbColor,
}

impl SyntaxPalette {
    /// Syntax colors of a Catppuccin flavor: keywords in mauve, functions in blue,
    /// strings in green, numbers and constants in peach, comments and
    /// punctuation in overlay 2, operators and properties in teal, and the
    /// rest in yellow or blue; variables keep the text color.
    pub fn catppuccin(palette: CatppuccinPalette) -> (r: SyntaxPalette)
        ensures
            r == (SyntaxPalette {
                attribute: Some(rgb(palette.yellow)),
                comment: Some(rgb(palette.overlay2)),
                constant: Some(rgb(palette.peach)),
                constructor: Some(rgb(palette.yellow)),
                function: Some(rgb(palette.blue)),
                keyword: Some(rgb(palette.mauve)),
                label: Some(rgb(palette.yellow)),
                module: Some(rgb(palette.yellow)),
                number: Some(rgb(palette.peach)),
                operator: Some(rgb(palette.teal)),
                property: Some(rgb(palette.teal)),
                punctuation: Some(rgb(palette.overlay2)),
                string: Some(rgb(palette.green)),
                tag: Some(rgb(palette.blue)),
                typ: Some(rgb(palette.yellow)),
                variable: None,
            }),
    {
        SyntaxPalette {
            attribute: Some(palette.yellow.color()),
            comment: Some(palette.overlay2.color()),
            constant: Some(palette.peach.color()),
            constructor: Some(palette.yellow.color()),
            function: Some(palette.blue.color()),
            keyword: Some(palette.mauve.color()),
            label: Some(palette.yellow.color()),
            module: Some(palette.yellow.color()),
            number: Some(palette.peach.color()),
            operator: Some(palette.teal.color()),
            property: Some(palette.teal.color()),
            punctuation: Some(palette.overlay2.color()),
            string: Some(palette.green.color()),
            tag: Some(palette.blue.color()),
            typ: Some(palette.yellow.color()),
            variable: None,
        }
    }

    /// Syntax colors of a Gruvbox variant, mostly from its bright colors.
    pub fn gruvbox(palette: GruvboxPalette) -> (r: SyntaxPalette)
        ensures
            r == (SyntaxPalette {
                attribute: Some(rgb(palette.bright_yellow)),
                comment: Some(rgb(palette.gray)),
                constant: Some(rgb(palette.bright_purple)),
                constructor: Some(rgb(palette.bright_yellow)),
                function: Some(rgb(palette.bright_yellow)),
                keyword: Some(rgb(palette.bright_red)),
                label: Some(rgb(palette.bright_yellow)),
                module: Some(rgb(palette.bright_yellow)),
                number: Some(rgb(palette.bright_purple)),
                operator: Some(rgb(palette.bright_aqua)),
                property: Some(rgb(palette.aqua)),
                punctuation: Some(rgb(palette.fg4)),
                string: Some(rgb(palette.bright_green)),
                tag: Some(rgb(palette.bright_aqua)),
                typ: Some(rgb(palette.bright_yellow)),
                variable: Some(rgb(palette.bright_blue)),
            }),
    {
        SyntaxPalette {
            attribute: Some(palette.bright_yellow.color()),
            comment: Some(palette.gray.color()),
            constant: Some(palette.bright_purple.color()),
            constructor: Some(palette.bright_yellow.color()),
            function: Some(palette.bright_yellow.color()),
            keyword: Some(palette.bright_red.color()),
            label: Some(palette.bright_yellow.color()),
            module: Some(palette.bright_yellow.color()),
            number: Some(palette.bright_purple.color()),
            operator: Some(palette.bright_aqua.color()),
            property: Some(palette.aqua.color()),
            punctuation: Some(palette.fg4.color()),
            string: Some(palette.bright_green.color()),
            tag: Some(palette.bright_aqua.color()),
            typ: Some(palette.bright_yellow.color()),
            variable: Some(palette.bright_blue.color()),
        }
    }

    /// Syntax colors of a GitHub theme, from its syntax colors; attributes and
    /// punctuation keep the text color.
    pub fn github(palette: GithubPalette) -> (r: SyntaxPalette)
        ensures
            r == (SyntaxPalette {
                attribute: None,
                comment: Some(rgb(palette.syntax_comment)),
                constant: Some(rgb(palette.syntax_constant)),
                constructor: Some(rgb(palette.syntax_variable)),
                function: Some(rgb(palette.syntax_entity)),
                keyword: Some(rgb(palette.syntax_storage)),
                label: Some(rgb(palette.syntax_variable)),
                module: Some(rgb(palette.syntax_constant)),
                number: Some(rgb(palette.syntax_constant)),
                operator: Some(rgb(palette.syntax_storage)),
                property: Some(rgb(palette.syntax_constant)),
                punctuation: None,
                string: Some(rgb(palette.syntax_string)),
                tag: Some(rgb(palette.syntax_regexp)),
                typ: Some(rgb(palette.syntax_variable)),
                variable: Some(rgb(palette.syntax_variable)),
            }),
    {
        SyntaxPalette {
            attribute: None,
            comment: Some(palette.syntax_comment.color()),
            constant: Some(palette.syntax_constant.color()),
            constructor: Some(palette.syntax_variable.color()),
            function: Some(palette.syntax_entity.color()),
            keyword: Some(palette.syntax_storage.color()),
            label: Some(palette.syntax_variable.color()),
            module: Some(palette.syntax_constant.color()),
            number: Some(palette.syntax_constant.color()),
            operator: Some(palette.syntax_storage.color()),
            property: Some(palette.syntax_constant.color()),
            punctuation: None,
            string: Some(palette.syntax_string.color()),
            tag: Some(palette.syntax_regexp.color()),
            typ: Some(palette.syntax_variable.color()),
            variable: Some(palette.syntax_variable.color()),
        }
    }

    /// Syntax colors of the Tokyo Night scheme.
    pub fn tokyonight() -> (r: SyntaxPalette)
        ensures
            r == (SyntaxPalette {
                attribute: Some(Color::Rgb(0xbb, 0x9a, 0xf7)),
                comment: Some(Color::Rgb(0x51, 0x59, 0x7d)),
                constant: Some(Color::Rgb(0xff, 0x9e, 0x64)),
                constructor: Some(Color::Rgb(0x0d, 0xb9, 0xd7)),
                function: Some(Color::Rgb(0x7a, 0xa2, 0xf7)),
                keyword: Some(Color::Rgb(0xbb, 0x9a, 0xf7)),
                label: Some(Color::Rgb(0x7a, 0xa2, 0xf7)),
                module: Some(Color::Rgb(0x0d, 0xb9, 0xd7)),
                number: Some(Color::Rgb(0xff, 0x9e, 0x64)),
                operator: Some(Color::Rgb(0x89, 0xdd, 0xff)),
                property: Some(Color::Rgb(0x7d, 0xcf, 0xff)),
                punctuation: Some(Color::Rgb(0x89, 0xdd, 0xff)),
                string: Some(Color::Rgb(0x9e, 0xce, 0x6a)),
                tag: Some(Color::Rgb(0xf7, 0x76, 0x8e)),
                typ: Some(Color::Rgb(0x0d, 0xb9, 0xd7)),
                variable: None,
            }),
    {
        SyntaxPalette {
            attribute: Some(Color::Rgb(0xbb, 0x9a, 0xf7)),
            comment: Some(Color::Rgb(0x51, 0x59, 0x7d)),
            constant: Some(Color::Rgb(0xff, 0x9e, 0x64)),
            constructor: Some(Color::Rgb(0x0d, 0xb9, 0xd7)),
            function: Some(Color::Rgb(0x7a, 0xa2, 0xf7)),
            keyword: Some(Color::Rgb(0xbb, 0x9a, 0xf7)),
            label: Some(Color::Rgb(0x7a, 0xa2, 0xf7)),
            module: Some(Color::Rgb(0x0d, 0xb9, 0xd7)),
            number: Some(Color::Rgb(0xff, 0x9e, 0x64)),
            operator: Some(Color::Rgb(0x89, 0xdd, 0xff)),
            property: Some(Color::Rgb(0x7d, 0xcf, 0xff)),
            punctuation: Some(Color::Rgb(0x89, 0xdd, 0xff)),
            string: Some(Color::Rgb(0x9e, 0xce, 0x6a)),
            tag: Some(Color::Rgb(0xf7, 0x76, 0x8e)),
            typ: Some(Color::Rgb(0x0d, 0xb9, 0xd7)),
            variable: None,
        }
    }
}

} // verus!
