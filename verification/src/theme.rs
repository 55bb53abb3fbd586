//! Built-in and user-defined colour themes.

use crate::strings::{ascii_lower_text, ascii_lowered, concat, same_ignoring_ascii_case, same_text};
use crate::text::{from_range, push_char, to_chars};
use vstd::prelude::*;

verus! {

/// Number of themes that are built in.
pub const THEME_COUNT: usize = 19;

/// The colours of a theme, as 24-bit numbers.
#[derive(Clone, Copy, Debug, PartialEq, Eq, Structural)]
pub struct Palette {
    pub background: u32,
    pub surface: u32,
    pub text: u32,
    pub muted: u32,
    pub accent: u32,
    pub secondary: u32,
    pub success: u32,
    pub warning: u32,
    pub error: u32,
    pub border: u32,
}

/// Name of the built-in theme at a position.
pub open spec fn theme_name(i: usize) -> Seq<char> {
    match i {
        0 => "catppuccin-mocha"@,
        1 => "catppuccin-macchiato"@,
        2 => "catppuccin-frappe"@,
        3 => "catppuccin-latte"@,
        4 => "tokyo-night"@,
        5 => "gruvbox"@,
        6 => "nord"@,
        7 => "dracula"@,
        8 => "light"@,
        9 => "rose-pink-dark"@,
        10 => "rose-pink-light"@,
        11 => "everforest"@,
        12 => "kanagawa"@,
        13 => "one-dark"@,
        14 => "cyberpunk"@,
        15 => "ember"@,
        16 => "verdant"@,
        17 => "lavender"@,
        _ => "parchment"@,
    }
}

/// Name of the built-in theme at a position.
pub fn builtin_theme(i: usize) -> (r: &'static str)
    requires
        i < THEME_COUNT,
    ensures
        r@ == theme_name(i),
{
    match i {
        0 => "catppuccin-mocha",
        1 => "catppuccin-macchiato",
        2 => "catppuccin-frappe",
        3 => "catppuccin-latte",
        4 => "tokyo-night",
        5 => "gruvbox",
        6 => "nord",
        7 => "dracula",
        8 => "light",
        9 => "rose-pink-dark",
        10 => "rose-pink-light",
        11 => "everforest",
        12 => "kanagawa",
        13 => "one-dark",
        14 => "cyberpunk",
        15 => "ember",
        16 => "verdant",
        17 => "lavender",
        _ => "parchment",
    }
}

/// Colours of the built-in theme at a position.
#[verifier::opaque]
pub open spec fn theme_palette(i: usize) -> Palette {
    match i {
        0 => Palette {
            background: 0x1e1e2e,
            surface: 0x313244,
            text: 0xcdd6f4,
            muted: 0x7f849c,
            accent: 0x89b4fa,
            secondary: 0xcba6f7,
            success: 0xa6e3a1,
            warning: 0xf9e2af,
            error: 0xf38ba8,
            border: 0x45475a,
        },
        1 => Palette {
            background: 0x24273a,
            surface: 0x363a4f,
            text: 0xcad3f5,
            muted: 0x8087a2,
            accent: 0x8aadf4,
            secondary: 0xc6a0f6,
            success: 0xa6da95,
            warning: 0xeed49f,
            error: 0xed8796,
            border: 0x494d64,
        },
        2 => Palette {
            background: 0x303446,
            surface: 0x414559,
            text: 0xc6d0f5,
            muted: 0x838ba7,
            accent: 0x8caaee,
            secondary: 0xca9ee6,
            success: 0xa6d189,
            warning: 0xe5c890,
            error: 0xe78284,
            border: 0x51576d,
        },
        3 => Palette {
            background: 0xeff1f5,
            surface: 0xccd0da,
            text: 0x4c4f69,
            muted: 0x8c8fa1,
            accent: 0x1e66f5,
            secondary: 0x8839ef,
            success: 0x40a02b,
            warning: 0xdf8e1d,
            error: 0xd20f39,
            border: 0xbcc0cc,
        },
        4 => Palette {
            background: 0x1a1b26,
            surface: 0x24283b,
            text: 0xc0caf5,
            muted: 0x565f89,
            accent: 0x7aa2f7,
            secondary: 0xbb9af7,
            success: 0x9ece6a,
            warning: 0xe0af68,
            error: 0xf7768e,
            border: 0x414868,
        },
        5 => Palette {
            background: 0x282828,
            surface: 0x3c3836,
            text: 0xebdbb2,
            muted: 0x928374,
            accent: 0x83a598,
            secondary: 0xd3869b,
            success: 0xb8bb26,
            warning: 0xfabd2f,
            error: 0xfb4934,
            border: 0x504945,
        },
        6 => Palette {
            background: 0x2e3440,
            surface: 0x3b4252,
            text: 0xeceff4,
            muted: 0x7b88a1,
            accent: 0x88c0d0,
            secondary: 0xb48ead,
            success: 0xa3be8c,
            warning: 0xebcb8b,
            error: 0xbf616a,
            border: 0x4c566a,
        },
        7 => Palette {
            background: 0x282a36,
            surface: 0x44475a,
            text: 0xf8f8f2,
            muted: 0x6272a4,
            accent: 0x8be9fd,
            secondary: 0xbd93f9,
            success: 0x50fa7b,
            warning: 0xf1fa8c,
            error: 0xff5555,
            border: 0x6272a4,
        },
        8 => Palette {
            background: 0xf7f7f5,
            surface: 0xffffff,
            text: 0x202124,
            muted: 0x6b7280,
            accent: 0x2563eb,
            secondary: 0x7c3aed,
            success: 0x15803d,
            warning: 0xa16207,
            error: 0xb91c1c,
            border: 0xd1d5db,
        },
        9 => Palette {
            background: 0x241b1d,
            surface: 0x2d2224,
            text: 0xf5e6e8,
            muted: 0xa38f92,
            accent: 0xffb3c1,
            secondary: 0xe0b1cb,
            success: 0xb7e4c7,
            warning: 0xfcd5a1,
            error: 0xff85a1,
            border: 0x3d2d30,
        },
        10 => Palette {
            background: 0xfaebed,
            surface: 0xffffff,
            text: 0x3c2a2e,
            muted: 0x8a7074,
            accent: 0xd96a80,
            secondary: 0x9c528b,
            success: 0x388e3c,
            warning: 0xf57c00,
            error: 0xd32f2f,
            border: 0xe8d0d4,
        },
        11 => Palette {
            background: 0x2d353b,
            surface: 0x343f44,
            text: 0xd3c6aa,
            muted: 0x859289,
            accent: 0xa7c080,
            secondary: 0x7fbbb3,
            success: 0xa7c080,
            warning: 0xdbbc7f,
            error: 0xe67e80,
            border: 0x475258,
        },
        12 => Palette {
            background: 0x1f1f28,
            surface: 0x2a2a37,
            text: 0xdcd7ba,
            muted: 0x727169,
            accent: 0xe6c384,
            secondary: 0x7e9cd8,
            success: 0x76946a,
            warning: 0xff9e3b,
            error: 0xc3404b,
            border: 0x363646,
        },
        13 => Palette {
            background: 0x282c34,
            surface: 0x21252b,
            text: 0xabb2bf,
            muted: 0x5c6370,
            accent: 0x61afef,
            secondary: 0xc678dd,
            success: 0x98c379,
            warning: 0xd19a66,
            error: 0xe06c75,
            border: 0x3e4452,
        },
        14 => Palette {
            background: 0x0f0f1a,
            surface: 0x1a1a2e,
            text: 0xffffff,
            muted: 0x707080,
            accent: 0x00ffff,
            secondary: 0xff007f,
            success: 0x39ff14,
            warning: 0xffb300,
            error: 0xff3333,
            border: 0x2a2a40,
        },
        15 => Palette {
            background: 0x211512,
            surface: 0x34201a,
            text: 0xf5e6d3,
            muted: 0xa98e7d,
            accent: 0xf07c3e,
            secondary: 0xd64c32,
            success: 0x8eb65b,
            warning: 0xe6ad43,
            error: 0xd9554f,
            border: 0x54342a,
        },
        16 => Palette {
            background: 0x14231b,
            surface: 0x203329,
            text: 0xe4f0df,
            muted: 0x91a998,
            accent: 0x75b798,
            secondary: 0xc4a85d,
            success: 0x8fbd65,
            warning: 0xd4ac57,
            error: 0xcf6b62,
            border: 0x365044,
        },
        17 => Palette {
            background: 0x211b2e,
            surface: 0x302842,
            text: 0xf0eaff,
            muted: 0xa69bbd,
            accent: 0xbd93f9,
            secondary: 0xe7a6d7,
            success: 0xa9c78d,
            warning: 0xefc078,
            error: 0xe5829a,
            border: 0x493d60,
        },
        _ => Palette {
            background: 0xf4eddc,
            surface: 0xfffaf0,
            text: 0x342b22,
            muted: 0x87796a,
            accent: 0xaa6a2a,
            secondary: 0x8a4d69,
            success: 0x4f7b48,
            warning: 0xa06d1e,
            error: 0xae4139,
            border: 0xd9cdb9,
        },
    }
}

fn palette_at(i: usize) -> (r: Palette)
    requires
        i < THEME_COUNT,
    ensures
        r == theme_palette(i),
{
    reveal(theme_palette);
    match i {
        0 => Palette {
            background: 0x1e1e2e,
            surface: 0x313244,
            text: 0xcdd6f4,
            muted: 0x7f849c,
            accent: 0x89b4fa,
            secondary: 0xcba6f7,
            success: 0xa6e3a1,
            warning: 0xf9e2af,
            error: 0xf38ba8,
            border: 0x45475a,
        },
        1 => Palette {
            background: 0x24273a,
            surface: 0x363a4f,
            text: 0xcad3f5,
            muted: 0x8087a2,
            accent: 0x8aadf4,
            secondary: 0xc6a0f6,
            success: 0xa6da95,
            warning: 0xeed49f,
            error: 0xed8796,
            border: 0x494d64,
        },
        2 => Palette {
            background: 0x303446,
            surface: 0x414559,
            text: 0xc6d0f5,
            muted: 0x838ba7,
            accent: 0x8caaee,
            secondary: 0xca9ee6,
            success: 0xa6d189,
            warning: 0xe5c890,
            error: 0xe78284,
            border: 0x51576d,
        },
        3 => Palette {
            background: 0xeff1f5,
            surface: 0xccd0da,
            text: 0x4c4f69,
            muted: 0x8c8fa1,
            accent: 0x1e66f5,
            secondary: 0x8839ef,
            success: 0x40a02b,
            warning: 0xdf8e1d,
            error: 0xd20f39,
            border: 0xbcc0cc,
        },
        4 => Palette {
            background: 0x1a1b26,
            surface: 0x24283b,
            text: 0xc0caf5,
            muted: 0x565f89,
            accent: 0x7aa2f7,
            secondary: 0xbb9af7,
            success: 0x9ece6a,
            warning: 0xe0af68,
            error: 0xf7768e,
            border: 0x414868,
        },
        5 => Palette {
            background: 0x282828,
            surface: 0x3c3836,
            text: 0xebdbb2,
            muted: 0x928374,
            accent: 0x83a598,
            secondary: 0xd3869b,
            success: 0xb8bb26,
            warning: 0xfabd2f,
            error: 0xfb4934,
            border: 0x504945,
        },
        6 => Palette {
            background: 0x2e3440,
            surface: 0x3b4252,
            text: 0xeceff4,
            muted: 0x7b88a1,
            accent: 0x88c0d0,
            secondary: 0xb48ead,
            success: 0xa3be8c,
            warning: 0xebcb8b,
            error: 0xbf616a,
            border: 0x4c566a,
        },
        7 => Palette {
            background: 0x282a36,
            surface: 0x44475a,
            text: 0xf8f8f2,
            muted: 0x6272a4,
            accent: 0x8be9fd,
            secondary: 0xbd93f9,
            success: 0x50fa7b,
            warning: 0xf1fa8c,
            error: 0xff5555,
            border: 0x6272a4,
        },
        8 => Palette {
            background: 0xf7f7f5,
            surface: 0xffffff,
            text: 0x202124,
            muted: 0x6b7280,
            accent: 0x2563eb,
            secondary: 0x7c3aed,
            success: 0x15803d,
            warning: 0xa16207,
            error: 0xb91c1c,
            border: 0xd1d5db,
        },
        9 => Palette {
            background: 0x241b1d,
            surface: 0x2d2224,
            text: 0xf5e6e8,
            muted: 0xa38f92,
            accent: 0xffb3c1,
            secondary: 0xe0b1cb,
            success: 0xb7e4c7,
            warning: 0xfcd5a1,
            error: 0xff85a1,
            border: 0x3d2d30,
        },
        10 => Palette {
            background: 0xfaebed,
            surface: 0xffffff,
            text: 0x3c2a2e,
            muted: 0x8a7074,
            accent: 0xd96a80,
            secondary: 0x9c528b,
            success: 0x388e3c,
            warning: 0xf57c00,
            error: 0xd32f2f,
            border: 0xe8d0d4,
        },
        11 => Palette {
            background: 0x2d353b,
            surface: 0x343f44,
            text: 0xd3c6aa,
            muted: 0x859289,
            accent: 0xa7c080,
            secondary: 0x7fbbb3,
            success: 0xa7c080,
            warning: 0xdbbc7f,
            error: 0xe67e80,
            border: 0x475258,
        },
        12 => Palette {
            background: 0x1f1f28,
            surface: 0x2a2a37,
            text: 0xdcd7ba,
            muted: 0x727169,
            accent: 0xe6c384,
            secondary: 0x7e9cd8,
            success: 0x76946a,
            warning: 0xff9e3b,
            error: 0xc3404b,
            border: 0x363646,
        },
        13 => Palette {
            background: 0x282c34,
            surface: 0x21252b,
            text: 0xabb2bf,
            muted: 0x5c6370,
            accent: 0x61afef,
            secondary: 0xc678dd,
            success: 0x98c379,
            warning: 0xd19a66,
            error: 0xe06c75,
            border: 0x3e4452,
        },
        14 => Palette {
            background: 0x0f0f1a,
            surface: 0x1a1a2e,
            text: 0xffffff,
            muted: 0x707080,
            accent: 0x00ffff,
            secondary: 0xff007f,
            success: 0x39ff14,
            warning: 0xffb300,
            error: 0xff3333,
            border: 0x2a2a40,
        },
        15 => Palette {
            background: 0x211512,
            surface: 0x34201a,
            text: 0xf5e6d3,
            muted: 0xa98e7d,
            accent: 0xf07c3e,
            secondary: 0xd64c32,
            success: 0x8eb65b,
            warning: 0xe6ad43,
            error: 0xd9554f,
            border: 0x54342a,
        },
        16 => Palette {
            background: 0x14231b,
            surface: 0x203329,
            text: 0xe4f0df,
            muted: 0x91a998,
            accent: 0x75b798,
            secondary: 0xc4a85d,
            success: 0x8fbd65,
            warning: 0xd4ac57,
            error: 0xcf6b62,
            border: 0x365044,
        },
        17 => Palette {
            background: 0x211b2e,
            surface: 0x302842,
            text: 0xf0eaff,
            muted: 0xa69bbd,
            accent: 0xbd93f9,
            secondary: 0xe7a6d7,
            success: 0xa9c78d,
            warning: 0xefc078,
            error: 0xe5829a,
            border: 0x493d60,
        },
        _ => Palette {
            background: 0xf4eddc,
            surface: 0xfffaf0,
            text: 0x342b22,
            muted: 0x87796a,
            accent: 0xaa6a2a,
            secondary: 0x8a4d69,
            success: 0x4f7b48,
            warning: 0xa06d1e,
            error: 0xae4139,
            border: 0xd9cdb9,
        },
    }
}

/// Position of the built-in theme that goes by a name in lower case.
#[verifier::opaque]
pub open spec fn theme_called(name: Seq<char>) -> Option<usize> {
    if name == "catppuccin"@ || name == "catppuccin-mocha"@ || name == "catppuccinmocha"@ {
        Some(0)
    } else if name == "catppuccin-macchiato"@ || name == "catppuccinmacchiato"@ {
        Some(1)
    } else if name == "catppuccin-frappe"@ || name == "catppuccinfrappe"@ {
        Some(2)
    } else if name == "catppuccin-latte"@ || name == "catppuccinlatte"@ {
        Some(3)
    } else if name == "tokyo-night"@ || name == "tokyonight"@ {
        Some(4)
    } else if name == "gruvbox"@ {
        Some(5)
    } else if name == "nord"@ {
        Some(6)
    } else if name == "dracula"@ {
        Some(7)
    } else if name == "light"@ {
        Some(8)
    } else if name == "rose-pink"@ || name == "rosepink"@ || name == "rose-pink-dark"@ || name == "rosepinkdark"@ || name == "rose-pine-dark"@ || name == "rosepinedark"@ {
        Some(9)
    } else if name == "rose-pink-light"@ || name == "rosepinklight"@ || name == "rose-pine-light"@ || name == "rosepinelight"@ {
        Some(10)
    } else if name == "everforest"@ {
        Some(11)
    } else if name == "kanagawa"@ {
        Some(12)
    } else if name == "one-dark"@ || name == "onedark"@ {
        Some(13)
    } else if name == "cyberpunk"@ {
        Some(14)
    } else if name == "ember"@ {
        Some(15)
    } else if name == "verdant"@ {
        Some(16)
    } else if name == "lavender"@ {
        Some(17)
    } else if name == "parchment"@ {
        Some(18)
    } else {
        None
    }
}

fn find_theme(name: &str) -> (r: Option<usize>)
    ensures
        match r {
            Some(i) => i < THEME_COUNT && theme_called(name@) == Some(i),
            None => theme_called(name@) is None,
        },
{
    reveal(theme_called);
    if same_text(name, "catppuccin") || same_text(name, "catppuccin-mocha") || same_text(name, "catppuccinmocha") {
        Some(0)
    } else if same_text(name, "catppuccin-macchiato") || same_text(name, "catppuccinmacchiato") {
        Some(1)
    } else if same_text(name, "catppuccin-frappe") || same_text(name, "catppuccinfrappe") {
        Some(2)
    } else if same_text(name, "catppuccin-latte") || same_text(name, "catppuccinlatte") {
        Some(3)
    } else if same_text(name, "tokyo-night") || same_text(name, "tokyonight") {
        Some(4)
    } else if same_text(name, "gruvbox") {
        Some(5)
    } else if same_text(name, "nord") {
        Some(6)
    } else if same_text(name, "dracula") {
        Some(7)
    } else if same_text(name, "light") {
        Some(8)
    } else if same_text(name, "rose-pink") || same_text(name, "rosepink") || same_text(name, "rose-pink-dark") || same_text(name, "rosepinkdark") || same_text(name, "rose-pine-dark") || same_text(name, "rosepinedark") {
        Some(9)
    } else if same_text(name, "rose-pink-light") || same_text(name, "rosepinklight") || same_text(name, "rose-pine-light") || same_text(name, "rosepinelight") {
        Some(10)
    } else if same_text(name, "everforest") {
        Some(11)
    } else if same_text(name, "kanagawa") {
        Some(12)
    } else if same_text(name, "one-dark") || same_text(name, "onedark") {
        Some(13)
    } else if same_text(name, "cyberpunk") {
        Some(14)
    } else if same_text(name, "ember") {
        Some(15)
    } else if same_text(name, "verdant") {
        Some(16)
    } else if same_text(name, "lavender") {
        Some(17)
    } else if same_text(name, "parchment") {
        Some(18)
    } else {
        None
    }
}

/// A colour by its red, green and blue parts.
#[derive(Clone, Copy, Debug, PartialEq, Eq, Structural)]
pub struct Rgb {
    pub r: u8,
    pub g: u8,
    pub b: u8,
}

/// The colour that a 24-bit number stands for.
pub open spec fn rgb_of(n: int) -> Rgb {
    Rgb { r: (n / 0x10000 % 0x100) as u8, g: (n / 0x100 % 0x100) as u8, b: (n % 0x100) as u8 }
}

/// A theme as it is written down.
#[derive(Clone, Debug)]
pub struct ThemeSpec {
    pub name: String,
    pub background: String,
    pub surface: String,
    pub text: String,
    pub muted: String,
    pub accent: String,
    pub secondary: String,
    pub success: String,
    pub warning: String,
    pub error: String,
    pub border: String,
}

/// A theme with its colours read.
#[derive(Clone, Debug)]
pub struct Theme {
    pub name: String,
    pub background: Rgb,
    pub surface: Rgb,
    pub text: Rgb,
    pub muted: Rgb,
    pub accent: Rgb,
    pub secondary: Rgb,
    pub success: Rgb,
    pub warning: Rgb,
    pub error: Rgb,
    pub border: Rgb,
}

/// Why a theme could not be had.
#[derive(Clone, Debug)]
pub enum ThemeError {
    /// The file could not be read.
    Io(String),
    /// The file is not valid TOML.
    Toml(String),
    /// A colour is not of the form `#RRGGBB`.
    InvalidColor(String),
    /// There is no built-in theme of that name.
    UnknownTheme(String),
}

/// What is said of an error.
pub open spec fn theme_error_text(e: ThemeError) -> Seq<char> {
    match e {
        ThemeError::Io(reason) => "could not read theme: "@ + reason@,
        ThemeError::Toml(reason) => "invalid theme TOML: "@ + reason@,
        ThemeError::InvalidColor(value) => "invalid color '"@ + value@ + "'; expected #RRGGBB"@,
        ThemeError::UnknownTheme(name) => "unknown theme '"@ + name@ + "'"@,
    }
}

impl ThemeError {
    /// What is said of the error.
    pub fn message(&self) -> (r: String)
        ensures
            r@ == theme_error_text(*self),
    {
        match self {
            ThemeError::Io(reason) => concat("could not read theme: ", reason.as_str()),
            ThemeError::Toml(reason) => concat("invalid theme TOML: ", reason.as_str()),
            ThemeError::InvalidColor(value) => {
                let head = concat("invalid color '", value.as_str());
                concat(head.as_str(), "'; expected #RRGGBB")
            },
            ThemeError::UnknownTheme(name) => {
                let head = concat("unknown theme '", name.as_str());
                concat(head.as_str(), "'")
            },
        }
    }
}

/// Value of a hexadecimal digit.
pub open spec fn hex_digit(c: char) -> Option<int> {
    if '0' <= c <= '9' {
        Some(c as int - '0' as int)
    } else if 'a' <= c <= 'f' {
        Some(c as int - 'a' as int + 10)
    } else if 'A' <= c <= 'F' {
        Some(c as int - 'A' as int + 10)
    } else {
        None
    }
}

/// Value of two hexadecimal digits.
pub open spec fn hex_pair(a: char, b: char) -> Option<int> {
    match (hex_digit(a), hex_digit(b)) {
        (Some(x), Some(y)) => Some(16 * x + y),
        _ => None,
    }
}

/// A colour without the number sign that may stand before it.
pub open spec fn unmarked(value: Seq<char>) -> Seq<char> {
    if value.len() > 0 && value[0] == '#' {
        value.skip(1)
    } else {
        value
    }
}

/// The colour that a text stands for: three pairs of hexadecimal digits, with or
/// without a number sign before them.
#[verifier::opaque]
pub open spec fn color_of(value: Seq<char>) -> Option<Rgb> {
    let v = unmarked(value);
    if v.len() != 6 {
        None
    } else {
        match (hex_pair(v[0], v[1]), hex_pair(v[2], v[3]), hex_pair(v[4], v[5])) {
            (Some(r), Some(g), Some(b)) => Some(Rgb { r: r as u8, g: g as u8, b: b as u8 }),
            _ => None,
        }
    }
}

fn read_digit(c: char) -> (r: Option<u8>)
    ensures
        match r {
            Some(d) => d < 16 && hex_digit(c) == Some(d as int),
            None => hex_digit(c) is None,
        },
{
    if '0' <= c && c <= '9' {
        Some((c as u32 - '0' as u32) as u8)
    } else if 'a' <= c && c <= 'f' {
        Some((c as u32 - 'a' as u32 + 10) as u8)
    } else if 'A' <= c && c <= 'F' {
        Some((c as u32 - 'A' as u32 + 10) as u8)
    } else {
        None
    }
}

fn read_pair(a: char, b: char) -> (r: Option<u8>)
    ensures
        match r {
            Some(v) => hex_pair(a, b) == Some(v as int),
            None => hex_pair(a, b) is None,
        },
{
    match (read_digit(a), read_digit(b)) {
        (Some(x), Some(y)) => Some(16 * x + y),
        _ => None,
    }
}

/// Reads a colour of the form `#RRGGBB`, where the number sign may be missing.
pub fn parse_color(value: &str) -> (r: Result<Rgb, ThemeError>)
    ensures
        match r {
            Ok(color) => color_of(value@) == Some(color),
            Err(ThemeError::InvalidColor(shown)) => color_of(value@) is None && shown@ == unmarked(
                value@,
            ),
            Err(_) => false,
        },
{
    reveal(color_of);
    let chars = to_chars(value);
    let from: usize = if chars.len() > 0 && chars[0] == '#' {
        1
    } else {
        0
    };
    let n: usize = chars.len();
    proof {
        assert(unmarked(value@) =~= chars@.subrange(from as int, n as int));
    }
    if n - from == 6 {
        match (
            read_pair(chars[from], chars[from + 1]),
            read_pair(chars[from + 2], chars[from + 3]),
            read_pair(chars[from + 4], chars[from + 5]),
        ) {
            (Some(r), Some(g), Some(b)) => {
                return Ok(Rgb { r, g, b });
            },
            _ => {},
        }
    }
    Err(ThemeError::InvalidColor(from_range(&chars, from, n)))
}

/// A hexadecimal digit as a character.
pub open spec fn hex_char(d: int) -> char {
    if d < 10 {
        ('0' as int + d) as char
    } else {
        ('a' as int + d - 10) as char
    }
}

/// A 24-bit number as a colour.
#[verifier::opaque]
pub open spec fn color_text(n: int) -> Seq<char> {
    seq![
        '#',
        hex_char(n / 0x10000 / 16 % 16),
        hex_char(n / 0x10000 % 16),
        hex_char(n / 0x100 / 16 % 16),
        hex_char(n / 0x100 % 16),
        hex_char(n / 16 % 16),
        hex_char(n % 16),
    ]
}

fn make_digit(d: u32) -> (c: char)
    requires
        d < 16,
    ensures
        c == hex_char(d as int),
{
    match d {
        0 => '0',
        1 => '1',
        2 => '2',
        3 => '3',
        4 => '4',
        5 => '5',
        6 => '6',
        7 => '7',
        8 => '8',
        9 => '9',
        10 => 'a',
        11 => 'b',
        12 => 'c',
        13 => 'd',
        14 => 'e',
        _ => 'f',
    }
}

fn write_color(n: u32) -> (r: String)
    ensures
        r@ == color_text(n as int),
{
    let mut r = String::new();
    push_char(&mut r, '#');
    push_char(&mut r, make_digit(n / 0x10000 / 16 % 16));
    push_char(&mut r, make_digit(n / 0x10000 % 16));
    push_char(&mut r, make_digit(n / 0x100 / 16 % 16));
    push_char(&mut r, make_digit(n / 0x100 % 16));
    push_char(&mut r, make_digit(n / 16 % 16));
    push_char(&mut r, make_digit(n % 16));
    reveal(color_text);
    assert(r@ =~= color_text(n as int));
    r
}

/// A number that is written as a colour is read back.
pub proof fn lemma_color_round_trip(n: int)
    requires
        0 <= n < 0x1000000,
    ensures
        color_of(color_text(n)) == Some(rgb_of(n)),
{
    reveal(color_of);
    reveal(color_text);
    let t = color_text(n);
    let v = unmarked(t);
    assert(v =~= t.skip(1));
    lemma_pair_round_trip(n / 0x10000);
    lemma_pair_round_trip(n / 0x100);
    lemma_pair_round_trip(n);
}

proof fn lemma_pair_round_trip(m: int)
    requires
        0 <= m,
    ensures
        hex_pair(hex_char(m / 16 % 16), hex_char(m % 16)) == Some(m % 0x100),
{
    lemma_digit_round_trip(m / 16 % 16);
    lemma_digit_round_trip(m % 16);
}

proof fn lemma_digit_round_trip(d: int)
    requires
        0 <= d < 16,
    ensures
        hex_digit(hex_char(d)) == Some(d),
{
}

/// The colours of a theme as they are written, in the order in which they are read.
pub open spec fn written(s: ThemeSpec) -> Seq<Seq<char>> {
    seq![
        s.background@,
        s.surface@,
        s.text@,
        s.muted@,
        s.accent@,
        s.secondary@,
        s.success@,
        s.warning@,
        s.error@,
        s.border@,
    ]
}

/// The colours of a theme.
pub open spec fn colors(t: Theme) -> Seq<Rgb> {
    seq![
        t.background,
        t.surface,
        t.text,
        t.muted,
        t.accent,
        t.secondary,
        t.success,
        t.warning,
        t.error,
        t.border,
    ]
}

/// The first text that is no colour.
pub open spec fn first_wrong(w: Seq<Seq<char>>, i: int) -> bool {
    &&& 0 <= i < w.len()
    &&& color_of(w[i]) is None
    &&& forall|j: int| 0 <= j < i ==> color_of(#[trigger] w[j]) is Some
}

/// Whether a theme is what `s` says, or the error is the first that it has.
pub open spec fn theme_read(s: ThemeSpec, r: Result<Theme, ThemeError>) -> bool {
    let w = written(s);
    match r {
        Ok(t) => {
            &&& t.name@ == s.name@
            &&& forall|i: int|
                0 <= i < 10 ==> color_of(#[trigger] w[i]) == Some(#[trigger] colors(t)[i])
        },
        Err(ThemeError::InvalidColor(shown)) => exists|i: int|
            #[trigger] first_wrong(w, i) && shown@ == unmarked(w[i]),
        Err(_) => false,
    }
}

fn read_color(value: &str, Ghost(w): Ghost<Seq<Seq<char>>>, Ghost(i): Ghost<int>) -> (r: Result<
    Rgb,
    ThemeError,
>)
    requires
        0 <= i < w.len(),
        value@ == w[i],
        forall|j: int| 0 <= j < i ==> color_of(#[trigger] w[j]) is Some,
    ensures
        match r {
            Ok(color) => color_of(w[i]) == Some(color),
            Err(ThemeError::InvalidColor(shown)) => first_wrong(w, i) && shown@ == unmarked(w[i]),
            Err(_) => false,
        },
{
    parse_color(value)
}

impl Theme {
    /// Reads the colours of a theme. The first that is none is the error.
    pub fn try_from(spec: ThemeSpec) -> (r: Result<Theme, ThemeError>)
        ensures
            theme_read(spec, r),
    {
        let ghost w = written(spec);
        let background = match read_color(spec.background.as_str(), Ghost(w), Ghost(0)) {
            Ok(c) => c,
            Err(e) => return Err(e),
        };
        let surface = match read_color(spec.surface.as_str(), Ghost(w), Ghost(1)) {
            Ok(c) => c,
            Err(e) => return Err(e),
        };
        let text = match read_color(spec.text.as_str(), Ghost(w), Ghost(2)) {
            Ok(c) => c,
            Err(e) => return Err(e),
        };
        let muted = match read_color(spec.muted.as_str(), Ghost(w), Ghost(3)) {
            Ok(c) => c,
            Err(e) => return Err(e),
        };
        let accent = match read_color(spec.accent.as_str(), Ghost(w), Ghost(4)) {
            Ok(c) => c,
            Err(e) => return Err(e),
        };
        let secondary = match read_color(spec.secondary.as_str(), Ghost(w), Ghost(5)) {
            Ok(c) => c,
            Err(e) => return Err(e),
        };
        let success = match read_color(spec.success.as_str(), Ghost(w), Ghost(6)) {
            Ok(c) => c,
            Err(e) => return Err(e),
        };
        let warning = match read_color(spec.warning.as_str(), Ghost(w), Ghost(7)) {
            Ok(c) => c,
            Err(e) => return Err(e),
        };
        let error = match read_color(spec.error.as_str(), Ghost(w), Ghost(8)) {
            Ok(c) => c,
            Err(e) => return Err(e),
        };
        let border = match read_color(spec.border.as_str(), Ghost(w), Ghost(9)) {
            Ok(c) => c,
            Err(e) => return Err(e),
        };
        Ok(
            Theme {
                name: spec.name,
                background,
                surface,
                text,
                muted,
                accent,
                secondary,
                success,
                warning,
                error,
                border,
            },
        )
    }

    /// The built-in theme of a name, in whatever case.
    pub fn load(name: &str) -> (r: Result<Theme, ThemeError>)
        ensures
            match theme_called(ascii_lowered(name@)) {
                Some(i) => r matches Ok(t) && t.name@ == name@ && has_palette(t, theme_palette(i)),
                None => r matches Err(ThemeError::UnknownTheme(n)) && n@ == name@,
            },
    {
        match builtin(name) {
            Some(spec) => {
                let ghost i = theme_called(ascii_lowered(name@)).unwrap();
                let ghost p = theme_palette(i);
                proof {
                    lemma_spec_of_palette(spec, p);
                }
                let r = Theme::try_from(spec);
                proof {
                    lemma_theme_of_palette(spec, p, r);
                }
                r
            },
            None => Err(ThemeError::UnknownTheme(name.to_owned())),
        }
    }
}

/// The colours of a palette.
pub open spec fn palette_numbers(p: Palette) -> Seq<int> {
    seq![
        p.background as int,
        p.surface as int,
        p.text as int,
        p.muted as int,
        p.accent as int,
        p.secondary as int,
        p.success as int,
        p.warning as int,
        p.error as int,
        p.border as int,
    ]
}

/// Whether a theme has the colours of a palette.
pub open spec fn has_palette(t: Theme, p: Palette) -> bool {
    forall|i: int| 0 <= i < 10 ==> #[trigger] colors(t)[i] == rgb_of(palette_numbers(p)[i])
}

/// Whether every colour of a palette is a 24-bit number.
pub open spec fn narrow_palette(p: Palette) -> bool {
    forall|i: int| 0 <= i < 10 ==> 0 <= #[trigger] palette_numbers(p)[i] < 0x1000000
}

/// Whether the colours of a palette are written down.
pub open spec fn writes(s: ThemeSpec, p: Palette) -> bool {
    &&& s.background@ == color_text(p.background as int)
    &&& s.surface@ == color_text(p.surface as int)
    &&& s.text@ == color_text(p.text as int)
    &&& s.muted@ == color_text(p.muted as int)
    &&& s.accent@ == color_text(p.accent as int)
    &&& s.secondary@ == color_text(p.secondary as int)
    &&& s.success@ == color_text(p.success as int)
    &&& s.warning@ == color_text(p.warning as int)
    &&& s.error@ == color_text(p.error as int)
    &&& s.border@ == color_text(p.border as int)
}

proof fn lemma_spec_of_palette(s: ThemeSpec, p: Palette)
    requires
        writes(s, p),
    ensures
        forall|i: int|
            0 <= i < 10 ==> #[trigger] written(s)[i] == color_text(palette_numbers(p)[i]),
{
    let n = palette_numbers(p);
    assert(n[0] == p.background && n[1] == p.surface && n[2] == p.text && n[3] == p.muted && n[4]
        == p.accent && n[5] == p.secondary && n[6] == p.success && n[7] == p.warning && n[8]
        == p.error && n[9] == p.border);
}

proof fn lemma_theme_of_palette(s: ThemeSpec, p: Palette, r: Result<Theme, ThemeError>)
    requires
        narrow_palette(p),
        forall|i: int|
            0 <= i < 10 ==> #[trigger] written(s)[i] == color_text(palette_numbers(p)[i]),
        theme_read(s, r),
    ensures
        r matches Ok(t) && t.name@ == s.name@ && has_palette(t, p),
{
    let w = written(s);
    assert forall|i: int| 0 <= i < 10 implies color_of(#[trigger] w[i]) == Some(
        rgb_of(palette_numbers(p)[i]),
    ) by {
        lemma_color_round_trip(palette_numbers(p)[i]);
    }
    match r {
        Ok(t) => {
            assert forall|i: int| 0 <= i < 10 implies #[trigger] colors(t)[i] == rgb_of(
                palette_numbers(p)[i],
            ) by {
                assert(color_of(w[i]) == Some(colors(t)[i]));
            }
        },
        Err(ThemeError::InvalidColor(shown)) => {
            let i = choose|i: int| #[trigger] first_wrong(w, i) && shown@ == unmarked(w[i]);
            assert(color_of(w[i]) is None);
            assert(false);
        },
        Err(_) => {},
    }
}

/// The built-in theme of a name, in whatever case.
pub fn builtin(name: &str) -> (r: Option<ThemeSpec>)
    ensures
        match r {
            Some(s) => {
                let i = theme_called(ascii_lowered(name@));
                &&& i is Some
                &&& s.name@ == name@
                &&& narrow_palette(theme_palette(i.unwrap()))
                &&& writes(s, theme_palette(i.unwrap()))
            },
            None => theme_called(ascii_lowered(name@)) is None,
        },
{
    let lowered = ascii_lower_text(name);
    match find_theme(lowered.as_str()) {
        None => None,
        Some(i) => {
            let p = palette_at(i);
            proof {
                lemma_builtin_themes(i);
            }
            Some(
                ThemeSpec {
                    name: name.to_owned(),
                    background: write_color(p.background),
                    surface: write_color(p.surface),
                    text: write_color(p.text),
                    muted: write_color(p.muted),
                    accent: write_color(p.accent),
                    secondary: write_color(p.secondary),
                    success: write_color(p.success),
                    warning: write_color(p.warning),
                    error: write_color(p.error),
                    border: write_color(p.border),
                },
            )
        },
    }
}

/// Position of the first built-in theme, from position `k` on, that is called `name`
/// in whatever case.
pub open spec fn theme_from(name: Seq<char>, k: usize) -> Option<usize>
    decreases THEME_COUNT - k,
{
    if k >= THEME_COUNT {
        None
    } else if ascii_lowered(theme_name(k)) == ascii_lowered(name) {
        Some(k)
    } else {
        theme_from(name, (k + 1) as usize)
    }
}

/// Position of the built-in theme of a name, in whatever case.
pub fn theme_position(name: &str) -> (r: Option<usize>)
    ensures
        match r {
            Some(i) => i < THEME_COUNT && theme_from(name@, 0) == Some(i),
            None => theme_from(name@, 0) is None,
        },
{
    let mut k: usize = 0;
    while k < THEME_COUNT
        invariant
            k <= THEME_COUNT,
            theme_from(name@, 0) == theme_from(name@, k),
        decreases THEME_COUNT - k,
    {
        if same_ignoring_ascii_case(builtin_theme(k), name) {
            return Some(k);
        }
        k = k + 1;
    }
    None
}

/// Every theme of the list can be had, and its text stands out from its background.
pub proof fn lemma_builtin_themes(i: usize)
    requires
        i < THEME_COUNT,
    ensures
        theme_called(theme_name(i)) == Some(i),
        rgb_of(theme_palette(i).text as int) != rgb_of(theme_palette(i).background as int),
        narrow_palette(theme_palette(i)),
{
    reveal(theme_called);
    reveal(theme_palette);
    reveal_strlit("catppuccin");
    reveal_strlit("catppuccin-mocha");
    reveal_strlit("catppuccinmocha");
    reveal_strlit("catppuccin-macchiato");
    reveal_strlit("catppuccinmacchiato");
    reveal_strlit("catppuccin-frappe");
    reveal_strlit("catppuccinfrappe");
    reveal_strlit("catppuccin-latte");
    reveal_strlit("catppuccinlatte");
    reveal_strlit("tokyo-night");
    reveal_strlit("tokyonight");
    reveal_strlit("gruvbox");
    reveal_strlit("nord");
    reveal_strlit("dracula");
    reveal_strlit("light");
    reveal_strlit("rose-pink");
    reveal_strlit("rosepink");
    reveal_strlit("rose-pink-dark");
    reveal_strlit("rosepinkdark");
    reveal_strlit("rose-pine-dark");
    reveal_strlit("rosepinedark");
    reveal_strlit("rose-pink-light");
    reveal_strlit("rosepinklight");
    reveal_strlit("rose-pine-light");
    reveal_strlit("rosepinelight");
    reveal_strlit("everforest");
    reveal_strlit("kanagawa");
    reveal_strlit("one-dark");
    reveal_strlit("onedark");
    reveal_strlit("cyberpunk");
    reveal_strlit("ember");
    reveal_strlit("verdant");
    reveal_strlit("lavender");
    reveal_strlit("parchment");
    assert("catppuccin"@.len() == 10);
    assert("catppuccin-mocha"@.len() == 16);
    assert("catppuccinmocha"@.len() == 15);
    assert("catppuccin-macchiato"@.len() == 20);
    assert("catppuccinmacchiato"@.len() == 19);
    assert("catppuccin-frappe"@.len() == 17);
    assert("catppuccinfrappe"@.len() == 16);
    assert("catppuccin-latte"@.len() == 16);
    assert("catppuccinlatte"@.len() == 15);
    assert("tokyo-night"@.len() == 11);
    assert("tokyonight"@.len() == 10);
    assert("gruvbox"@.len() == 7);
    assert("nord"@.len() == 4);
    assert("dracula"@.len() == 7);
    assert("light"@.len() == 5);
    assert("rose-pink"@.len() == 9);
    assert("rosepink"@.len() == 8);
    assert("rose-pink-dark"@.len() == 14);
    assert("rosepinkdark"@.len() == 12);
    assert("rose-pine-dark"@.len() == 14);
    assert("rosepinedark"@.len() == 12);
    assert("rose-pink-light"@.len() == 15);
    assert("rosepinklight"@.len() == 13);
    assert("rose-pine-light"@.len() == 15);
    assert("rosepinelight"@.len() == 13);
    assert("everforest"@.len() == 10);
    assert("kanagawa"@.len() == 8);
    assert("one-dark"@.len() == 8);
    assert("onedark"@.len() == 7);
    assert("cyberpunk"@.len() == 9);
    assert("ember"@.len() == 5);
    assert("verdant"@.len() == 7);
    assert("lavender"@.len() == 8);
    assert("parchment"@.len() == 9);
    assert("catppuccin"@[0] == 'c');
    assert("catppuccin-latte"@[10] == '-');
    assert("catppuccin-latte"@[11] == 'l');
    assert("catppuccin-mocha"@[11] == 'm');
    assert("catppuccinfrappe"@[10] == 'f');
    assert("catppuccinlatte"@[0] == 'c');
    assert("catppuccinmocha"@[0] == 'c');
    assert("cyberpunk"@[0] == 'c');
    assert("dracula"@[0] == 'd');
    assert("ember"@[0] == 'e');
    assert("everforest"@[0] == 'e');
    assert("gruvbox"@[0] == 'g');
    assert("kanagawa"@[0] == 'k');
    assert("lavender"@[0] == 'l');
    assert("light"@[0] == 'l');
    assert("one-dark"@[0] == 'o');
    assert("onedark"@[0] == 'o');
    assert("parchment"@[0] == 'p');
    assert("rose-pink"@[0] == 'r');
    assert("rose-pink-light"@[0] == 'r');
    assert("rosepink"@[0] == 'r');
    assert("tokyonight"@[0] == 't');
    assert("verdant"@[0] == 'v');
    if i == 0 {
        assert(theme_called("catppuccin-mocha"@) == Some(0usize));
    } else if i == 1 {
        assert(theme_called("catppuccin-macchiato"@) == Some(1usize));
    } else if i == 2 {
        assert(theme_called("catppuccin-frappe"@) == Some(2usize));
    } else if i == 3 {
        assert(theme_called("catppuccin-latte"@) == Some(3usize));
    } else if i == 4 {
        assert(theme_called("tokyo-night"@) == Some(4usize));
    } else if i == 5 {
        assert(theme_called("gruvbox"@) == Some(5usize));
    } else if i == 6 {
        assert(theme_called("nord"@) == Some(6usize));
    } else if i == 7 {
        assert(theme_called("dracula"@) == Some(7usize));
    } else if i == 8 {
        assert(theme_called("light"@) == Some(8usize));
    } else if i == 9 {
        assert(theme_called("rose-pink-dark"@) == Some(9usize));
    } else if i == 10 {
        assert(theme_called("rose-pink-light"@) == Some(10usize));
    } else if i == 11 {
        assert(theme_called("everforest"@) == Some(11usize));
    } else if i == 12 {
        assert(theme_called("kanagawa"@) == Some(12usize));
    } else if i == 13 {
        assert(theme_called("one-dark"@) == Some(13usize));
    } else if i == 14 {
        assert(theme_called("cyberpunk"@) == Some(14usize));
    } else if i == 15 {
        assert(theme_called("ember"@) == Some(15usize));
    } else if i == 16 {
        assert(theme_called("verdant"@) == Some(16usize));
    } else if i == 17 {
        assert(theme_called("lavender"@) == Some(17usize));
    } else if i == 18 {
        assert(theme_called("parchment"@) == Some(18usize));
    }
}

} // verus!
