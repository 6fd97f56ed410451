//! Colour palettes for drawing curves, with colours written as `#rrggbb`.

use vstd::prelude::*;
use vstd::string::StringSliceAdditionalSpecFns;

verus! {

/// A colour written as `#rrggbb`.
pub struct Color {
    pub value: &'static str,
}

/// The colours a renderer draws with.
pub struct Palette {
    pub background: Color,
    pub background_accent: Color,
    pub white: Color,
    /// The colours of the intermediate levels of de Casteljau's construction, in turn.
    pub curve_colors: Vec<Color>,
    pub primary: Color,
    pub secondary: Color,
    pub accent: Color,
}

/// The value of the hex digit `b`, if it is one.
pub open spec fn hex_value(b: u8) -> Option<u8> {
    if 48 <= b <= 57 {
        Some((b - 48) as u8)
    } else if 97 <= b <= 102 {
        Some((b - 87) as u8)
    } else if 65 <= b <= 70 {
        Some((b - 55) as u8)
    } else {
        None
    }
}

/// The byte written by the two hex digits of `s` from `k` on.
pub open spec fn hex_byte(s: Seq<u8>, k: int) -> Option<u8> {
    match (hex_value(s[k]), hex_value(s[k + 1])) {
        (Some(h), Some(l)) => Some((h * 16 + l) as u8),
        _ => None,
    }
}

/// The red, green and blue bytes written by `s`: a `#` and six hex digits.
pub open spec fn rgb_of(s: Seq<u8>) -> Option<[u8; 3]> {
    if s.len() != 7 || s[0] != 35 {
        None
    } else {
        match (hex_byte(s, 1), hex_byte(s, 3), hex_byte(s, 5)) {
            (Some(r), Some(g), Some(b)) => Some([r, g, b]),
            _ => None,
        }
    }
}

fn hex_digit(b: u8) -> (r: Option<u8>)
    ensures
        r == hex_value(b),
{
    if 48 <= b && b <= 57 {
        Some(b - 48)
    } else if 97 <= b && b <= 102 {
        Some(b - 87)
    } else if 65 <= b && b <= 70 {
        Some(b - 55)
    } else {
        None
    }
}

fn hex_pair(s: &[u8], k: usize) -> (r: Option<u8>)
    requires
        k + 1 < s@.len(),
    ensures
        r == hex_byte(s@, k as int),
{
    match (hex_digit(s[k]), hex_digit(s[k + 1])) {
        (Some(h), Some(l)) => Some(h * 16 + l),
        _ => None,
    }
}

impl Color {
    /// The red, green and blue bytes of the colour; `None` unless it is
    /// written as `#rrggbb`.
    pub fn rgb(&self) -> (r: Option<[u8; 3]>)
        ensures
            r == rgb_of(self.value.spec_bytes()),
    {
        let s = self.value.as_bytes();
        if s.len() != 7 || s[0] != 35 {
            return None;
        }
        match (hex_pair(s, 1), hex_pair(s, 3), hex_pair(s, 5)) {
            (Some(r), Some(g), Some(b)) => Some([r, g, b]),
            _ => None,
        }
    }
}

impl Palette {
    /// The Nord palette.
    pub fn nord() -> (r: Palette)
        ensures
            r.background.value@ == "#3b4252"@,
            r.background_accent.value@ == "#4c566a"@,
            r.white.value@ == "#e5e9f0"@,
            r.primary.value@ == "#5e81ac"@,
            r.secondary.value@ == "#81a1c1"@,
            r.accent.value@ == "#d08770"@,
            r.curve_colors.len() == 4,
            r.curve_colors[0].value@ == "#bf616a"@,
            r.curve_colors[1].value@ == "#a3be8c"@,
            r.curve_colors[2].value@ == "#ebcb8b"@,
            r.curve_colors[3].value@ == "#88c0d0"@,
    {
        Palette {
            background: Color { value: "#3b4252" },
            background_accent: Color { value: "#4c566a" },
            white: Color { value: "#e5e9f0" },
            primary: Color { value: "#5e81ac" },
            secondary: Color { value: "#81a1c1" },
            accent: Color { value: "#d08770" },
            curve_colors: vec![
                Color { value: "#bf616a" },
                Color { value: "#a3be8c" },
                Color { value: "#ebcb8b" },
                Color { value: "#88c0d0" },
            ],
        }
    }

    /// The default palette: Nord.
    pub fn default() -> (r: Palette)
        ensures
            r.background.value@ == "#3b4252"@,
            r.background_accent.value@ == "#4c566a"@,
            r.white.value@ == "#e5e9f0"@,
            r.primary.value@ == "#5e81ac"@,
            r.secondary.value@ == "#81a1c1"@,
            r.accent.value@ == "#d08770"@,
            r.curve_colors.len() == 4,
            r.curve_colors[0].value@ == "#bf616a"@,
            r.curve_colors[1].value@ == "#a3be8c"@,
            r.curve_colors[2].value@ == "#ebcb8b"@,
            r.curve_colors[3].value@ == "#88c0d0"@,
    {
        Self::nord()
    }

    /// The colour of level `level` of de Casteljau's construction, whose last
    /// level is `max_level`: white for the control cage and the final point,
    /// else the curve colours in turn.
    pub fn level_color(&self, level: usize, max_level: usize) -> (r: &Color)
        ensures
            (level == 0 || level == max_level || self.curve_colors.len() == 0) ==> r == &self.white,
            !(level == 0 || level == max_level || self.curve_colors.len() == 0) ==> r
                == &self.curve_colors@[(level % self.curve_colors.len()) as int],
    {
        if level == 0 || level == max_level || self.curve_colors.len() == 0 {
            &self.white
        } else {
            &self.curve_colors[level % self.curve_colors.len()]
        }
    }
}

} // verus!
