//! Named colour themes, each giving its colours as `#rrggbb` strings.

use vstd::prelude::*;

verus! {

/// A colour theme.
pub trait Palette {
    fn background() -> &'static str;

    fn primary() -> &'static str;

    fn secondary() -> &'static str;

    fn tertiary() -> &'static str;
}

/// The flat UI theme.
pub struct Flat;

/// The Nord theme.
pub struct Nord;

impl Palette for Flat {
    fn background() -> &'static str {
        "#2c3e50"
    }

    fn primary() -> &'static str {
        "#c0392b"
    }

    fn secondary() -> &'static str {
        "#2980b9"
    }

    fn tertiary() -> &'static str {
        "#27ae60"
    }
}

impl Palette for Nord {
    fn background() -> &'static str {
        "#2e3440"
    }

    fn primary() -> &'static str {
        "#88c0d0"
    }

    fn secondary() -> &'static str {
        "#81a1c1"
    }

    fn tertiary() -> &'static str {
        "#5e81ac"
    }
}

} // verus!
