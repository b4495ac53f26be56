//! Cell colors as plain RGBA values.
use vstd::prelude::*;

verus! {

/// An RGBA color, 8 bits per channel.
#[derive(Clone, Copy, Debug, PartialEq, Eq, Structural)]
pub struct Rgba {
    pub red: u8,
    pub green: u8,
    pub blue: u8,
    pub alpha: u8,
}

/// The color of a live cell.
pub open spec fn live_color() -> Rgba {
    Rgba { red: 207, green: 171, blue: 74, alpha: 255 }
}

/// The background color, also used for dead cells.
pub open spec fn background_color() -> Rgba {
    Rgba { red: 41, green: 43, blue: 48, alpha: 255 }
}

/// Picks the color a cell is drawn with from its state.
pub fn get_color(alive: bool) -> (c: Rgba)
    ensures
        c == (if alive {
            live_color()
        } else {
            background_color()
        }),
{
    if alive {
        Rgba { red: 207, green: 171, blue: 74, alpha: 255 }
    } else {
        Rgba { red: 41, green: 43, blue: 48, alpha: 255 }
    }
}

} // verus!
