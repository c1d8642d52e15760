//! The hue wheel: which channel carries what in each sector.
//!
//! The conversion from hue, saturation and lightness to red, green and blue
//! cuts the hue circle into six sectors of sixty degrees. In each sector one
//! channel carries the chroma, one the secondary component and one nothing.
//! The components themselves are computed by the caller, in whatever number
//! type it works in; the table is the same for all of them.

use vstd::prelude::*;

verus! {

/// The red, green and blue components of the sector `sector` of the hue
/// circle, before the lightness offset is added: sector 0 runs from red to
/// yellow, 1 to green, 2 to cyan, 3 to blue, 4 to magenta, 5 back to red.
/// A sector past the fifth has no colour: all three channels are `none`.
pub open spec fn sector_table<S>(sector: u8, chroma: S, secondary: S, none: S) -> (S, S, S) {
    if sector == 0 {
        (chroma, secondary, none)
    } else if sector == 1 {
        (secondary, chroma, none)
    } else if sector == 2 {
        (none, chroma, secondary)
    } else if sector == 3 {
        (none, secondary, chroma)
    } else if sector == 4 {
        (secondary, none, chroma)
    } else if sector == 5 {
        (chroma, none, secondary)
    } else {
        (none, none, none)
    }
}

/// Lays the chroma and the secondary component out over the three channels
/// as the sector `sector` of the hue circle asks.
pub fn sector_channels<S: Copy>(sector: u8, chroma: S, secondary: S, none: S) -> (rgb: (S, S, S))
    ensures
        rgb == sector_table(sector, chroma, secondary, none),
{
    match sector {
        0 => (chroma, secondary, none),
        1 => (secondary, chroma, none),
        2 => (none, chroma, secondary),
        3 => (none, secondary, chroma),
        4 => (secondary, none, chroma),
        5 => (chroma, none, secondary),
        _ => (none, none, none),
    }
}

/// The component of `rgb` on the channel `k`: 0 is red, 1 green, 2 blue.
pub open spec fn on_channel<S>(rgb: (S, S, S), k: int) -> S {
    if k == 0 {
        rgb.0
    } else if k == 1 {
        rgb.1
    } else {
        rgb.2
    }
}

/// The way round the circle: the chroma stays on a channel for two sectors
/// and then moves on to the next, the empty channel does the same one
/// sector behind, and the secondary component is on the channel that is
/// left. So in each of the six sectors every channel carries exactly one of
/// the three.
pub proof fn lemma_sector_layout<S>(sector: u8, chroma: S, secondary: S, none: S)
    requires
        sector <= 5,
    ensures
        on_channel(sector_table(sector, chroma, secondary, none), ((sector + 1) / 2) % 3)
            == chroma,
        on_channel(sector_table(sector, chroma, secondary, none), (sector / 2 + 2) % 3) == none,
        on_channel(sector_table(sector, chroma, secondary, none), (7 - sector) % 3) == secondary,
        ((sector + 1) / 2) % 3 != (sector / 2 + 2) % 3,
        ((sector + 1) / 2) % 3 != (7 - sector) % 3,
        (sector / 2 + 2) % 3 != (7 - sector) % 3,
{
}

} // verus!
