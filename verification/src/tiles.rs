//! Semantic tile ids of the shared level format.

use vstd::prelude::*;

verus! {

/// The tile ids of the shared level format, as the level crate defines
/// them: what a cell of a component or a gameplay layer is.
pub struct TileIds {
    pub empty: u8,
    pub solid: u8,
    pub slope_up: u8,
    pub slope_down: u8,
    pub lethal: u8,
    pub water: u8,
    pub fire: u8,
    pub heavy: u8,
    pub decor: u8,
    /// The largest id a layer may hold.
    pub max: u8,
}

} // verus!
