//! Short names for board slots, footprints and placements.

use vstd::prelude::*;

use crate::domain::surface::{BoardSlot, RootPlacement, TileFootprint};

verus! {

/// The board cell `(x, y)`.
pub fn slot(x: i32, y: i32) -> (r: BoardSlot)
    ensures
        r == (BoardSlot { x, y }),
{
    BoardSlot::new(x, y)
}

/// A footprint of `width` by `height` cells.
pub fn footprint(width: u32, height: u32) -> (r: TileFootprint)
    ensures
        r == (TileFootprint { width, height }),
{
    TileFootprint::new(width, height)
}

/// A one-cell footprint.
pub fn unit_footprint() -> (r: TileFootprint)
    ensures
        r == (TileFootprint { width: 1, height: 1 }),
{
    TileFootprint::unit()
}

/// A one-cell placement at `(x, y)`.
pub fn placement(x: i32, y: i32) -> (r: RootPlacement)
    ensures
        r == (RootPlacement { slot: BoardSlot { x, y }, footprint: TileFootprint { width: 1, height: 1 } }),
{
    RootPlacement::unit(x, y)
}

/// A placement at `(x, y)` covering `width` by `height` cells.
pub fn placement_with_footprint(x: i32, y: i32, width: u32, height: u32) -> (r: RootPlacement)
    ensures
        r == (RootPlacement { slot: BoardSlot { x, y }, footprint: TileFootprint { width, height } }),
{
    RootPlacement::new(BoardSlot::new(x, y), TileFootprint::new(width, height))
}

} // verus!
