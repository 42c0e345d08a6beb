//! The map view renders into a texture atlas of side-by-side slots, one per
//! layer (terrain, overlay); each slot's camera draws into its own column of
//! the window.
use vstd::prelude::*;

verus! {

/// How many slots the atlas has, side by side.
pub const MAP_TEXTURE_ATLAS_COLUMNS: u32 = 2;

/// A slot of the atlas.
#[derive(Debug, Clone, Copy, PartialEq, Eq, Structural)]
pub enum MapTextureAtlasSlot {
    Terrain,
    Overlay,
}

/// The column of `slot`.
pub open spec fn slot_index(slot: MapTextureAtlasSlot) -> u32 {
    match slot {
        MapTextureAtlasSlot::Terrain => 0,
        MapTextureAtlasSlot::Overlay => 1,
    }
}

impl MapTextureAtlasSlot {
    /// The slot's column, counted from the left.
    pub fn index(self) -> (index: u32)
        ensures
            index == slot_index(self),
            index < MAP_TEXTURE_ATLAS_COLUMNS,
    {
        match self {
            MapTextureAtlasSlot::Terrain => 0,
            MapTextureAtlasSlot::Overlay => 1,
        }
    }
}

/// A camera's rectangle in the window, in physical pixels.
#[derive(Debug, Clone, Copy, PartialEq, Eq, Structural)]
pub struct AtlasViewport {
    pub x: u32,
    pub y: u32,
    pub width: u32,
    pub height: u32,
}

/// The rectangle of `slot` in a window of `width` by `height` physical
/// pixels: its column, the full height. `None` when the window is too small
/// to give the slot a pixel.
pub fn atlas_viewport(width: u32, height: u32, slot: MapTextureAtlasSlot) -> (viewport: Option<AtlasViewport>)
    ensures
        ({
            let slot_width = width / MAP_TEXTURE_ATLAS_COLUMNS;
            &&& viewport is None <==> slot_width == 0 || height == 0
            &&& viewport matches Some(v) ==> v == AtlasViewport {
                x: (slot_width * slot_index(slot)) as u32,
                y: 0,
                width: slot_width,
                height,
            }
        }),
{
    let slot_width = width / MAP_TEXTURE_ATLAS_COLUMNS;
    if slot_width == 0 || height == 0 {
        return None;
    }
    let index = slot.index();
    assert(slot_width * index <= width) by (nonlinear_arith)
        requires
            slot_width == width / 2,
            index < 2,
    ;
    Some(AtlasViewport { x: slot_width * index, y: 0, width: slot_width, height })
}

/// Whether a camera showing `current` must be moved to `target`: it has no
/// rectangle yet, or another one.
pub fn viewport_needs_update(current: Option<AtlasViewport>, target: AtlasViewport) -> (update: bool)
    ensures
        update == (current != Some(target)),
{
    match current {
        None => true,
        Some(v) => v.x != target.x || v.y != target.y || v.width != target.width || v.height != target.height,
    }
}

} // verus!
