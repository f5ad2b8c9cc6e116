//! Grid tile model: terrain, blocking, exploration and display colors.
//!
//! The central tile invariant is that the `blocked` flag always agrees with
//! the terrain: a tile blocks movement exactly when it is a wall.
use vstd::prelude::*;

verus! {

/// An RGB display color. Purely cosmetic: no game rule reads it.
#[derive(Clone, Copy, Debug, PartialEq, Eq, Structural)]
pub struct Color {
    pub r: u8,
    pub g: u8,
    pub b: u8,
}

impl Color {
    pub fn rgb(r: u8, g: u8, b: u8) -> (c: Color)
        ensures
            c == (Color { r, g, b }),
    {
        Color { r, g, b }
    }
}

/// What a tile is made of. Every tile starts as `Wall`; carving a room or a
/// tunnel turns it into `Floor`.
#[derive(Clone, Copy, Debug, PartialEq, Eq, Structural)]
pub enum Terrain {
    Wall,
    Floor,
}

/// The per-generation color palette: a base tone and a variant tone that
/// carved floor is tinted with.
#[derive(Clone, Copy, Debug, PartialEq, Eq, Structural)]
pub struct Palette {
    pub base: Color,
    pub variant: Color,
}

/// One grid cell.
#[derive(Clone, Copy, Debug)]
pub struct Tile {
    pub terrain: Terrain,
    pub blocked: bool,
    pub explored: bool,
    pub base_color: Color,
    pub variant_color: Color,
}

impl Tile {
    /// The tile invariant: `blocked` and the terrain must never disagree.
    pub open spec fn wf(self) -> bool {
        self.blocked == (self.terrain is Wall)
    }

    /// A freshly initialized wall tile, colored straight from the palette.
    pub fn wall(palette: &Palette) -> (t: Tile)
        ensures
            t.wf(),
            t.terrain is Wall,
            t.blocked,
            !t.explored,
    {
        Tile {
            terrain: Terrain::Wall,
            blocked: true,
            explored: false,
            base_color: palette.base,
            variant_color: palette.variant,
        }
    }

    /// A carved floor tile. `jitter` is a small cosmetic offset, drawn per
    /// tile by the carving loops, that tints the variant color so floors are
    /// not uniform; the result is deterministic in `palette` and `jitter`.
    pub fn floor(palette: &Palette, jitter: u8) -> (t: Tile)
        ensures
            t.wf(),
            t.terrain is Floor,
            !t.blocked,
            !t.explored,
    {
        let v = palette.variant;
        Tile {
            terrain: Terrain::Floor,
            blocked: false,
            explored: false,
            base_color: palette.base,
            variant_color: Color {
                r: v.r.saturating_add(jitter),
                g: v.g,
                b: v.b.saturating_add(jitter),
            },
        }
    }
}

} // verus!
