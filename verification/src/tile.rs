//! A single cell of the dungeon and the texture class it is drawn with.

use vstd::prelude::*;

verus! {

/// The texture class of a tile: a wall facing one of four ways, or open floor.
#[derive(Debug, Clone, Copy, PartialEq, Eq, Structural)]
pub enum Wall {
    Left,
    Right,
    Top,
    Bottom,
    Floor,
}

/// One cell of the grid.
///
/// `empty` is the passable flag: `false` is solid rock, `true` is a cell that
/// was dug out. `sprite_type` is the texture class; `None` means the cell was
/// never touched.
#[derive(Debug, Clone, Copy, PartialEq, Eq, Structural)]
pub struct Tile {
    pub x: u32,
    pub y: u32,
    pub empty: bool,
    pub sprite_type: Option<Wall>,
}

impl Tile {
    /// This tile after `floor`.
    pub open spec fn dug(self) -> Tile {
        Tile { empty: true, ..self }
    }

    /// This tile after `wall(wall)`.
    pub open spec fn faced(self, wall: Wall) -> Tile {
        Tile { sprite_type: Some(wall), ..self }
    }

    /// This tile after `floor` and then `wall(wall)`: passable, with the given class.
    pub open spec fn carved(self, wall: Wall) -> Tile {
        self.dug().faced(wall)
    }

    /// Makes the tile passable. Doing so twice is the same as doing so once.
    pub fn floor(&mut self)
        ensures
            *final(self) == old(self).dug(),
    {
        self.empty = true;
    }

    /// Sets the texture class, whatever it was before.
    pub fn wall(&mut self, wall: Wall)
        ensures
            *final(self) == old(self).faced(wall),
    {
        self.sprite_type = Some(wall);
    }

    /// The row above: `y + 1`.
    pub fn north(&self) -> (r: u32)
        requires
            self.y < u32::MAX,
        ensures
            r == self.y + 1,
    {
        self.y + 1
    }

    /// The row below: `y - 1`. Row 0 has none.
    pub fn south(&self) -> (r: u32)
        requires
            self.y > 0,
        ensures
            r == self.y - 1,
    {
        self.y - 1
    }

    /// The column to the right: `x + 1`.
    pub fn east(&self) -> (r: u32)
        requires
            self.x < u32::MAX,
        ensures
            r == self.x + 1,
    {
        self.x + 1
    }

    /// The column to the left: `x - 1`. Column 0 has none.
    pub fn west(&self) -> (r: u32)
        requires
            self.x > 0,
        ensures
            r == self.x - 1,
    {
        self.x - 1
    }
}

/// Making a tile passable twice is the same as doing so once.
pub proof fn lemma_floor_idempotent(tile: Tile)
    ensures
        tile.dug().dug() == tile.dug(),
{
}

/// Of two classes given to a tile one after the other, the second stands.
pub proof fn lemma_last_wall_stands(tile: Tile, first: Wall, second: Wall)
    ensures
        tile.faced(first).faced(second) == tile.faced(second),
{
}

} // verus!
