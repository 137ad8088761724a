//! Which sprite of a texture atlas a tile is drawn with.

use vstd::prelude::*;
use crate::tile::Wall;

verus! {

/// Where the sprites are in the atlas: for each kind, the pixel coordinates
/// of the sprite's corner.
#[derive(Debug, Clone, Copy)]
pub struct Atlas {
    /// The horizontal wall, used for top and bottom walls alike.
    pub wall_h: (u32, u32),
    /// The vertical wall on the right of a room or corridor.
    pub wall_v_right: (u32, u32),
    /// The vertical wall on the left of a room or corridor.
    pub wall_v_left: (u32, u32),
    /// Open floor.
    pub floor: (u32, u32),
}

impl Atlas {
    /// The sprite for a tile of the given class. A tile without a class is
    /// solid rock and is not drawn.
    pub open spec fn sprite_of(self, class: Option<Wall>) -> Option<(u32, u32)> {
        match class {
            None => None,
            Some(Wall::Top) | Some(Wall::Bottom) => Some(self.wall_h),
            Some(Wall::Right) => Some(self.wall_v_right),
            Some(Wall::Left) => Some(self.wall_v_left),
            Some(Wall::Floor) => Some(self.floor),
        }
    }

    /// The corner of the sprite to draw a tile of the given class with, or
    /// `None` where nothing is drawn.
    pub fn sprite(&self, class: Option<Wall>) -> (r: Option<(u32, u32)>)
        ensures
            r == self.sprite_of(class),
    {
        match class {
            None => None,
            Some(Wall::Top) => Some(self.wall_h),
            Some(Wall::Bottom) => Some(self.wall_h),
            Some(Wall::Right) => Some(self.wall_v_right),
            Some(Wall::Left) => Some(self.wall_v_left),
            Some(Wall::Floor) => Some(self.floor),
        }
    }
}

} // verus!
