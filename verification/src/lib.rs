//! Procedural dungeon layouts on a tile grid.
//!
//! A dungeon is a grid of tiles into which rooms and corridors are dug.
//! Rooms are axis-aligned rectangles that never overlap or touch; corridors
//! are L-shaped paths that join each room to the one accepted after it.
//! Every tile that is dug out or lies beside a corridor gets a class: a wall
//! facing one of four ways, or floor, so that a renderer can pick a texture
//! for it.
//!
//! The choices that shape the library:
//!
//! - The grid is a flat vector, and the tile of the cell `(x, y)` is the one
//!   at position `x * map_width + y`. One function, [`grid::tile_index`],
//!   says so, and everything else goes through it. A cell whose position
//!   lies beyond the vector has no tile and is passed over.
//! - A cell in row 0 has no neighbour below and a cell in column 0 none to
//!   its left. The neighbours of a [`Tile`] are asked for only where they exist.
//! - A room is placed one cell or more from the near edges of the grid and
//!   more than three cells from its far edges.
//! - Rooms are sampled until enough of them are accepted, but never more
//!   often than a given number of attempts; when the attempts run out the
//!   generator reports that it could not satisfy the configuration. After
//!   each candidate [`offer_room`] says which of the three it is.
//! - The random source is handed to the generator, so that a caller can
//!   seed it. Where the operating system is asked for the seed and gives
//!   none, that is reported too.
//!
//! What is proved: the functions that dig return exactly the grid that
//! [`room::carve_room`], [`tunnel::h_tunnel`] and [`tunnel::v_tunnel`]
//! describe, and of every dungeon that [`generate`] returns it holds that no
//! two rooms overlap or touch, that every cell of a room is passable and
//! has a class, that every cell of a corridor is open floor, and that every
//! tile without a class is solid rock. On a square grid the first row and
//! column are never passable and the last two rows and columns stay rock
//! ([`border::lemma_dungeon_border`]).

pub mod border;
pub mod generator;
pub mod geometry;
pub mod grid;
pub mod random;
pub mod room;
pub mod texture;
pub mod tile;
pub mod tunnel;

pub use crate::generator::{
    create_map, create_map_from, dig_dungeon, generate, new_grid, offer_room, Dungeon, MapError,
    Progress, RoomConfig,
};
pub use crate::geometry::{Point, Rect};
pub use crate::grid::{tile_at, tile_position};
pub use crate::room::{create_new_room, place_room};
pub use crate::texture::Atlas;
pub use crate::tile::{Tile, Wall};
pub use crate::tunnel::{create_corridor, create_h_tunnel, create_v_tunnel};
