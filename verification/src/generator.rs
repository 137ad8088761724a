//! The generator: a blank grid, rooms sampled until enough of them keep
//! clear of one another, and a corridor from each room to the next.
//!
//! A candidate room is never placed nearer than one cell to the near edges
//! of the grid or three cells to the far edges, so every accepted room gets
//! walls. Corridors join the rooms in the order in which they were accepted,
//! each room to the one accepted after it.

use rand::rngs::StdRng;
use vstd::prelude::*;
use crate::geometry::{Point, Rect};
use crate::grid::{
    grid_evolves, grid_tunnels, has_tile, is_carved, is_floor, lemma_evolves_keeps_solid,
    lemma_evolves_transitive, lemma_tunnels_transitive, tile_evolves, tile_index,
    unclassified_is_solid,
};
use crate::random::{draw_below, draw_flag, system_rng};
use crate::room::{
    carve_room, hits_any, lemma_carve_room_evolves, lemma_carve_room_interior, place_room,
    rooms_apart,
};
use crate::tile::Tile;
use crate::tunnel::{
    corridor, create_corridor, lemma_corridor_cells, lemma_corridor_evolves, on_corridor,
};

verus! {

/// How many rooms to make and how large they may be, both limits included.
#[derive(Debug, Clone, Copy, PartialEq, Eq, Structural)]
pub struct RoomConfig {
    pub max_room_size: u32,
    pub min_room_size: u32,
    pub max_rooms: u32,
    pub min_rooms: u32,
}

/// Why no dungeon was made.
#[derive(Debug, Clone, Copy, PartialEq, Eq, Structural)]
pub enum MapError {
    /// The tile size is zero, a minimum lies above its maximum, the largest
    /// number of rooms is the largest `u32`, the largest room allowed does
    /// not fit into the grid with its margins, or the grid is so much wider
    /// than high that a room at its far side would have no tiles.
    InvalidConfig,
    /// The attempts ran out before enough rooms were accepted.
    Unsatisfiable,
    /// The operating system gave no seed for the random source.
    NoRandomSource,
}

/// How the generator goes on once a candidate room was offered.
#[derive(Debug, Clone, Copy, PartialEq, Eq, Structural)]
pub enum Progress {
    /// As many rooms as were wanted are accepted: the corridors come next.
    Done,
    /// Rooms are still wanting and no attempt is left: the generator gives up.
    GiveUp,
    /// Rooms are still wanting and attempts are left: another candidate is drawn.
    Offer,
}

/// How the generator goes on with `accepted` rooms of the `wanted` ones and
/// `attempts_left` candidates still to offer.
pub open spec fn progress(accepted: int, wanted: u32, attempts_left: u64) -> Progress {
    if accepted >= wanted {
        Progress::Done
    } else if attempts_left == 0 {
        Progress::GiveUp
    } else {
        Progress::Offer
    }
}

/// How many candidate rooms `create_map` offers before it gives up.
pub const MAX_ATTEMPTS: u64 = 1_000_000;

impl RoomConfig {
    /// Whether the limits are in order and every room that may be drawn can
    /// be placed in a grid of this size.
    ///
    /// A room with its margins takes four cells more than its own size along
    /// each axis. And every cell that may be dug must have a tile: the vector
    /// has to reach the cell four short of the far corner, which it does not
    /// in a grid that is much wider than high.
    pub open spec fn fits(self, map_width: int, map_height: int) -> bool {
        &&& self.min_rooms <= self.max_rooms < u32::MAX
        &&& self.min_room_size <= self.max_room_size
        &&& self.max_room_size + 4 < map_width
        &&& self.max_room_size + 4 < map_height
        &&& tile_index(map_width - 4, map_height - 4, map_width) < map_width * map_height
    }

    /// Whether the rectangle is a room that may be drawn for a grid of this
    /// size: within the size limits, one cell or more from the near edges and
    /// more than three from the far edges.
    pub open spec fn allows(self, room: Rect, map_width: int, map_height: int) -> bool {
        &&& self.min_room_size <= room.w <= self.max_room_size
        &&& self.min_room_size <= room.h <= self.max_room_size
        &&& 1 <= room.x < map_width - room.w - 3
        &&& 1 <= room.y < map_height - room.h - 3
    }
}

/// Whether a dungeon can be asked for: the tile size is not zero and the
/// room limits fit the grid of `width / tile_size` by `height / tile_size` tiles.
pub open spec fn valid_request(width: u32, height: u32, tile_size: u32, config: RoomConfig) -> bool {
    tile_size > 0 && config.fits(width as int / tile_size as int, height as int / tile_size as int)
}

/// The tile at position `i` of a grid that nothing was dug into. The tiles
/// stand column after column, `map_height` to a column.
pub open spec fn blank_tile(i: int, map_height: int) -> Tile {
    Tile { x: (i / map_height) as u32, y: (i % map_height) as u32, empty: false, sprite_type: None }
}

/// The grid that nothing was dug into: `map_width * map_height` tiles of
/// solid rock without a class.
pub open spec fn blank_grid(map_width: int, map_height: int) -> Seq<Tile> {
    Seq::new((map_width * map_height) as nat, |i: int| blank_tile(i, map_height))
}

/// The centre of a room as a point.
pub open spec fn center_of(room: Rect) -> Point {
    Point { x: room.center_x() as u32, y: room.center_y() as u32 }
}

/// The grid after the rooms are dug into it, in their order.
pub open spec fn dig_rooms(s: Seq<Tile>, rooms: Seq<Rect>, map_width: int, map_height: int) -> Seq<
    Tile,
>
    decreases rooms.len(),
{
    if rooms.len() == 0 {
        s
    } else {
        carve_room(
            dig_rooms(s, rooms.drop_last(), map_width, map_height),
            rooms.last(),
            map_width,
            map_height,
        )
    }
}

/// The grid after the first corridors are dug, one for each entry of
/// `elbows`: corridor `k` joins room `k` to room `k + 1`, along the row first
/// where `elbows[k]` is true.
pub open spec fn dig_corridors(
    s: Seq<Tile>,
    rooms: Seq<Rect>,
    elbows: Seq<bool>,
    map_width: int,
) -> Seq<Tile>
    decreases elbows.len(),
{
    if elbows.len() == 0 {
        s
    } else {
        let k = elbows.len() - 1;
        corridor(
            dig_corridors(s, rooms, elbows.drop_last(), map_width),
            map_width,
            center_of(rooms[k]),
            center_of(rooms[k + 1]),
            elbows.last(),
        )
    }
}

/// The tiles of the dungeon with these rooms and corridors: all rooms are
/// dug into the blank grid, then all corridors.
pub open spec fn dungeon_tiles(
    map_width: int,
    map_height: int,
    rooms: Seq<Rect>,
    elbows: Seq<bool>,
) -> Seq<Tile> {
    dig_corridors(
        dig_rooms(blank_grid(map_width, map_height), rooms, map_width, map_height),
        rooms,
        elbows,
        map_width,
    )
}

/// Whether `tiles` is a dungeon that the configuration asks for, with these
/// rooms and corridors.
///
/// The number of rooms is within its limits; every room is within the size
/// limits and the margins; no two rooms overlap or touch; there is a corridor
/// from each room to the next; and the tiles are those of that dungeon.
pub open spec fn laid_out(
    tiles: Seq<Tile>,
    rooms: Seq<Rect>,
    elbows: Seq<bool>,
    map_width: int,
    map_height: int,
    config: RoomConfig,
) -> bool {
    &&& config.min_rooms <= rooms.len() <= config.max_rooms
    &&& forall|k: int| 0 <= k < rooms.len() ==> config.allows(#[trigger] rooms[k], map_width, map_height)
    &&& rooms_apart(rooms)
    &&& elbows.len() == (if rooms.len() == 0 {
        0
    } else {
        rooms.len() - 1
    })
    &&& tiles == dungeon_tiles(map_width, map_height, rooms, elbows)
}

/// Whether `tiles` is the grid of some dungeon that the configuration asks
/// for: there are rooms and corridors with which it is laid out, every cell
/// of the rooms has a tile, is passable and has a class, and every cell of
/// the corridors has a tile and is open floor.
pub open spec fn is_dungeon_grid(
    tiles: Seq<Tile>,
    map_width: int,
    map_height: int,
    config: RoomConfig,
) -> bool {
    exists|rooms: Seq<Rect>, elbows: Seq<bool>|
        #![trigger laid_out(tiles, rooms, elbows, map_width, map_height, config)]
        laid_out(tiles, rooms, elbows, map_width, map_height, config) && rooms_passable(
            tiles,
            rooms,
            map_width,
        ) && corridors_passable(tiles, rooms, elbows, map_width)
}

/// A finished dungeon: the grid, and the rooms and corridors that were dug
/// into it.
#[derive(Debug)]
pub struct Dungeon {
    /// The grid, `map_width * map_height` tiles.
    pub tiles: Vec<Tile>,
    /// The rooms, in the order in which they were accepted.
    pub rooms: Vec<Rect>,
    /// For each corridor, whether its tunnel along the row was dug first.
    pub elbows: Vec<bool>,
    pub map_width: u32,
    pub map_height: u32,
}

impl Dungeon {
    /// Whether this is a dungeon that the configuration asks for.
    ///
    /// It is laid out with its rooms and corridors; the grid has
    /// `map_width * map_height` tiles; every tile without a class is solid
    /// rock; every cell of every room has a tile, is passable and has a
    /// class; and every cell of every corridor has a tile and is open floor.
    pub open spec fn meets(self, config: RoomConfig) -> bool {
        &&& laid_out(
            self.tiles@,
            self.rooms@,
            self.elbows@,
            self.map_width as int,
            self.map_height as int,
            config,
        )
        &&& self.tiles@.len() == self.map_width * self.map_height
        &&& unclassified_is_solid(self.tiles@)
        &&& rooms_passable(self.tiles@, self.rooms@, self.map_width as int)
        &&& corridors_passable(self.tiles@, self.rooms@, self.elbows@, self.map_width as int)
    }
}

/// Digging rooms is an allowed change of the grid.
pub proof fn lemma_dig_rooms_evolves(
    s: Seq<Tile>,
    rooms: Seq<Rect>,
    map_width: int,
    map_height: int,
)
    ensures
        grid_evolves(s, dig_rooms(s, rooms, map_width, map_height)),
    decreases rooms.len(),
{
    if rooms.len() > 0 {
        let before = dig_rooms(s, rooms.drop_last(), map_width, map_height);
        lemma_dig_rooms_evolves(s, rooms.drop_last(), map_width, map_height);
        lemma_carve_room_evolves(before, rooms.last(), map_width, map_height);
        lemma_evolves_transitive(s, before, dig_rooms(s, rooms, map_width, map_height));
    }
}

/// Digging corridors is a change that corridors may make: no tile stops
/// being passable or loses its class, and open floor stays as it is.
pub proof fn lemma_dig_corridors_evolves(
    s: Seq<Tile>,
    rooms: Seq<Rect>,
    elbows: Seq<bool>,
    map_width: int,
)
    ensures
        grid_tunnels(s, dig_corridors(s, rooms, elbows, map_width)),
    decreases elbows.len(),
{
    if elbows.len() > 0 {
        let k = elbows.len() - 1;
        let before = dig_corridors(s, rooms, elbows.drop_last(), map_width);
        lemma_dig_corridors_evolves(s, rooms, elbows.drop_last(), map_width);
        lemma_corridor_evolves(
            before,
            map_width,
            center_of(rooms[k]),
            center_of(rooms[k + 1]),
            elbows.last(),
        );
        lemma_tunnels_transitive(s, before, dig_corridors(s, rooms, elbows, map_width));
    }
}

/// Every cell of every room that has a tile is passable once the rooms are
/// dug, and has a class.
pub proof fn lemma_dig_rooms_interior(
    s: Seq<Tile>,
    rooms: Seq<Rect>,
    map_width: int,
    map_height: int,
)
    ensures
        forall|k: int, x: int, y: int|
            0 <= k < rooms.len() && (#[trigger] rooms[k]).contains(x, y) && #[trigger] has_tile(
                s,
                map_width,
                x,
                y,
            ) ==> is_carved(dig_rooms(s, rooms, map_width, map_height), map_width, x, y),
    decreases rooms.len(),
{
    if rooms.len() > 0 {
        let earlier = rooms.drop_last();
        let before = dig_rooms(s, earlier, map_width, map_height);
        let after = dig_rooms(s, rooms, map_width, map_height);
        lemma_dig_rooms_interior(s, earlier, map_width, map_height);
        lemma_dig_rooms_evolves(s, earlier, map_width, map_height);
        lemma_carve_room_evolves(before, rooms.last(), map_width, map_height);
        lemma_carve_room_interior(before, rooms.last(), map_width, map_height);
        assert forall|k: int, x: int, y: int|
            0 <= k < rooms.len() && (#[trigger] rooms[k]).contains(x, y) && #[trigger] has_tile(
                s,
                map_width,
                x,
                y,
            ) implies is_carved(after, map_width, x, y) by {
            let i = tile_index(x, y, map_width);
            assert(tile_evolves(before[i], after[i]));
            if k < rooms.len() - 1 {
                assert(earlier[k] == rooms[k]);
                assert(is_carved(before, map_width, x, y));
            } else {
                assert(has_tile(before, map_width, x, y));
            }
        }
    }
}

/// Whether every cell of every room that has a tile is passable and has a class.
pub open spec fn rooms_open(tiles: Seq<Tile>, rooms: Seq<Rect>, map_width: int) -> bool {
    forall|k: int, x: int, y: int|
        0 <= k < rooms.len() && (#[trigger] rooms[k]).contains(x, y) && #[trigger] has_tile(
            tiles,
            map_width,
            x,
            y,
        ) ==> is_carved(tiles, map_width, x, y)
}

/// Whether every cell of every corridor that has a tile is open floor.
pub open spec fn corridors_open(
    tiles: Seq<Tile>,
    rooms: Seq<Rect>,
    elbows: Seq<bool>,
    map_width: int,
) -> bool {
    forall|k: int, x: int, y: int|
        0 <= k < elbows.len() && on_corridor(
            center_of(rooms[k]),
            center_of(rooms[k + 1]),
            #[trigger] elbows[k],
            x,
            y,
        ) && #[trigger] has_tile(tiles, map_width, x, y) ==> is_floor(tiles, map_width, x, y)
}

/// Every cell of every corridor that has a tile is open floor once the
/// corridors are dug.
pub proof fn lemma_dig_corridors_cells(
    s: Seq<Tile>,
    rooms: Seq<Rect>,
    elbows: Seq<bool>,
    map_width: int,
)
    ensures
        corridors_open(dig_corridors(s, rooms, elbows, map_width), rooms, elbows, map_width),
    decreases elbows.len(),
{
    let after = dig_corridors(s, rooms, elbows, map_width);
    if elbows.len() > 0 {
        let last = elbows.len() - 1;
        let earlier = elbows.drop_last();
        let before = dig_corridors(s, rooms, earlier, map_width);
        lemma_dig_corridors_cells(s, rooms, earlier, map_width);
        lemma_corridor_evolves(
            before,
            map_width,
            center_of(rooms[last]),
            center_of(rooms[last + 1]),
            elbows.last(),
        );
        lemma_corridor_cells(
            before,
            map_width,
            center_of(rooms[last]),
            center_of(rooms[last + 1]),
            elbows.last(),
        );
        assert forall|k: int, x: int, y: int|
            0 <= k < elbows.len() && on_corridor(
                center_of(rooms[k]),
                center_of(rooms[k + 1]),
                #[trigger] elbows[k],
                x,
                y,
            ) && #[trigger] has_tile(after, map_width, x, y) implies is_floor(
            after,
            map_width,
            x,
            y,
        ) by {
            let i = tile_index(x, y, map_width);
            assert(tile_evolves(before[i], after[i]));
            assert(has_tile(before, map_width, x, y));
            if k < last {
                assert(earlier[k] == elbows[k]);
                assert(is_floor(before, map_width, x, y));
            }
        }
    }
}

/// What holds of the tiles of every dungeon.
///
/// The grid has `map_width * map_height` tiles, each with the coordinates it
/// started with. Every tile without a class is solid rock. Every cell of
/// every room that has a tile is passable and has a class, and every cell
/// of every corridor that has a tile is open floor.
pub proof fn lemma_dungeon_tiles(
    map_width: int,
    map_height: int,
    rooms: Seq<Rect>,
    elbows: Seq<bool>,
)
    requires
        0 <= map_width,
        0 <= map_height,
    ensures
        dungeon_tiles(map_width, map_height, rooms, elbows).len() == map_width * map_height,
        grid_evolves(
            blank_grid(map_width, map_height),
            dungeon_tiles(map_width, map_height, rooms, elbows),
        ),
        unclassified_is_solid(dungeon_tiles(map_width, map_height, rooms, elbows)),
        rooms_open(dungeon_tiles(map_width, map_height, rooms, elbows), rooms, map_width),
        corridors_open(
            dungeon_tiles(map_width, map_height, rooms, elbows),
            rooms,
            elbows,
            map_width,
        ),
{
    let blank = blank_grid(map_width, map_height);
    let with_rooms = dig_rooms(blank, rooms, map_width, map_height);
    let done = dungeon_tiles(map_width, map_height, rooms, elbows);
    assert(0 <= map_width * map_height) by (nonlinear_arith)
        requires
            0 <= map_width,
            0 <= map_height,
    ;
    lemma_dig_rooms_evolves(blank, rooms, map_width, map_height);
    lemma_dig_corridors_evolves(with_rooms, rooms, elbows, map_width);
    lemma_evolves_transitive(blank, with_rooms, done);
    lemma_evolves_keeps_solid(blank, done);
    lemma_dig_rooms_interior(blank, rooms, map_width, map_height);
    lemma_dig_corridors_cells(with_rooms, rooms, elbows, map_width);
    assert forall|k: int, x: int, y: int|
        0 <= k < rooms.len() && (#[trigger] rooms[k]).contains(x, y) && #[trigger] has_tile(
            done,
            map_width,
            x,
            y,
        ) implies is_carved(done, map_width, x, y) by {
        let i = tile_index(x, y, map_width);
        assert(has_tile(blank, map_width, x, y));
        assert(is_carved(with_rooms, map_width, x, y));
        assert(tile_evolves(with_rooms[i], done[i]));
    }
}

/// In a blank grid that is square, every cell has a tile, and the tile
/// holds the coordinates of the cell.
pub proof fn lemma_blank_grid_square(side: int)
    requires
        0 <= side <= u32::MAX,
    ensures
        blank_grid(side, side).len() == side * side,
        forall|x: int, y: int|
            0 <= x < side && 0 <= y < side ==> has_tile(blank_grid(side, side), side, x, y)
                && blank_grid(side, side)[#[trigger] tile_index(x, y, side)] == (Tile {
                x: x as u32,
                y: y as u32,
                empty: false,
                sprite_type: None,
            }),
{
    assert(0 <= side * side) by (nonlinear_arith)
        requires
            0 <= side,
    ;
    assert forall|x: int, y: int| 0 <= x < side && 0 <= y < side implies has_tile(
        blank_grid(side, side),
        side,
        x,
        y,
    ) && blank_grid(side, side)[#[trigger] tile_index(x, y, side)] == (Tile {
        x: x as u32,
        y: y as u32,
        empty: false,
        sprite_type: None,
    }) by {
        assert(0 <= x * side && x * side + side <= side * side) by (nonlinear_arith)
            requires
                0 <= x < side,
        ;
        vstd::arithmetic::div_mod::lemma_fundamental_div_mod_converse(x * side + y, side, x, y);
    }
}

/// Whether the cell `(x, y)` keeps four cells or more from the far edges of
/// the grid. Every cell of a room or a corridor of a dungeon does.
pub open spec fn within_margins(x: int, y: int, map_width: int, map_height: int) -> bool {
    0 <= x <= map_width - 4 && 0 <= y <= map_height - 4
}

/// In a grid that the configuration fits, every cell within the margins has
/// a tile.
pub proof fn lemma_within_margins_has_tile(
    tiles: Seq<Tile>,
    config: RoomConfig,
    map_width: int,
    map_height: int,
    x: int,
    y: int,
)
    requires
        config.fits(map_width, map_height),
        tiles.len() == map_width * map_height,
        within_margins(x, y, map_width, map_height),
    ensures
        has_tile(tiles, map_width, x, y),
{
    assert(0 <= x * map_width <= (map_width - 4) * map_width) by (nonlinear_arith)
        requires
            0 <= x <= map_width - 4,
            0 <= map_width,
    ;
}

/// The centre of a room lies between its first column and row and its far
/// edges.
pub proof fn lemma_center_within_room(room: Rect)
    requires
        room.x + room.w <= u32::MAX,
        room.y + room.h <= u32::MAX,
    ensures
        room.x <= center_of(room).x <= room.x + room.w,
        room.y <= center_of(room).y <= room.y + room.h,
{
}

/// Whether every cell of every room has a tile, is passable and has a class.
pub open spec fn rooms_passable(tiles: Seq<Tile>, rooms: Seq<Rect>, map_width: int) -> bool {
    forall|k: int, x: int, y: int|
        0 <= k < rooms.len() && #[trigger] rooms[k].contains(x, y) ==> has_tile(
            tiles,
            map_width,
            x,
            y,
        ) && is_carved(tiles, map_width, x, y)
}

/// Whether every cell of every corridor has a tile and is open floor.
pub open spec fn corridors_passable(
    tiles: Seq<Tile>,
    rooms: Seq<Rect>,
    elbows: Seq<bool>,
    map_width: int,
) -> bool {
    forall|k: int, x: int, y: int|
        0 <= k < elbows.len() && on_corridor(
            center_of(rooms[k]),
            center_of(rooms[k + 1]),
            #[trigger] elbows[k],
            x,
            y,
        ) ==> #[trigger] has_tile(tiles, map_width, x, y) && is_floor(tiles, map_width, x, y)
}

/// In a dungeon that was laid out as its configuration asks, every cell of
/// every room has a tile, is passable and has a class, and every cell of
/// every corridor has a tile and is open floor.
pub proof fn lemma_dungeon_passable(
    tiles: Seq<Tile>,
    rooms: Seq<Rect>,
    elbows: Seq<bool>,
    map_width: int,
    map_height: int,
    config: RoomConfig,
)
    requires
        laid_out(tiles, rooms, elbows, map_width, map_height, config),
        config.fits(map_width, map_height),
        map_width <= u32::MAX,
        map_height <= u32::MAX,
    ensures
        rooms_passable(tiles, rooms, map_width),
        corridors_passable(tiles, rooms, elbows, map_width),
{
    lemma_dungeon_tiles(map_width, map_height, rooms, elbows);
    assert forall|k: int, x: int, y: int|
        0 <= k < rooms.len() && #[trigger] rooms[k].contains(x, y) implies has_tile(
        tiles,
        map_width,
        x,
        y,
    ) && is_carved(tiles, map_width, x, y) by {
        assert(config.allows(rooms[k], map_width, map_height));
        lemma_within_margins_has_tile(tiles, config, map_width, map_height, x, y);
    }
    assert forall|k: int, x: int, y: int|
        0 <= k < elbows.len() && on_corridor(
            center_of(rooms[k]),
            center_of(rooms[k + 1]),
            #[trigger] elbows[k],
            x,
            y,
        ) implies #[trigger] has_tile(tiles, map_width, x, y) && is_floor(
        tiles,
        map_width,
        x,
        y,
    ) by {
        assert(config.allows(rooms[k], map_width, map_height));
        assert(config.allows(rooms[k + 1], map_width, map_height));
        lemma_center_within_room(rooms[k]);
        lemma_center_within_room(rooms[k + 1]);
        lemma_within_margins_has_tile(tiles, config, map_width, map_height, x, y);
    }
}

/// In a dungeon on a square grid, every cell has a tile, and the tile holds
/// the coordinates of the cell.
pub proof fn lemma_dungeon_square(
    tiles: Seq<Tile>,
    rooms: Seq<Rect>,
    elbows: Seq<bool>,
    side: int,
    config: RoomConfig,
)
    requires
        laid_out(tiles, rooms, elbows, side, side, config),
        0 <= side <= u32::MAX,
    ensures
        forall|x: int, y: int|
            0 <= x < side && 0 <= y < side ==> has_tile(tiles, side, x, y) && tiles[#[trigger] tile_index(
                x,
                y,
                side,
            )].x == x && tiles[tile_index(x, y, side)].y == y,
{
    lemma_dungeon_tiles(side, side, rooms, elbows);
    lemma_blank_grid_square(side);
    let blank = blank_grid(side, side);
    assert forall|x: int, y: int| 0 <= x < side && 0 <= y < side implies has_tile(
        tiles,
        side,
        x,
        y,
    ) && tiles[#[trigger] tile_index(x, y, side)].x == x && tiles[tile_index(x, y, side)].y
        == y by {
        let i = tile_index(x, y, side);
        assert(has_tile(blank, side, x, y));
        assert(tile_evolves(blank[i], tiles[i]));
    }
}

/// Makes the grid that nothing was dug into.
pub fn new_grid(map_width: u32, map_height: u32) -> (tiles: Vec<Tile>)
    ensures
        tiles@ == blank_grid(map_width as int, map_height as int),
{
    let mut tiles: Vec<Tile> = Vec::new();
    let mut x: u32 = 0;
    while x < map_width
        invariant
            x <= map_width,
            tiles@ == Seq::new(
                (x * map_height) as nat,
                |i: int| blank_tile(i, map_height as int),
            ),
        decreases map_width - x,
    {
        let mut y: u32 = 0;
        while y < map_height
            invariant
                x < map_width,
                y <= map_height,
                tiles@ == Seq::new(
                    (x * map_height + y) as nat,
                    |i: int| blank_tile(i, map_height as int),
                ),
            decreases map_height - y,
        {
            proof {
                assert(0 <= x * map_height) by (nonlinear_arith)
                    requires
                        0 <= x,
                        0 <= map_height,
                ;
                vstd::arithmetic::div_mod::lemma_fundamental_div_mod_converse(
                    x * map_height + y,
                    map_height as int,
                    x as int,
                    y as int,
                );
            }
            tiles.push(Tile { x, y, empty: false, sprite_type: None });
            y += 1;
        }
        proof {
            assert((x + 1) * map_height == x * map_height + map_height) by (nonlinear_arith);
        }
        x += 1;
    }
    tiles
}

impl RoomConfig {
    /// Whether the limits fit a grid of this size.
    pub fn fits_grid(&self, map_width: u32, map_height: u32) -> (r: bool)
        ensures
            r == self.fits(map_width as int, map_height as int),
    {
        if self.min_rooms > self.max_rooms || self.max_rooms == u32::MAX {
            return false;
        }
        if self.min_room_size > self.max_room_size {
            return false;
        }
        let needed: u64 = self.max_room_size as u64 + 4;
        if needed >= map_width as u64 || needed >= map_height as u64 {
            return false;
        }
        let width: u128 = map_width as u128;
        let height: u128 = map_height as u128;
        assert((map_width - 4) * map_width <= 0x1_0000_0000 * 0x1_0000_0000 && map_width
            * map_height <= 0x1_0000_0000 * 0x1_0000_0000) by (nonlinear_arith)
            requires
                4 <= map_width <= 0x1_0000_0000,
                0 <= map_height <= 0x1_0000_0000,
        ;
        (width - 4) * width + (height - 4) < width * height
    }

    /// The range that the number of rooms is drawn from: the first value
    /// that may come and the first that may not.
    pub fn count_limits(&self) -> (r: (u32, u32))
        requires
            self.max_rooms < u32::MAX,
        ensures
            r.0 == self.min_rooms,
            r.1 == self.max_rooms + 1,
    {
        (self.min_rooms, self.max_rooms + 1)
    }

    /// The range that the width and the height of a room are each drawn
    /// from: the first value that may come and the first that may not.
    pub fn size_limits(&self) -> (r: (u32, u32))
        requires
            self.max_room_size < u32::MAX,
        ensures
            r.0 == self.min_room_size,
            r.1 == self.max_room_size + 1,
    {
        (self.min_room_size, self.max_room_size + 1)
    }
}

/// The range that the first column, or row, of a room of the given size is
/// drawn from, in a grid of the given extent along that axis: the first
/// value that may come and the first that may not. The room keeps one cell
/// from the near edge and more than three from the far edge.
pub fn corner_limits(extent: u32, size: u32) -> (r: (u32, u32))
    requires
        size + 3 <= extent,
    ensures
        r.0 == 1,
        r.1 == extent - size - 3,
{
    (1, extent - size - 3)
}

/// How the generator goes on with `accepted` rooms of the `wanted` ones and
/// `attempts_left` candidates still to offer.
pub fn next_step(accepted: usize, wanted: u32, attempts_left: u64) -> (next: Progress)
    ensures
        next == progress(accepted as int, wanted, attempts_left),
{
    if accepted >= wanted as usize {
        Progress::Done
    } else if attempts_left == 0 {
        Progress::GiveUp
    } else {
        Progress::Offer
    }
}

/// Offers a candidate room and says how the generator goes on.
///
/// The candidate is accepted, dug and added to the list when it keeps clear
/// of every room accepted before it, and changes nothing otherwise. Then the
/// generator is done if `wanted` rooms are accepted; if not, it gives up when
/// no attempt is left after this one, and draws another candidate otherwise.
pub fn offer_room(
    tiles: &mut Vec<Tile>,
    rooms: &mut Vec<Rect>,
    candidate: Rect,
    wanted: u32,
    attempts_left: u64,
    map_width: u32,
    map_height: u32,
) -> (next: Progress)
    ensures
        final(rooms)@ == (if hits_any(old(rooms)@, candidate) {
            old(rooms)@
        } else {
            old(rooms)@.push(candidate)
        }),
        final(tiles)@ == (if hits_any(old(rooms)@, candidate) {
            old(tiles)@
        } else {
            carve_room(old(tiles)@, candidate, map_width as int, map_height as int)
        }),
        next == progress(final(rooms)@.len() as int, wanted, attempts_left),
        rooms_apart(old(rooms)@) ==> rooms_apart(final(rooms)@),
        grid_evolves(old(tiles)@, final(tiles)@),
{
    let _ = place_room(tiles, rooms, candidate, map_width, map_height);
    next_step(rooms.len(), wanted, attempts_left)
}

/// Draws the number of rooms to make, from the limits of the configuration.
pub fn draw_count(config: &RoomConfig, rng: &mut StdRng) -> (wanted: u32)
    requires
        config.min_rooms <= config.max_rooms < u32::MAX,
    ensures
        config.min_rooms <= wanted <= config.max_rooms,
{
    let (low, high) = config.count_limits();
    draw_below(rng, low, high)
}

/// Draws a candidate room: first its width and its height, from the size
/// limits, then its first column and its first row, from the limits that the
/// size leaves in the grid.
pub fn draw_candidate(config: &RoomConfig, map_width: u32, map_height: u32, rng: &mut StdRng) -> (room:
    Rect)
    requires
        config.fits(map_width as int, map_height as int),
    ensures
        config.allows(room, map_width as int, map_height as int),
{
    let (low, high) = config.size_limits();
    let w = draw_below(rng, low, high);
    let h = draw_below(rng, low, high);
    let (first_column, end_column) = corner_limits(map_width, w);
    let x = draw_below(rng, first_column, end_column);
    let (first_row, end_row) = corner_limits(map_height, h);
    let y = draw_below(rng, first_row, end_row);
    Rect { x, y, w, h }
}

/// Makes a dungeon with `wanted` rooms in a grid of the given size.
///
/// Candidate rooms are drawn and offered one after the other, and after each
/// `offer_room` says how to go on: the rooms are complete, or the attempts
/// ran out, or another candidate is due. Not even one candidate is drawn
/// where no room is wanted, or no attempt allowed. When the rooms are
/// complete a corridor is dug from each room to the next, its elbow drawn
/// for each.
///
/// The first candidate is always accepted, so one room never fails where an
/// attempt is allowed.
pub fn dig_dungeon(
    map_width: u32,
    map_height: u32,
    config: &RoomConfig,
    wanted: u32,
    max_attempts: u64,
    rng: &mut StdRng,
) -> (r: Result<Dungeon, MapError>)
    requires
        config.fits(map_width as int, map_height as int),
        config.min_rooms <= wanted <= config.max_rooms,
    ensures
        r matches Err(e) ==> e == MapError::Unsatisfiable && wanted >= 1 && (max_attempts == 0
            || wanted >= 2),
        r matches Ok(d) ==> d.map_width == map_width && d.map_height == map_height
            && d.rooms@.len() == wanted && d.meets(*config),
{
    let ghost blank = blank_grid(map_width as int, map_height as int);
    let mut tiles = new_grid(map_width, map_height);
    let mut rooms: Vec<Rect> = Vec::new();
    let mut attempts_left: u64 = max_attempts;
    let mut step = next_step(rooms.len(), wanted, attempts_left);
    while step == Progress::Offer
        invariant
            config.fits(map_width as int, map_height as int),
            config.min_rooms <= wanted <= config.max_rooms,
            step == progress(rooms@.len() as int, wanted, attempts_left),
            rooms.len() <= wanted,
            attempts_left <= max_attempts,
            attempts_left < max_attempts ==> rooms.len() >= 1,
            forall|k: int|
                0 <= k < rooms.len() ==> config.allows(
                    #[trigger] rooms@[k],
                    map_width as int,
                    map_height as int,
                ),
            rooms_apart(rooms@),
            tiles@ == dig_rooms(blank, rooms@, map_width as int, map_height as int),
        decreases attempts_left,
    {
        attempts_left = attempts_left - 1;
        let candidate = draw_candidate(config, map_width, map_height, rng);
        let ghost earlier = rooms@;
        step = offer_room(
            &mut tiles,
            &mut rooms,
            candidate,
            wanted,
            attempts_left,
            map_width,
            map_height,
        );
        proof {
            if !hits_any(earlier, candidate) {
                assert(rooms@.drop_last() =~= earlier);
            }
        }
    }
    if step == Progress::GiveUp {
        return Err(MapError::Unsatisfiable);
    }
    let ghost with_rooms = tiles@;
    let mut elbows: Vec<bool> = Vec::new();
    if rooms.len() > 0 {
        let last = rooms.len() - 1;
        let mut k: usize = 0;
        while k < last
            invariant
                last + 1 == rooms.len(),
                k <= last,
                k == elbows.len(),
                forall|j: int|
                    0 <= j < rooms.len() ==> config.allows(
                        #[trigger] rooms@[j],
                        map_width as int,
                        map_height as int,
                    ),
                tiles@ == dig_corridors(with_rooms, rooms@, elbows@, map_width as int),
            decreases last - k,
        {
            assert(config.allows(rooms@[k as int], map_width as int, map_height as int));
            assert(config.allows(rooms@[k + 1], map_width as int, map_height as int));
            let current = rooms[k].center();
            let next = rooms[k + 1].center();
            let horizontal_first = draw_flag(rng);
            let ghost earlier = elbows@;
            create_corridor(&mut tiles, map_width, current, next, horizontal_first);
            elbows.push(horizontal_first);
            proof {
                assert(elbows@.drop_last() =~= earlier);
            }
            k += 1;
        }
    }
    proof {
        lemma_dungeon_tiles(map_width as int, map_height as int, rooms@, elbows@);
        lemma_dungeon_passable(
            tiles@,
            rooms@,
            elbows@,
            map_width as int,
            map_height as int,
            *config,
        );
    }
    Ok(Dungeon { tiles, rooms, elbows, map_width, map_height })
}

/// Whether a dungeon can be asked for.
pub fn check_request(width: u32, height: u32, tile_size: u32, config: &RoomConfig) -> (r: bool)
    ensures
        r == valid_request(width, height, tile_size, *config),
{
    tile_size != 0 && config.fits_grid(width / tile_size, height / tile_size)
}

/// Makes a dungeon, drawing from the given random source.
///
/// The grid has `width / tile_size` by `height / tile_size` tiles. A request
/// that is not valid is refused before anything is drawn. Then the number of
/// rooms is drawn from the configured range, and `dig_dungeon` makes a
/// dungeon with that many rooms, offering at most `max_attempts` candidates.
///
/// Which rooms come out depends on the draws. Whatever they are, a dungeon
/// that is returned is laid out as the configuration asks. With at most one
/// room to make and one attempt or more, a dungeon is always returned.
pub fn generate(
    width: u32,
    height: u32,
    tile_size: u32,
    config: &RoomConfig,
    max_attempts: u64,
    rng: &mut StdRng,
) -> (r: Result<Dungeon, MapError>)
    ensures
        (r matches Err(MapError::InvalidConfig)) <==> !valid_request(
            width,
            height,
            tile_size,
            *config,
        ),
        (r matches Err(MapError::Unsatisfiable)) ==> config.max_rooms >= 1 && (max_attempts == 0
            || config.max_rooms >= 2),
        !(r matches Err(MapError::NoRandomSource)),
        r matches Ok(d) ==> d.map_width == width / tile_size && d.map_height == height / tile_size
            && d.meets(*config),
{
    if !check_request(width, height, tile_size, config) {
        return Err(MapError::InvalidConfig);
    }
    let map_width = width / tile_size;
    let map_height = height / tile_size;
    let wanted = draw_count(config, rng);
    dig_dungeon(map_width, map_height, config, wanted, max_attempts, rng)
}

/// Makes a dungeon and returns its grid, drawing from the random source in
/// `source` where there is one, and offering at most `MAX_ATTEMPTS`
/// candidate rooms.
///
/// A request that is not valid is refused first. A valid request without a
/// random source fails for want of one.
pub fn create_map_from(
    width: u32,
    height: u32,
    tile_size: u32,
    room_config: &RoomConfig,
    source: Option<StdRng>,
) -> (r: Result<Vec<Tile>, MapError>)
    ensures
        (r matches Err(MapError::InvalidConfig)) <==> !valid_request(
            width,
            height,
            tile_size,
            *room_config,
        ),
        (r matches Err(MapError::NoRandomSource)) <==> valid_request(
            width,
            height,
            tile_size,
            *room_config,
        ) && source is None,
        (r matches Err(MapError::Unsatisfiable)) ==> room_config.max_rooms >= 2,
        r matches Ok(tiles) ==> tiles@.len() == (width / tile_size) * (height / tile_size)
            && unclassified_is_solid(tiles@) && is_dungeon_grid(
            tiles@,
            width as int / tile_size as int,
            height as int / tile_size as int,
            *room_config,
        ),
{
    if !check_request(width, height, tile_size, room_config) {
        return Err(MapError::InvalidConfig);
    }
    match source {
        None => Err(MapError::NoRandomSource),
        Some(mut rng) => {
            match generate(width, height, tile_size, room_config, MAX_ATTEMPTS, &mut rng) {
                Ok(dungeon) => {
                    let ghost rooms = dungeon.rooms@;
                    let ghost elbows = dungeon.elbows@;
                    let tiles = dungeon.tiles;
                    proof {
                        let map_width = width as int / tile_size as int;
                        let map_height = height as int / tile_size as int;
                        assert(laid_out(tiles@, rooms, elbows, map_width, map_height, *room_config));
                        assert(rooms_passable(tiles@, rooms, map_width));
                        assert(corridors_passable(tiles@, rooms, elbows, map_width));
                    }
                    Ok(tiles)
                },
                Err(e) => Err(e),
            }
        },
    }
}

/// Makes a dungeon for an image of `width` by `height` pixels, drawn with
/// tiles of `tile_size` pixels, and returns its grid.
///
/// The random source is seeded by the operating system, and at most
/// `MAX_ATTEMPTS` candidate rooms are offered. Where the system gives no
/// seed, a valid request fails for want of a random source.
pub fn create_map(width: &u32, height: &u32, tile_size: &u32, room_config: &RoomConfig) -> (r:
    Result<Vec<Tile>, MapError>)
    ensures
        (r matches Err(MapError::InvalidConfig)) <==> !valid_request(
            *width,
            *height,
            *tile_size,
            *room_config,
        ),
        (r matches Err(MapError::NoRandomSource)) ==> valid_request(
            *width,
            *height,
            *tile_size,
            *room_config,
        ),
        (r matches Err(MapError::Unsatisfiable)) ==> room_config.max_rooms >= 2,
        r matches Ok(tiles) ==> tiles@.len() == (*width / *tile_size) * (*height / *tile_size)
            && unclassified_is_solid(tiles@) && is_dungeon_grid(
            tiles@,
            *width as int / *tile_size as int,
            *height as int / *tile_size as int,
            *room_config,
        ),
{
    let source = system_rng();
    create_map_from(*width, *height, *tile_size, room_config, source)
}

} // verus!
