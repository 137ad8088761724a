//! The border of a dungeon on a square grid.
//!
//! On a square grid no two cells share a tile, so what is dug stays where
//! the rooms and corridors are. Rooms keep one cell from the near edges and
//! more than three from the far edges, and corridors run between their
//! centres: the first row and the first column are never dug out, and the
//! last two rows and columns are never touched at all.

use vstd::prelude::*;
use crate::generator::{
    blank_grid, center_of, dig_corridors, dig_rooms, laid_out, lemma_blank_grid_square,
    lemma_center_within_room, lemma_dig_corridors_evolves, lemma_dig_rooms_evolves, RoomConfig,
};
use crate::geometry::{Point, Rect};
use crate::grid::tile_index;
use crate::room::{carve_room, lemma_carve_room_elsewhere, lemma_carve_room_evolves};
use crate::tile::Tile;
use crate::tunnel::{
    corridor, h_tunnel, h_tunnel_cells, lemma_h_tunnel_cells, lemma_h_tunnel_digs_only_cells,
    lemma_h_tunnel_elsewhere, lemma_v_tunnel_cells, lemma_v_tunnel_digs_only_cells,
    lemma_v_tunnel_elsewhere, lower, misses_v_tunnel_cell, span, v_tunnel, v_tunnel_cells,
};

verus! {

/// Whether the cell `(x, y)` lies in the first row or the first column.
pub open spec fn on_near_border(x: int, y: int) -> bool {
    x == 0 || y == 0
}

/// Whether the cell `(x, y)` lies in one of the last two rows or columns of
/// a square grid.
pub open spec fn on_far_border(x: int, y: int, side: int) -> bool {
    x >= side - 2 || y >= side - 2
}

/// Whether the border of a square grid is the same in `t` as in `s`: the
/// tiles of the first row and column are passable in both or in neither, and
/// the tiles of the last two rows and columns are the same.
pub open spec fn border_kept(side: int, s: Seq<Tile>, t: Seq<Tile>) -> bool {
    &&& s.len() == t.len()
    &&& forall|x: int, y: int|
        0 <= x < side && 0 <= y < side && on_near_border(x, y) ==> t[#[trigger] tile_index(
            x,
            y,
            side,
        )].empty == s[tile_index(x, y, side)].empty
    &&& forall|x: int, y: int|
        0 <= x < side && 0 <= y < side && on_far_border(x, y, side) ==> t[#[trigger] tile_index(
            x,
            y,
            side,
        )] == s[tile_index(x, y, side)]
}

/// In a square grid, two cells that differ have their tiles at different
/// positions, and every cell has a position in the vector.
pub proof fn lemma_cells_apart(side: int, x: int, y: int, x0: int, y0: int)
    by (nonlinear_arith)
    requires
        0 <= x,
        0 <= x0 < side,
        0 <= y < side,
        0 <= y0 < side,
    ensures
        0 <= tile_index(x0, y0, side) < side * side,
        (x != x0 || y != y0) ==> tile_index(x, y, side) != tile_index(x0, y0, side),
{
    if x < x0 {
        assert((x + 1) * side <= x0 * side);
    } else if x0 < x {
        assert((x0 + 1) * side <= x * side);
    }
    assert((x0 + 1) * side <= side * side);
}

/// The border is kept through two changes that each keep it.
pub proof fn lemma_border_kept_transitive(side: int, s: Seq<Tile>, t: Seq<Tile>, u: Seq<Tile>)
    requires
        border_kept(side, s, t),
        border_kept(side, t, u),
    ensures
        border_kept(side, s, u),
{
    assert forall|x: int, y: int|
        0 <= x < side && 0 <= y < side && on_near_border(x, y) implies u[#[trigger] tile_index(
        x,
        y,
        side,
    )].empty == s[tile_index(x, y, side)].empty by {
        assert(t[tile_index(x, y, side)].empty == s[tile_index(x, y, side)].empty);
    }
    assert forall|x: int, y: int|
        0 <= x < side && 0 <= y < side && on_far_border(x, y, side) implies u[#[trigger] tile_index(
        x,
        y,
        side,
    )] == s[tile_index(x, y, side)] by {
        assert(t[tile_index(x, y, side)] == s[tile_index(x, y, side)]);
    }
}

/// A room that keeps one cell from the near edges and four from the far
/// edges leaves the border as it is.
pub proof fn lemma_room_keeps_border(side: int, s: Seq<Tile>, room: Rect)
    requires
        s.len() == side * side,
        1 <= room.x,
        1 <= room.y,
        room.x + room.w <= side - 4,
        room.y + room.h <= side - 4,
    ensures
        border_kept(side, s, carve_room(s, room, side, side)),
{
    let t = carve_room(s, room, side, side);
    lemma_carve_room_evolves(s, room, side, side);
    assert forall|x0: int, y0: int|
        0 <= x0 < side && 0 <= y0 < side && (on_near_border(x0, y0) || on_far_border(
            x0,
            y0,
            side,
        )) implies t[#[trigger] tile_index(x0, y0, side)] == s[tile_index(x0, y0, side)] by {
        let i = tile_index(x0, y0, side);
        lemma_cells_apart(side, x0, y0, x0, y0);
        assert forall|x: int, y: int| #[trigger] room.contains(x, y) implies tile_index(
            x,
            y,
            side,
        ) != i by {
            lemma_cells_apart(side, x, y, x0, y0);
        }
        lemma_carve_room_elsewhere(s, room, side, side, i);
    }
}

/// A tunnel along a row that keeps one cell from the near edges and four
/// from the far edges leaves the border as it is.
pub proof fn lemma_h_tunnel_keeps_border(side: int, s: Seq<Tile>, start: int, y: int, n: nat)
    requires
        s.len() == side * side,
        1 <= start,
        start + n <= side - 4,
        1 <= y <= side - 4,
    ensures
        border_kept(side, s, h_tunnel_cells(s, side, start, y, n)),
{
    let t = h_tunnel_cells(s, side, start, y, n);
    lemma_h_tunnel_cells(s, side, start, y, n);
    assert forall|x0: int, y0: int|
        0 <= x0 < side && 0 <= y0 < side && on_near_border(x0, y0) implies t[#[trigger] tile_index(
        x0,
        y0,
        side,
    )].empty == s[tile_index(x0, y0, side)].empty by {
        let i = tile_index(x0, y0, side);
        lemma_cells_apart(side, x0, y0, x0, y0);
        assert forall|x: int| start <= x < start + n implies i != #[trigger] tile_index(
            x,
            y,
            side,
        ) by {
            lemma_cells_apart(side, x, y, x0, y0);
        }
        lemma_h_tunnel_digs_only_cells(s, side, start, y, n, i);
    }
    assert forall|x0: int, y0: int|
        0 <= x0 < side && 0 <= y0 < side && on_far_border(x0, y0, side) implies t[#[trigger] tile_index(
        x0,
        y0,
        side,
    )] == s[tile_index(x0, y0, side)] by {
        let i = tile_index(x0, y0, side);
        lemma_cells_apart(side, x0, y0, x0, y0);
        assert forall|x: int| start <= x < start + n implies {
            &&& i != #[trigger] tile_index(x, y, side)
            &&& i != tile_index(x, y, side) + 1
            &&& (y >= 1 ==> i != tile_index(x, y, side) - 1)
        } by {
            lemma_cells_apart(side, x, y, x0, y0);
            lemma_cells_apart(side, x, y + 1, x0, y0);
            lemma_cells_apart(side, x, y - 1, x0, y0);
        }
        lemma_cells_apart(side, start - 1, y, x0, y0);
        lemma_cells_apart(side, start + 1, y, x0, y0);
        lemma_h_tunnel_elsewhere(s, side, start, y, n, i);
    }
}

/// A tunnel along a column that keeps one cell from the near edges and four
/// from the far edges leaves the border as it is.
pub proof fn lemma_v_tunnel_keeps_border(side: int, s: Seq<Tile>, start: int, x: int, n: nat)
    requires
        s.len() == side * side,
        1 <= start,
        start + n <= side - 4,
        1 <= x <= side - 4,
    ensures
        border_kept(side, s, v_tunnel_cells(s, side, start, x, n)),
{
    let t = v_tunnel_cells(s, side, start, x, n);
    lemma_v_tunnel_cells(s, side, start, x, n);
    assert forall|x0: int, y0: int|
        0 <= x0 < side && 0 <= y0 < side && on_near_border(x0, y0) implies t[#[trigger] tile_index(
        x0,
        y0,
        side,
    )].empty == s[tile_index(x0, y0, side)].empty by {
        let i = tile_index(x0, y0, side);
        lemma_cells_apart(side, x0, y0, x0, y0);
        assert forall|y: int| start <= y < start + n implies i != #[trigger] tile_index(
            x,
            y,
            side,
        ) by {
            lemma_cells_apart(side, x, y, x0, y0);
        }
        lemma_v_tunnel_digs_only_cells(s, side, start, x, n, i);
    }
    assert forall|x0: int, y0: int|
        0 <= x0 < side && 0 <= y0 < side && on_far_border(x0, y0, side) implies t[#[trigger] tile_index(
        x0,
        y0,
        side,
    )] == s[tile_index(x0, y0, side)] by {
        let i = tile_index(x0, y0, side);
        lemma_cells_apart(side, x0, y0, x0, y0);
        assert forall|y: int| start <= y < start + n implies #[trigger] misses_v_tunnel_cell(
            side,
            x,
            y,
            i,
        ) by {
            lemma_cells_apart(side, x, y, x0, y0);
            lemma_cells_apart(side, x + 1, y, x0, y0);
            lemma_cells_apart(side, x - 1, y, x0, y0);
        }
        lemma_v_tunnel_elsewhere(s, side, start, x, n, i);
    }
}

/// Whether the point keeps one cell from the near edges and four from the
/// far edges of a square grid, as the centre of every room of a dungeon does.
pub open spec fn well_inside(p: Point, side: int) -> bool {
    1 <= p.x <= side - 4 && 1 <= p.y <= side - 4
}

/// A corridor between two points well inside the grid leaves the border as
/// it is.
pub proof fn lemma_corridor_keeps_border(
    side: int,
    s: Seq<Tile>,
    current: Point,
    next: Point,
    horizontal_first: bool,
)
    requires
        s.len() == side * side,
        well_inside(current, side),
        well_inside(next, side),
    ensures
        border_kept(side, s, corridor(s, side, current, next, horizontal_first)),
{
    let done = corridor(s, side, current, next, horizontal_first);
    let columns = lower(next.x as int, current.x as int);
    let rows = lower(next.y as int, current.y as int);
    let across = span(next.x as int, current.x as int);
    let along = span(next.y as int, current.y as int);
    if horizontal_first {
        let first = h_tunnel(s, side, next.x as int, current.x as int, next.y as int);
        lemma_h_tunnel_keeps_border(side, s, columns, next.y as int, across);
        lemma_v_tunnel_keeps_border(side, first, rows, current.x as int, along);
        lemma_border_kept_transitive(side, s, first, done);
    } else {
        let first = v_tunnel(s, side, next.y as int, current.y as int, next.x as int);
        lemma_v_tunnel_keeps_border(side, s, rows, next.x as int, along);
        lemma_h_tunnel_keeps_border(side, first, columns, current.y as int, across);
        lemma_border_kept_transitive(side, s, first, done);
    }
}

/// Rooms that the configuration allows leave the border as it is.
proof fn lemma_rooms_keep_border(side: int, s: Seq<Tile>, rooms: Seq<Rect>, config: RoomConfig)
    requires
        s.len() == side * side,
        forall|k: int| 0 <= k < rooms.len() ==> config.allows(#[trigger] rooms[k], side, side),
    ensures
        border_kept(side, s, dig_rooms(s, rooms, side, side)),
    decreases rooms.len(),
{
    if rooms.len() > 0 {
        let earlier = rooms.drop_last();
        let before = dig_rooms(s, earlier, side, side);
        assert forall|k: int| 0 <= k < earlier.len() implies config.allows(
            #[trigger] earlier[k],
            side,
            side,
        ) by {
            assert(earlier[k] == rooms[k]);
        }
        lemma_rooms_keep_border(side, s, earlier, config);
        lemma_dig_rooms_evolves(s, earlier, side, side);
        assert(config.allows(rooms[rooms.len() - 1], side, side));
        lemma_room_keeps_border(side, before, rooms.last());
        lemma_border_kept_transitive(side, s, before, dig_rooms(s, rooms, side, side));
    }
}

/// Corridors between rooms that the configuration allows leave the border
/// as it is.
proof fn lemma_corridors_keep_border(
    side: int,
    s: Seq<Tile>,
    rooms: Seq<Rect>,
    elbows: Seq<bool>,
    config: RoomConfig,
)
    requires
        s.len() == side * side,
        side <= u32::MAX,
        elbows.len() < rooms.len() || elbows.len() == 0,
        forall|k: int| 0 <= k < rooms.len() ==> config.allows(#[trigger] rooms[k], side, side),
    ensures
        border_kept(side, s, dig_corridors(s, rooms, elbows, side)),
    decreases elbows.len(),
{
    if elbows.len() > 0 {
        let last = elbows.len() - 1;
        let earlier = elbows.drop_last();
        let before = dig_corridors(s, rooms, earlier, side);
        lemma_corridors_keep_border(side, s, rooms, earlier, config);
        lemma_dig_corridors_evolves(s, rooms, earlier, side);
        assert(config.allows(rooms[last], side, side));
        assert(config.allows(rooms[last + 1], side, side));
        lemma_center_within_room(rooms[last]);
        lemma_center_within_room(rooms[last + 1]);
        lemma_corridor_keeps_border(
            side,
            before,
            center_of(rooms[last]),
            center_of(rooms[last + 1]),
            elbows.last(),
        );
        lemma_border_kept_transitive(side, s, before, dig_corridors(s, rooms, elbows, side));
    }
}

/// In a dungeon on a square grid, no tile of the first row or the first
/// column is passable, and every tile of the last two rows and columns is
/// rock without a class, as it was before anything was dug.
pub proof fn lemma_dungeon_border(
    tiles: Seq<Tile>,
    rooms: Seq<Rect>,
    elbows: Seq<bool>,
    side: int,
    config: RoomConfig,
)
    requires
        laid_out(tiles, rooms, elbows, side, side, config),
        0 <= side <= u32::MAX,
    ensures
        forall|x: int, y: int|
            0 <= x < side && 0 <= y < side && on_near_border(x, y) ==> !tiles[#[trigger] tile_index(
                x,
                y,
                side,
            )].empty,
        forall|x: int, y: int|
            0 <= x < side && 0 <= y < side && on_far_border(x, y, side) ==> tiles[#[trigger] tile_index(
                x,
                y,
                side,
            )] == (Tile { x: x as u32, y: y as u32, empty: false, sprite_type: None }),
{
    let blank = blank_grid(side, side);
    let with_rooms = dig_rooms(blank, rooms, side, side);
    lemma_blank_grid_square(side);
    lemma_rooms_keep_border(side, blank, rooms, config);
    lemma_dig_rooms_evolves(blank, rooms, side, side);
    lemma_corridors_keep_border(side, with_rooms, rooms, elbows, config);
    lemma_border_kept_transitive(side, blank, with_rooms, tiles);
    assert forall|x: int, y: int|
        0 <= x < side && 0 <= y < side && on_near_border(x, y) implies !tiles[#[trigger] tile_index(
        x,
        y,
        side,
    )].empty by {
        assert(blank[tile_index(x, y, side)].empty == false);
    }
}

} // verus!
