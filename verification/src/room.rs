//! Rooms: how a room is dug into the grid, which class each of its cells
//! gets, and when a new room is accepted beside those already there.

use vstd::prelude::*;
use crate::geometry::Rect;
use crate::grid::{
    carve_at, carve_tile, grid_evolves, has_tile, in_grid, is_carved, lemma_carve_at_evolves,
    lemma_evolves_transitive, tile_evolves, tile_index, COORD_LIMIT,
};
use crate::tile::{Tile, Wall};

verus! {

impl Rect {
    /// Whether the room keeps clear of all four edges of the grid. Only such
    /// a room gets walls: the cells of a room that touches an edge are all floor.
    pub open spec fn clear_of_edges(self, map_width: int, map_height: int) -> bool {
        &&& self.x + self.w < map_width
        &&& self.x > 0
        &&& self.y > 0
        &&& self.y + self.h < map_height
    }
}

/// The class of the cell `(x, y)` of a room.
///
/// In a room that keeps clear of the edges, the last column is a right wall
/// and the first a left wall; of the other cells, the last row is a top wall
/// and the first a bottom wall; the rest is floor. So a corner is always a
/// right or a left wall, and in a room one cell wide or high the right and
/// the top win.
pub open spec fn room_wall(room: Rect, map_width: int, map_height: int, x: int, y: int) -> Wall {
    if !room.clear_of_edges(map_width, map_height) {
        Wall::Floor
    } else if x + 1 == room.x + room.w {
        Wall::Right
    } else if x == room.x {
        Wall::Left
    } else if y + 1 == room.y + room.h {
        Wall::Top
    } else if y == room.y {
        Wall::Bottom
    } else {
        Wall::Floor
    }
}

/// The grid after the first `n` cells of the column `x` of the room are dug
/// out, from the row `room.y` upwards.
pub open spec fn carve_room_column(
    s: Seq<Tile>,
    room: Rect,
    map_width: int,
    map_height: int,
    x: int,
    n: nat,
) -> Seq<Tile>
    decreases n,
{
    if n == 0 {
        s
    } else {
        let y = room.y + n - 1;
        carve_at(
            carve_room_column(s, room, map_width, map_height, x, (n - 1) as nat),
            map_width,
            x,
            y,
            room_wall(room, map_width, map_height, x, y),
        )
    }
}

/// The grid after the first `m` columns of the room are dug out, from the
/// column `room.x` onwards.
pub open spec fn carve_room_columns(
    s: Seq<Tile>,
    room: Rect,
    map_width: int,
    map_height: int,
    m: nat,
) -> Seq<Tile>
    decreases m,
{
    if m == 0 {
        s
    } else {
        carve_room_column(
            carve_room_columns(s, room, map_width, map_height, (m - 1) as nat),
            room,
            map_width,
            map_height,
            room.x + m - 1,
            room.h as nat,
        )
    }
}

/// The grid after the room is dug out: every cell of the room that has a
/// tile is passable and has the class `room_wall` gives it. The cells are
/// visited column by column, each column from its first row.
pub open spec fn carve_room(s: Seq<Tile>, room: Rect, map_width: int, map_height: int) -> Seq<
    Tile,
> {
    carve_room_columns(s, room, map_width, map_height, room.w as nat)
}

/// Digging out part of a column is an allowed change of the grid.
pub proof fn lemma_carve_room_column_evolves(
    s: Seq<Tile>,
    room: Rect,
    map_width: int,
    map_height: int,
    x: int,
    n: nat,
)
    ensures
        grid_evolves(s, carve_room_column(s, room, map_width, map_height, x, n)),
    decreases n,
{
    if n > 0 {
        let y = room.y + n - 1;
        let before = carve_room_column(s, room, map_width, map_height, x, (n - 1) as nat);
        lemma_carve_room_column_evolves(s, room, map_width, map_height, x, (n - 1) as nat);
        lemma_carve_at_evolves(before, map_width, x, y, room_wall(room, map_width, map_height, x, y));
        lemma_evolves_transitive(
            s,
            before,
            carve_room_column(s, room, map_width, map_height, x, n),
        );
    }
}

/// Digging out some columns of a room is an allowed change of the grid.
pub proof fn lemma_carve_room_columns_evolves(
    s: Seq<Tile>,
    room: Rect,
    map_width: int,
    map_height: int,
    m: nat,
)
    ensures
        grid_evolves(s, carve_room_columns(s, room, map_width, map_height, m)),
    decreases m,
{
    if m > 0 {
        let before = carve_room_columns(s, room, map_width, map_height, (m - 1) as nat);
        lemma_carve_room_columns_evolves(s, room, map_width, map_height, (m - 1) as nat);
        lemma_carve_room_column_evolves(
            before,
            room,
            map_width,
            map_height,
            room.x + m - 1,
            room.h as nat,
        );
        lemma_evolves_transitive(
            s,
            before,
            carve_room_columns(s, room, map_width, map_height, m),
        );
    }
}

/// Digging out a room is an allowed change of the grid: no tile stops being
/// passable, loses its class or changes its coordinates.
pub proof fn lemma_carve_room_evolves(s: Seq<Tile>, room: Rect, map_width: int, map_height: int)
    ensures
        grid_evolves(s, carve_room(s, room, map_width, map_height)),
{
    lemma_carve_room_columns_evolves(s, room, map_width, map_height, room.w as nat);
}

/// What digging out part of a column does to each tile.
///
/// Within one column the positions of the cells rise with the row, so each
/// position is written at most once: the tile at position `i` is dug out with
/// the class of the row `i - x * map_width` if that row is among the first
/// `n` of the room, and is left alone otherwise.
pub proof fn lemma_carve_room_column_tiles(
    s: Seq<Tile>,
    room: Rect,
    map_width: int,
    map_height: int,
    x: int,
    n: nat,
)
    requires
        0 <= x,
    ensures
        carve_room_column(s, room, map_width, map_height, x, n).len() == s.len(),
        forall|i: int|
            0 <= i < s.len() ==> #[trigger] carve_room_column(
                s,
                room,
                map_width,
                map_height,
                x,
                n,
            )[i] == (if room.y <= i - x * map_width < room.y + n {
                s[i].carved(room_wall(room, map_width, map_height, x, i - x * map_width))
            } else {
                s[i]
            }),
    decreases n,
{
    if n > 0 {
        lemma_carve_room_column_tiles(s, room, map_width, map_height, x, (n - 1) as nat);
    }
}

/// Whether no cell of the room has its tile at position `i`.
pub open spec fn misses_room(room: Rect, map_width: int, i: int) -> bool {
    forall|x: int, y: int| #[trigger] room.contains(x, y) ==> tile_index(x, y, map_width) != i
}

/// The cells of the first `m` columns are dug out once those columns are.
proof fn lemma_carve_room_columns_interior(
    s: Seq<Tile>,
    room: Rect,
    map_width: int,
    map_height: int,
    m: nat,
)
    ensures
        forall|x: int, y: int|
            room.x <= x < room.x + m && room.y <= y < room.y + room.h && #[trigger] has_tile(
                s,
                map_width,
                x,
                y,
            ) ==> is_carved(carve_room_columns(s, room, map_width, map_height, m), map_width, x, y),
    decreases m,
{
    if m > 0 {
        let last = room.x + m - 1;
        let before = carve_room_columns(s, room, map_width, map_height, (m - 1) as nat);
        let after = carve_room_columns(s, room, map_width, map_height, m);
        lemma_carve_room_columns_interior(s, room, map_width, map_height, (m - 1) as nat);
        lemma_carve_room_columns_evolves(s, room, map_width, map_height, (m - 1) as nat);
        lemma_carve_room_column_tiles(before, room, map_width, map_height, last, room.h as nat);
        lemma_carve_room_column_evolves(before, room, map_width, map_height, last, room.h as nat);
        assert forall|x: int, y: int|
            room.x <= x < room.x + m && room.y <= y < room.y + room.h && #[trigger] has_tile(
                s,
                map_width,
                x,
                y,
            ) implies is_carved(after, map_width, x, y) by {
            let i = tile_index(x, y, map_width);
            assert(tile_evolves(before[i], after[i]));
            if x < last {
                assert(is_carved(before, map_width, x, y));
            }
        }
    }
}

/// Every cell of a room that has a tile is passable once the room is dug,
/// and has a class.
pub proof fn lemma_carve_room_interior(s: Seq<Tile>, room: Rect, map_width: int, map_height: int)
    ensures
        forall|x: int, y: int|
            room.contains(x, y) && #[trigger] has_tile(s, map_width, x, y) ==> is_carved(
                carve_room(s, room, map_width, map_height),
                map_width,
                x,
                y,
            ),
{
    lemma_carve_room_columns_interior(s, room, map_width, map_height, room.w as nat);
}

/// In a room that touches an edge, the cells of the first `m` columns are
/// floor once those columns are dug.
proof fn lemma_carve_room_columns_floor(
    s: Seq<Tile>,
    room: Rect,
    map_width: int,
    map_height: int,
    m: nat,
)
    requires
        !room.clear_of_edges(map_width, map_height),
    ensures
        forall|x: int, y: int|
            room.x <= x < room.x + m && room.y <= y < room.y + room.h && #[trigger] has_tile(
                s,
                map_width,
                x,
                y,
            ) ==> carve_room_columns(s, room, map_width, map_height, m)[tile_index(
                x,
                y,
                map_width,
            )].sprite_type == Some(Wall::Floor),
    decreases m,
{
    if m > 0 {
        let last = room.x + m - 1;
        let before = carve_room_columns(s, room, map_width, map_height, (m - 1) as nat);
        let after = carve_room_columns(s, room, map_width, map_height, m);
        lemma_carve_room_columns_floor(s, room, map_width, map_height, (m - 1) as nat);
        lemma_carve_room_columns_evolves(s, room, map_width, map_height, (m - 1) as nat);
        lemma_carve_room_column_tiles(before, room, map_width, map_height, last, room.h as nat);
        assert forall|x: int, y: int|
            room.x <= x < room.x + m && room.y <= y < room.y + room.h && #[trigger] has_tile(
                s,
                map_width,
                x,
                y,
            ) implies after[tile_index(x, y, map_width)].sprite_type == Some(Wall::Floor) by {
            let i = tile_index(x, y, map_width);
            assert(after[i] == before[i] || after[i].sprite_type == Some(Wall::Floor));
        }
    }
}

/// A room that touches an edge of the grid gets no walls: once it is dug,
/// every one of its cells that has a tile is floor.
pub proof fn lemma_room_at_edge_is_floor(s: Seq<Tile>, room: Rect, map_width: int, map_height: int)
    requires
        !room.clear_of_edges(map_width, map_height),
    ensures
        forall|x: int, y: int|
            room.contains(x, y) && #[trigger] has_tile(s, map_width, x, y) ==> carve_room(
                s,
                room,
                map_width,
                map_height,
            )[tile_index(x, y, map_width)] == s[tile_index(x, y, map_width)].carved(Wall::Floor),
{
    lemma_carve_room_columns_floor(s, room, map_width, map_height, room.w as nat);
    lemma_carve_room_interior(s, room, map_width, map_height);
    lemma_carve_room_evolves(s, room, map_width, map_height);
    let after = carve_room(s, room, map_width, map_height);
    assert forall|x: int, y: int|
        room.contains(x, y) && #[trigger] has_tile(s, map_width, x, y) implies after[tile_index(
            x,
            y,
            map_width,
        )] == s[tile_index(x, y, map_width)].carved(Wall::Floor) by {
        let i = tile_index(x, y, map_width);
        assert(is_carved(after, map_width, x, y));
        assert(tile_evolves(s[i], after[i]));
    }
}

/// In a room no higher than the stride, the cells of the first `m` columns
/// end exactly as they were dug.
proof fn lemma_carve_room_columns_tiles(
    s: Seq<Tile>,
    room: Rect,
    map_width: int,
    map_height: int,
    m: nat,
)
    requires
        room.h <= map_width,
        m <= room.w,
    ensures
        carve_room_columns(s, room, map_width, map_height, m).len() == s.len(),
        forall|x: int, y: int|
            room.x <= x < room.x + m && room.y <= y < room.y + room.h && #[trigger] has_tile(
                s,
                map_width,
                x,
                y,
            ) ==> carve_room_columns(s, room, map_width, map_height, m)[tile_index(
                x,
                y,
                map_width,
            )] == s[tile_index(x, y, map_width)].carved(
                room_wall(room, map_width, map_height, x, y),
            ),
    decreases m,
{
    if m > 0 {
        let last = room.x + m - 1;
        let before = carve_room_columns(s, room, map_width, map_height, (m - 1) as nat);
        let after = carve_room_columns(s, room, map_width, map_height, m);
        lemma_carve_room_columns_tiles(s, room, map_width, map_height, (m - 1) as nat);
        lemma_carve_room_column_tiles(before, room, map_width, map_height, last, room.h as nat);
        assert forall|x: int, y: int|
            room.x <= x < room.x + m && room.y <= y < room.y + room.h && #[trigger] has_tile(
                s,
                map_width,
                x,
                y,
            ) implies after[tile_index(x, y, map_width)] == s[tile_index(x, y, map_width)].carved(
            room_wall(room, map_width, map_height, x, y),
        ) by {
            let i = tile_index(x, y, map_width);
            if x < last {
                // An earlier column lies at least one stride below the last one.
                assert((x - last) * map_width <= -map_width) by (nonlinear_arith)
                    requires
                        x - last <= -1,
                        map_width >= 0,
                ;
                assert(x * map_width - last * map_width == (x - last) * map_width)
                    by (nonlinear_arith);
                assert(i - last * map_width < room.y);
            } else {
                // No earlier column reaches up to this one.
                assert forall|x0: int, y0: int| #[trigger]
                    room.contains(x0, y0) && x0 < room.x + (m - 1) implies tile_index(
                    x0,
                    y0,
                    map_width,
                ) != i by {
                    assert((x0 - last) * map_width <= -map_width) by (nonlinear_arith)
                        requires
                            x0 - last <= -1,
                            map_width >= 0,
                    ;
                    assert(x0 * map_width - last * map_width == (x0 - last) * map_width)
                        by (nonlinear_arith);
                }
                lemma_carve_room_columns_misses(s, room, map_width, map_height, (m - 1) as nat, i);
            }
        }
    }
}

/// Whether none of the first `m` columns of the room has a cell whose tile
/// is at position `i`.
spec fn misses_columns(room: Rect, map_width: int, m: nat, i: int) -> bool {
    forall|x: int, y: int| #[trigger]
        room.contains(x, y) && x < room.x + m ==> tile_index(x, y, map_width) != i
}

/// A tile that no cell of the first `m` columns stands on is left alone by them.
proof fn lemma_carve_room_columns_misses(
    s: Seq<Tile>,
    room: Rect,
    map_width: int,
    map_height: int,
    m: nat,
    i: int,
)
    requires
        0 <= i < s.len(),
        m <= room.w,
        misses_columns(room, map_width, m, i),
    ensures
        carve_room_columns(s, room, map_width, map_height, m).len() == s.len(),
        carve_room_columns(s, room, map_width, map_height, m)[i] == s[i],
    decreases m,
{
    if m > 0 {
        let last = room.x + m - 1;
        let before = carve_room_columns(s, room, map_width, map_height, (m - 1) as nat);
        lemma_carve_room_columns_misses(s, room, map_width, map_height, (m - 1) as nat, i);
        lemma_carve_room_column_tiles(before, room, map_width, map_height, last, room.h as nat);
        if room.y <= i - last * map_width < room.y + room.h {
            assert(room.contains(last, i - last * map_width));
        }
    }
}

/// Digging out a room changes no tile but those of its cells.
pub proof fn lemma_carve_room_elsewhere(
    s: Seq<Tile>,
    room: Rect,
    map_width: int,
    map_height: int,
    i: int,
)
    requires
        0 <= i < s.len(),
        misses_room(room, map_width, i),
    ensures
        carve_room(s, room, map_width, map_height)[i] == s[i],
{
    assert forall|x: int, y: int| #[trigger]
        room.contains(x, y) && x < room.x + room.w implies tile_index(x, y, map_width) != i by {}
    lemma_carve_room_columns_misses(s, room, map_width, map_height, room.w as nat, i);
}

/// The tiles of a room that is no higher than the grid's stride.
///
/// In such a room no two cells share a tile, so every cell that has a tile
/// ends exactly as it was dug: passable, with the class `room_wall` gives it,
/// and with the coordinates it had.
pub proof fn lemma_carve_room_cells(s: Seq<Tile>, room: Rect, map_width: int, map_height: int)
    requires
        room.h <= map_width,
    ensures
        carve_room(s, room, map_width, map_height).len() == s.len(),
        forall|x: int, y: int|
            room.contains(x, y) && #[trigger] has_tile(s, map_width, x, y) ==> carve_room(
                s,
                room,
                map_width,
                map_height,
            )[tile_index(x, y, map_width)] == s[tile_index(x, y, map_width)].carved(
                room_wall(room, map_width, map_height, x, y),
            ),
{
    lemma_carve_room_columns_tiles(s, room, map_width, map_height, room.w as nat);
}

/// Whether two tiles were written alike: both were left alone, or both were
/// dug out and given the same class.
pub open spec fn same_write(a1: Tile, b1: Tile, a2: Tile, b2: Tile) -> bool {
    ||| (b1 == a1 && b2 == a2)
    ||| (b1.sprite_type matches Some(wall) && b1 == a1.carved(wall) && b2 == a2.carved(wall))
}

/// The first `m` columns write alike into two grids of one length.
proof fn lemma_carve_room_columns_blind(
    s1: Seq<Tile>,
    s2: Seq<Tile>,
    room: Rect,
    map_width: int,
    map_height: int,
    m: nat,
)
    requires
        s1.len() == s2.len(),
    ensures
        carve_room_columns(s1, room, map_width, map_height, m).len() == s1.len(),
        carve_room_columns(s2, room, map_width, map_height, m).len() == s1.len(),
        forall|i: int|
            0 <= i < s1.len() ==> same_write(
                s1[i],
                #[trigger] carve_room_columns(s1, room, map_width, map_height, m)[i],
                s2[i],
                carve_room_columns(s2, room, map_width, map_height, m)[i],
            ),
    decreases m,
{
    if m > 0 {
        let last = room.x + m - 1;
        let before1 = carve_room_columns(s1, room, map_width, map_height, (m - 1) as nat);
        let before2 = carve_room_columns(s2, room, map_width, map_height, (m - 1) as nat);
        let after1 = carve_room_columns(s1, room, map_width, map_height, m);
        let after2 = carve_room_columns(s2, room, map_width, map_height, m);
        lemma_carve_room_columns_blind(s1, s2, room, map_width, map_height, (m - 1) as nat);
        lemma_carve_room_column_tiles(before1, room, map_width, map_height, last, room.h as nat);
        lemma_carve_room_column_tiles(before2, room, map_width, map_height, last, room.h as nat);
        assert forall|i: int| 0 <= i < s1.len() implies same_write(
            s1[i],
            #[trigger] after1[i],
            s2[i],
            after2[i],
        ) by {
            assert(same_write(s1[i], before1[i], s2[i], before2[i]));
        }
    }
}

/// What a room writes does not depend on what the grid holds: dug into two
/// grids of one length, it leaves the same tiles alone in both, and digs the
/// others out with the same class in both.
pub proof fn lemma_carve_room_blind(
    s1: Seq<Tile>,
    s2: Seq<Tile>,
    room: Rect,
    map_width: int,
    map_height: int,
)
    requires
        s1.len() == s2.len(),
    ensures
        carve_room(s1, room, map_width, map_height).len() == s1.len(),
        carve_room(s2, room, map_width, map_height).len() == s1.len(),
        forall|i: int|
            0 <= i < s1.len() ==> same_write(
                s1[i],
                #[trigger] carve_room(s1, room, map_width, map_height)[i],
                s2[i],
                carve_room(s2, room, map_width, map_height)[i],
            ),
{
    lemma_carve_room_columns_blind(s1, s2, room, map_width, map_height, room.w as nat);
}

/// Digging the same room a second time changes nothing.
pub proof fn lemma_carve_room_idempotent(s: Seq<Tile>, room: Rect, map_width: int, map_height: int)
    ensures
        carve_room(carve_room(s, room, map_width, map_height), room, map_width, map_height)
            == carve_room(s, room, map_width, map_height),
{
    let once = carve_room(s, room, map_width, map_height);
    let twice = carve_room(once, room, map_width, map_height);
    lemma_carve_room_evolves(s, room, map_width, map_height);
    lemma_carve_room_blind(s, once, room, map_width, map_height);
    assert forall|i: int| 0 <= i < once.len() implies twice[i] == once[i] by {
        assert(same_write(s[i], once[i], once[i], twice[i]));
    }
    assert(twice =~= once);
}

/// Once a cell of a column has no tile, none of the cells above it has one,
/// and the rest of the column changes nothing.
proof fn lemma_column_rest_is_idle(
    s: Seq<Tile>,
    room: Rect,
    map_width: int,
    map_height: int,
    x: int,
    n0: nat,
    n: nat,
)
    requires
        0 <= x,
        n0 <= n,
        tile_index(x, room.y + n0, map_width) >= s.len(),
    ensures
        carve_room_column(s, room, map_width, map_height, x, n) == carve_room_column(
            s,
            room,
            map_width,
            map_height,
            x,
            n0,
        ),
    decreases n,
{
    if n > n0 {
        lemma_column_rest_is_idle(s, room, map_width, map_height, x, n0, (n - 1) as nat);
        lemma_carve_room_column_tiles(s, room, map_width, map_height, x, n0);
    }
}

/// Once the first cell of a column has no tile, no cell of that column or of
/// a later one has, and the rest of the room changes nothing.
proof fn lemma_columns_rest_is_idle(
    s: Seq<Tile>,
    room: Rect,
    map_width: int,
    map_height: int,
    m0: nat,
    m: nat,
)
    requires
        0 <= map_width,
        m0 <= m,
        tile_index(room.x + m0, room.y as int, map_width) >= s.len(),
    ensures
        carve_room_columns(s, room, map_width, map_height, m) == carve_room_columns(
            s,
            room,
            map_width,
            map_height,
            m0,
        ),
    decreases m,
{
    if m > m0 {
        let last = room.x + m - 1;
        let before = carve_room_columns(s, room, map_width, map_height, (m - 1) as nat);
        lemma_columns_rest_is_idle(s, room, map_width, map_height, m0, (m - 1) as nat);
        lemma_carve_room_columns_evolves(s, room, map_width, map_height, m0);
        assert((room.x + m0) * map_width <= last * map_width) by (nonlinear_arith)
            requires
                room.x + m0 <= last,
                0 <= map_width,
        ;
        lemma_column_rest_is_idle(before, room, map_width, map_height, last, 0, room.h as nat);
    }
}

/// The class of one cell of a room, found by the two tests that the rows and
/// the columns each get, the columns last.
fn room_wall_at(room: &Rect, map_width: u32, map_height: u32, x: u64, y: u64) -> (wall: Wall)
    requires
        x <= COORD_LIMIT,
        y <= COORD_LIMIT,
    ensures
        wall == room_wall(*room, map_width as int, map_height as int, x as int, y as int),
{
    let x_end: u64 = room.x as u64 + room.w as u64;
    let y_end: u64 = room.y as u64 + room.h as u64;
    let mut wall = Wall::Floor;
    if x_end < map_width as u64 && room.x > 0 && room.y > 0 && y_end < map_height as u64 {
        if y + 1 == y_end {
            wall = Wall::Top;
        } else if y == room.y as u64 {
            wall = Wall::Bottom;
        }
        if x + 1 == x_end {
            wall = Wall::Right;
        } else if x == room.x as u64 {
            wall = Wall::Left;
        }
    }
    wall
}

/// Digs the room into the grid.
///
/// Every cell of the room that has a tile becomes passable and gets its
/// class; nothing else changes. The part of a room that lies beyond the end
/// of the vector is passed over.
pub fn create_new_room(tiles: &mut Vec<Tile>, room: &Rect, map_width: u32, map_height: u32)
    ensures
        final(tiles)@ == carve_room(old(tiles)@, *room, map_width as int, map_height as int),
        grid_evolves(old(tiles)@, final(tiles)@),
{
    let ghost initial = tiles@;
    let len = tiles.len();
    let x_end: u64 = room.x as u64 + room.w as u64;
    let y_end: u64 = room.y as u64 + room.h as u64;
    let mut x: u64 = room.x as u64;
    let mut more_columns = x < x_end && in_grid(len, map_width, x, room.y as u64);
    while more_columns
        invariant
            room.x <= x <= x_end,
            x_end == room.x + room.w,
            y_end == room.y + room.h,
            len == initial.len(),
            tiles@ == carve_room_columns(
                initial,
                *room,
                map_width as int,
                map_height as int,
                (x - room.x) as nat,
            ),
            more_columns == (x < x_end && tile_index(
                x as int,
                room.y as int,
                map_width as int,
            ) < len),
        decreases x_end - x,
    {
        let ghost column_start = tiles@;
        proof {
            lemma_carve_room_columns_evolves(
                initial,
                *room,
                map_width as int,
                map_height as int,
                (x - room.x) as nat,
            );
        }
        let mut y: u64 = room.y as u64;
        let mut more_rows = y < y_end && in_grid(len, map_width, x, y);
        while more_rows
            invariant
                room.y <= y <= y_end,
                x < x_end,
                x_end == room.x + room.w,
                y_end == room.y + room.h,
                len == column_start.len(),
                tiles@ == carve_room_column(
                    column_start,
                    *room,
                    map_width as int,
                    map_height as int,
                    x as int,
                    (y - room.y) as nat,
                ),
                more_rows == (y < y_end && tile_index(x as int, y as int, map_width as int) < len),
            decreases y_end - y,
        {
            let wall = room_wall_at(room, map_width, map_height, x, y);
            carve_tile(tiles, map_width, x, y, wall);
            y += 1;
            more_rows = y < y_end && in_grid(len, map_width, x, y);
        }
        proof {
            if y < y_end {
                lemma_column_rest_is_idle(
                    column_start,
                    *room,
                    map_width as int,
                    map_height as int,
                    x as int,
                    (y - room.y) as nat,
                    room.h as nat,
                );
            }
        }
        x += 1;
        more_columns = x < x_end && in_grid(len, map_width, x, room.y as u64);
    }
    proof {
        if x < x_end {
            lemma_columns_rest_is_idle(
                initial,
                *room,
                map_width as int,
                map_height as int,
                (x - room.x) as nat,
                room.w as nat,
            );
        }
        lemma_carve_room_evolves(initial, *room, map_width as int, map_height as int);
    }
}

/// Whether the candidate overlaps or touches one of the rooms.
pub open spec fn hits_any(rooms: Seq<Rect>, candidate: Rect) -> bool {
    exists|i: int| 0 <= i < rooms.len() && candidate.intersects(#[trigger] rooms[i])
}

/// Whether no two of the rooms overlap or touch.
pub open spec fn rooms_apart(rooms: Seq<Rect>) -> bool {
    forall|i: int, j: int|
        0 <= i < j < rooms.len() ==> !(#[trigger] rooms[i]).intersects(#[trigger] rooms[j])
}

/// Whether the candidate overlaps or touches one of the rooms.
fn intersects_any(rooms: &Vec<Rect>, candidate: &Rect) -> (hit: bool)
    ensures
        hit == hits_any(rooms@, *candidate),
{
    let mut i: usize = 0;
    while i < rooms.len()
        invariant
            i <= rooms.len(),
            forall|k: int| 0 <= k < i ==> !candidate.intersects(#[trigger] rooms@[k]),
        decreases rooms.len() - i,
    {
        if candidate.intersects_with(&rooms[i]) {
            return true;
        }
        i += 1;
    }
    false
}

/// Offers a candidate room.
///
/// The candidate is accepted when it keeps clear of every room accepted
/// before it. An accepted room is dug into the grid and added at the end of
/// the list; a rejected one changes nothing.
pub fn place_room(
    tiles: &mut Vec<Tile>,
    rooms: &mut Vec<Rect>,
    candidate: Rect,
    map_width: u32,
    map_height: u32,
) -> (accepted: bool)
    ensures
        accepted == !hits_any(old(rooms)@, candidate),
        accepted ==> final(rooms)@ == old(rooms)@.push(candidate) && final(tiles)@ == carve_room(
            old(tiles)@,
            candidate,
            map_width as int,
            map_height as int,
        ),
        !accepted ==> final(rooms)@ == old(rooms)@ && final(tiles)@ == old(tiles)@,
        rooms_apart(old(rooms)@) ==> rooms_apart(final(rooms)@),
        grid_evolves(old(tiles)@, final(tiles)@),
{
    if intersects_any(rooms, &candidate) {
        false
    } else {
        create_new_room(tiles, &candidate, map_width, map_height);
        rooms.push(candidate);
        true
    }
}

} // verus!
