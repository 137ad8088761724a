//! Corridors: straight tunnels along a row or a column, and the L-shaped
//! path of two tunnels that joins the centres of two rooms.
//!
//! A tunnel digs its cells out as floor, one after the other, and after each
//! cell gives the cells beside it a wall where their class gives way. A top
//! wall and floor never give way, so a tunnel that passes a room or crosses
//! another tunnel leaves their floor open.

use vstd::prelude::*;
use crate::geometry::Point;
use crate::grid::{
    carve_at, carve_tile, grid_tunnels, has_tile, in_grid, is_floor, lemma_carve_floor_tunnels,
    lemma_reface_at_tunnels, lemma_tunnels_transitive, reface_at, reface_tile, refaced,
    tile_evolves, tile_index, Overwrite,
};
use crate::tile::{Tile, Wall};

verus! {

/// The smaller of two coordinates.
pub open spec fn lower(a: int, b: int) -> int {
    if a <= b {
        a
    } else {
        b
    }
}

/// The distance between two coordinates.
pub open spec fn span(a: int, b: int) -> nat {
    if a <= b {
        (b - a) as nat
    } else {
        (a - b) as nat
    }
}

/// The grid after one cell of a tunnel along the row `y` is dug.
///
/// The cell `(x, y)` becomes floor. At the first cell of the tunnel only, the
/// cell to the right and then the cell to the left become a top wall if they
/// have no class yet. Then the cell above becomes a top wall and the cell
/// below a bottom wall, unless they are a top wall or floor already.
pub open spec fn h_tunnel_step(s: Seq<Tile>, map_width: int, x: int, y: int, first: bool) -> Seq<
    Tile,
> {
    let dug = carve_at(s, map_width, x, y, Wall::Floor);
    let east = if first {
        reface_at(dug, map_width, x + 1, y, Overwrite::Unclassified, Wall::Top)
    } else {
        dug
    };
    let west = if first {
        reface_at(east, map_width, x - 1, y, Overwrite::Unclassified, Wall::Top)
    } else {
        east
    };
    let north = reface_at(west, map_width, x, y + 1, Overwrite::SidesAndBottom, Wall::Top);
    reface_at(north, map_width, x, y - 1, Overwrite::SidesAndBottom, Wall::Bottom)
}

/// The grid after the first `n` cells of a tunnel along the row `y` are dug,
/// from the column `start` onwards.
pub open spec fn h_tunnel_cells(s: Seq<Tile>, map_width: int, start: int, y: int, n: nat) -> Seq<
    Tile,
>
    decreases n,
{
    if n == 0 {
        s
    } else {
        h_tunnel_step(
            h_tunnel_cells(s, map_width, start, y, (n - 1) as nat),
            map_width,
            start + n - 1,
            y,
            n == 1,
        )
    }
}

/// The grid after a tunnel is dug along the row `y` between the columns `x1`
/// and `x2`: from the smaller of the two up to, but not including, the larger.
pub open spec fn h_tunnel(s: Seq<Tile>, map_width: int, x1: int, x2: int, y: int) -> Seq<Tile> {
    h_tunnel_cells(s, map_width, lower(x1, x2), y, span(x1, x2))
}

/// The grid after one cell of a tunnel along the column `x` is dug.
///
/// The cell `(x, y)` becomes floor. Then the cell to the right becomes a
/// right wall and the cell to the left a left wall, if they have no class or
/// are a left or right wall already.
pub open spec fn v_tunnel_step(s: Seq<Tile>, map_width: int, x: int, y: int) -> Seq<Tile> {
    let dug = carve_at(s, map_width, x, y, Wall::Floor);
    let east = reface_at(dug, map_width, x + 1, y, Overwrite::Sides, Wall::Right);
    reface_at(east, map_width, x - 1, y, Overwrite::Sides, Wall::Left)
}

/// The grid after the first `n` cells of a tunnel along the column `x` are
/// dug, from the row `start` upwards.
pub open spec fn v_tunnel_cells(s: Seq<Tile>, map_width: int, start: int, x: int, n: nat) -> Seq<
    Tile,
>
    decreases n,
{
    if n == 0 {
        s
    } else {
        v_tunnel_step(
            v_tunnel_cells(s, map_width, start, x, (n - 1) as nat),
            map_width,
            x,
            start + n - 1,
        )
    }
}

/// The grid after a tunnel is dug along the column `x` between the rows `y1`
/// and `y2`: from the smaller of the two up to, but not including, the larger.
pub open spec fn v_tunnel(s: Seq<Tile>, map_width: int, y1: int, y2: int, x: int) -> Seq<Tile> {
    v_tunnel_cells(s, map_width, lower(y1, y2), x, span(y1, y2))
}

/// The grid after the L-shaped corridor between two room centres is dug.
///
/// With `horizontal_first`, a tunnel runs along the row of `next` between
/// the two columns, then one along the column of `current` between the two
/// rows. Otherwise a tunnel runs along the column of `next` between the two
/// rows, then one along the row of `current` between the two columns.
pub open spec fn corridor(
    s: Seq<Tile>,
    map_width: int,
    current: Point,
    next: Point,
    horizontal_first: bool,
) -> Seq<Tile> {
    if horizontal_first {
        v_tunnel(
            h_tunnel(s, map_width, next.x as int, current.x as int, next.y as int),
            map_width,
            next.y as int,
            current.y as int,
            current.x as int,
        )
    } else {
        h_tunnel(
            v_tunnel(s, map_width, next.y as int, current.y as int, next.x as int),
            map_width,
            next.x as int,
            current.x as int,
            current.y as int,
        )
    }
}

/// One cell of a tunnel along a row is a change that corridors may make, and
/// leaves the cell itself open floor.
pub proof fn lemma_h_tunnel_step(s: Seq<Tile>, map_width: int, x: int, y: int, first: bool)
    ensures
        grid_tunnels(s, h_tunnel_step(s, map_width, x, y, first)),
        has_tile(s, map_width, x, y) ==> is_floor(
            h_tunnel_step(s, map_width, x, y, first),
            map_width,
            x,
            y,
        ),
{
    let dug = carve_at(s, map_width, x, y, Wall::Floor);
    let east = if first {
        reface_at(dug, map_width, x + 1, y, Overwrite::Unclassified, Wall::Top)
    } else {
        dug
    };
    let west = if first {
        reface_at(east, map_width, x - 1, y, Overwrite::Unclassified, Wall::Top)
    } else {
        east
    };
    let north = reface_at(west, map_width, x, y + 1, Overwrite::SidesAndBottom, Wall::Top);
    let south = reface_at(north, map_width, x, y - 1, Overwrite::SidesAndBottom, Wall::Bottom);
    lemma_carve_floor_tunnels(s, map_width, x, y);
    lemma_reface_at_tunnels(dug, map_width, x + 1, y, Overwrite::Unclassified, Wall::Top);
    lemma_reface_at_tunnels(east, map_width, x - 1, y, Overwrite::Unclassified, Wall::Top);
    lemma_reface_at_tunnels(west, map_width, x, y + 1, Overwrite::SidesAndBottom, Wall::Top);
    lemma_reface_at_tunnels(north, map_width, x, y - 1, Overwrite::SidesAndBottom, Wall::Bottom);
    lemma_tunnels_transitive(s, dug, east);
    lemma_tunnels_transitive(s, east, west);
    lemma_tunnels_transitive(s, west, north);
    lemma_tunnels_transitive(s, north, south);
    if has_tile(s, map_width, x, y) {
        let i = tile_index(x, y, map_width);
        lemma_tunnels_transitive(dug, east, west);
        lemma_tunnels_transitive(dug, west, north);
        lemma_tunnels_transitive(dug, north, south);
        assert(tile_evolves(dug[i], south[i]));
    }
}

/// One cell of a tunnel along a column is a change that corridors may make, and
/// leaves the cell itself open floor.
pub proof fn lemma_v_tunnel_step(s: Seq<Tile>, map_width: int, x: int, y: int)
    ensures
        grid_tunnels(s, v_tunnel_step(s, map_width, x, y)),
        has_tile(s, map_width, x, y) ==> is_floor(
            v_tunnel_step(s, map_width, x, y),
            map_width,
            x,
            y,
        ),
{
    let dug = carve_at(s, map_width, x, y, Wall::Floor);
    let east = reface_at(dug, map_width, x + 1, y, Overwrite::Sides, Wall::Right);
    let west = reface_at(east, map_width, x - 1, y, Overwrite::Sides, Wall::Left);
    lemma_carve_floor_tunnels(s, map_width, x, y);
    lemma_reface_at_tunnels(dug, map_width, x + 1, y, Overwrite::Sides, Wall::Right);
    lemma_reface_at_tunnels(east, map_width, x - 1, y, Overwrite::Sides, Wall::Left);
    lemma_tunnels_transitive(s, dug, east);
    lemma_tunnels_transitive(s, east, west);
    if has_tile(s, map_width, x, y) {
        let i = tile_index(x, y, map_width);
        lemma_tunnels_transitive(dug, east, west);
        assert(tile_evolves(dug[i], west[i]));
    }
}

/// Part of a tunnel along a row is a change that corridors may make, and
/// every cell of it that has a tile is left open floor.
pub proof fn lemma_h_tunnel_cells(s: Seq<Tile>, map_width: int, start: int, y: int, n: nat)
    ensures
        grid_tunnels(s, h_tunnel_cells(s, map_width, start, y, n)),
        forall|x: int|
            start <= x < start + n && #[trigger] has_tile(s, map_width, x, y) ==> is_floor(
                h_tunnel_cells(s, map_width, start, y, n),
                map_width,
                x,
                y,
            ),
    decreases n,
{
    if n > 0 {
        let last = start + n - 1;
        let before = h_tunnel_cells(s, map_width, start, y, (n - 1) as nat);
        let after = h_tunnel_cells(s, map_width, start, y, n);
        lemma_h_tunnel_cells(s, map_width, start, y, (n - 1) as nat);
        lemma_h_tunnel_step(before, map_width, last, y, n == 1);
        lemma_tunnels_transitive(s, before, after);
        assert forall|x: int|
            start <= x < start + n && #[trigger] has_tile(s, map_width, x, y) implies is_floor(
            after,
            map_width,
            x,
            y,
        ) by {
            let i = tile_index(x, y, map_width);
            assert(tile_evolves(before[i], after[i]));
            if x < last {
                assert(is_floor(before, map_width, x, y));
            } else {
                assert(has_tile(before, map_width, x, y));
            }
        }
    }
}

/// Part of a tunnel along a column is a change that corridors may make,
/// and every cell of it that has a tile is left open floor.
pub proof fn lemma_v_tunnel_cells(s: Seq<Tile>, map_width: int, start: int, x: int, n: nat)
    ensures
        grid_tunnels(s, v_tunnel_cells(s, map_width, start, x, n)),
        forall|y: int|
            start <= y < start + n && #[trigger] has_tile(s, map_width, x, y) ==> is_floor(
                v_tunnel_cells(s, map_width, start, x, n),
                map_width,
                x,
                y,
            ),
    decreases n,
{
    if n > 0 {
        let last = start + n - 1;
        let before = v_tunnel_cells(s, map_width, start, x, (n - 1) as nat);
        let after = v_tunnel_cells(s, map_width, start, x, n);
        lemma_v_tunnel_cells(s, map_width, start, x, (n - 1) as nat);
        lemma_v_tunnel_step(before, map_width, x, last);
        lemma_tunnels_transitive(s, before, after);
        assert forall|y: int|
            start <= y < start + n && #[trigger] has_tile(s, map_width, x, y) implies is_floor(
            after,
            map_width,
            x,
            y,
        ) by {
            let i = tile_index(x, y, map_width);
            assert(tile_evolves(before[i], after[i]));
            if y < last {
                assert(is_floor(before, map_width, x, y));
            } else {
                assert(has_tile(before, map_width, x, y));
            }
        }
    }
}

/// What part of a tunnel along a column does to each tile, where the part
/// is no longer than the grid's stride.
///
/// The cells of the tunnel stand at consecutive positions, those to their
/// right one stride above and those to their left one stride below; with no
/// more cells than the stride, no position is written twice. So the tile at
/// position `i` is dug out as floor if it is a cell of the tunnel, is offered
/// a right wall if it is the cell to the right of one, a left wall if it is
/// the cell to the left of one, and is left alone otherwise.
pub proof fn lemma_v_tunnel_tiles(s: Seq<Tile>, map_width: int, start: int, x: int, n: nat)
    requires
        0 <= x,
        0 <= start,
        n <= map_width,
    ensures
        v_tunnel_cells(s, map_width, start, x, n).len() == s.len(),
        forall|i: int|
            0 <= i < s.len() ==> #[trigger] v_tunnel_cells(s, map_width, start, x, n)[i] == (
            if start <= i - x * map_width < start + n {
                s[i].carved(Wall::Floor)
            } else if start <= i - (x + 1) * map_width < start + n {
                refaced(s[i], Overwrite::Sides, Wall::Right)
            } else if start <= i - (x - 1) * map_width < start + n && x >= 1 {
                refaced(s[i], Overwrite::Sides, Wall::Left)
            } else {
                s[i]
            }),
    decreases n,
{
    if n > 0 {
        lemma_v_tunnel_tiles(s, map_width, start, x, (n - 1) as nat);
        assert((x + 1) * map_width == x * map_width + map_width) by (nonlinear_arith);
        assert((x - 1) * map_width == x * map_width - map_width) by (nonlinear_arith);
        assert(0 <= x * map_width) by (nonlinear_arith)
            requires
                0 <= x,
                0 <= map_width,
        ;
    }
}

/// A later column lies a whole stride or more above an earlier one.
proof fn lemma_stride(a: int, b: int, map_width: int)
    by (nonlinear_arith)
    requires
        a < b,
        0 <= map_width,
    ensures
        a * map_width + map_width <= b * map_width,
{
}

/// What one cell of a tunnel along a row does to each tile, in a grid whose
/// stride is three or more, so that the five cells are five tiles.
proof fn lemma_h_tunnel_step_tiles(s: Seq<Tile>, map_width: int, x: int, y: int, first: bool)
    requires
        0 <= x,
        0 <= y,
        3 <= map_width,
    ensures
        h_tunnel_step(s, map_width, x, y, first).len() == s.len(),
        forall|i: int|
            0 <= i < s.len() ==> #[trigger] h_tunnel_step(s, map_width, x, y, first)[i] == (
            if i == x * map_width + y {
                s[i].carved(Wall::Floor)
            } else if i == x * map_width + y + 1 {
                refaced(s[i], Overwrite::SidesAndBottom, Wall::Top)
            } else if i == x * map_width + y - 1 && y >= 1 {
                refaced(s[i], Overwrite::SidesAndBottom, Wall::Bottom)
            } else if first && i == x * map_width + y + map_width {
                refaced(s[i], Overwrite::Unclassified, Wall::Top)
            } else if first && i == x * map_width + y - map_width && x >= 1 {
                refaced(s[i], Overwrite::Unclassified, Wall::Top)
            } else {
                s[i]
            }),
{
    assert((x + 1) * map_width == x * map_width + map_width) by (nonlinear_arith);
    assert((x - 1) * map_width == x * map_width - map_width) by (nonlinear_arith);
    assert(0 <= x * map_width) by (nonlinear_arith)
        requires
            0 <= x,
            0 <= map_width,
    ;
}

/// Whether the tile at position `i` is none of those that the first `n`
/// cells of a tunnel along the row `y` write: not a cell of the tunnel, not
/// the cell above or below one, not the cell before the first, and, for a
/// tunnel of one cell, not the cell after it.
pub open spec fn misses_h_tunnel(map_width: int, start: int, y: int, n: nat, i: int) -> bool {
    &&& forall|x: int|
        start <= x < start + n ==> {
            &&& i != #[trigger] tile_index(x, y, map_width)
            &&& i != tile_index(x, y, map_width) + 1
            &&& (y >= 1 ==> i != tile_index(x, y, map_width) - 1)
        }
    &&& (n >= 1 && start >= 1 ==> i != tile_index(start - 1, y, map_width))
    &&& (n == 1 ==> i != tile_index(start + 1, y, map_width))
}

/// What part of a tunnel along a row does to each tile, in a grid whose
/// stride is three or more.
///
/// In such a grid no two of the cells that the tunnel writes share a tile,
/// but for the cell after the first one, which is offered a top wall and, in
/// a longer tunnel, dug out next. So every cell of the tunnel ends as floor;
/// the cell above each is offered a top wall and the cell below each a
/// bottom wall; the cell before the first is offered a top wall if it has no
/// class, and so is the cell after a tunnel of one cell; no other tile changes.
pub proof fn lemma_h_tunnel_tiles(s: Seq<Tile>, map_width: int, start: int, y: int, n: nat)
    requires
        0 <= start,
        0 <= y,
        3 <= map_width,
    ensures
        h_tunnel_cells(s, map_width, start, y, n).len() == s.len(),
        forall|x: int|
            start <= x < start + n && #[trigger] has_tile(s, map_width, x, y) ==> h_tunnel_cells(
                s,
                map_width,
                start,
                y,
                n,
            )[tile_index(x, y, map_width)] == s[tile_index(x, y, map_width)].carved(Wall::Floor),
        forall|x: int|
            start <= x < start + n && #[trigger] has_tile(s, map_width, x, y + 1)
                ==> h_tunnel_cells(s, map_width, start, y, n)[tile_index(x, y + 1, map_width)]
                == refaced(
                s[tile_index(x, y + 1, map_width)],
                Overwrite::SidesAndBottom,
                Wall::Top,
            ),
        forall|x: int|
            start <= x < start + n && #[trigger] has_tile(s, map_width, x, y - 1)
                ==> h_tunnel_cells(s, map_width, start, y, n)[tile_index(x, y - 1, map_width)]
                == refaced(
                s[tile_index(x, y - 1, map_width)],
                Overwrite::SidesAndBottom,
                Wall::Bottom,
            ),
        n >= 1 && has_tile(s, map_width, start - 1, y) ==> h_tunnel_cells(
            s,
            map_width,
            start,
            y,
            n,
        )[tile_index(start - 1, y, map_width)] == refaced(
            s[tile_index(start - 1, y, map_width)],
            Overwrite::Unclassified,
            Wall::Top,
        ),
        n == 1 && has_tile(s, map_width, start + 1, y) ==> h_tunnel_cells(
            s,
            map_width,
            start,
            y,
            n,
        )[tile_index(start + 1, y, map_width)] == refaced(
            s[tile_index(start + 1, y, map_width)],
            Overwrite::Unclassified,
            Wall::Top,
        ),
        forall|i: int|
            0 <= i < s.len() && misses_h_tunnel(map_width, start, y, n, i)
                ==> #[trigger] h_tunnel_cells(s, map_width, start, y, n)[i] == s[i],
    decreases n,
{
    if n > 0 {
        let last = start + n - 1;
        let at = last * map_width + y;
        let before = h_tunnel_cells(s, map_width, start, y, (n - 1) as nat);
        let after = h_tunnel_cells(s, map_width, start, y, n);
        lemma_h_tunnel_tiles(s, map_width, start, y, (n - 1) as nat);
        lemma_h_tunnel_step_tiles(before, map_width, last, y, n == 1);
        assert((last + 1) * map_width == last * map_width + map_width) by (nonlinear_arith);
        assert((last - 1) * map_width == last * map_width - map_width) by (nonlinear_arith);
        assert(0 <= start * map_width) by (nonlinear_arith)
            requires
                0 <= start,
                0 <= map_width,
        ;
        if start < last {
            lemma_stride(start, last, map_width);
        }
        lemma_stride(start - 1, last, map_width);
        // What the tiles around the last cell held before it was dug.
        assert(misses_h_tunnel(map_width, start, y, (n - 1) as nat, at + 1)) by {
            assert forall|x: int| start <= x < last implies {
                &&& at + 1 != #[trigger] tile_index(x, y, map_width)
                &&& at + 1 != tile_index(x, y, map_width) + 1
                &&& (y >= 1 ==> at + 1 != tile_index(x, y, map_width) - 1)
            } by {
                lemma_stride(x, last, map_width);
            }
        }
        assert(misses_h_tunnel(map_width, start, y, (n - 1) as nat, at - 1)) by {
            assert forall|x: int| start <= x < last implies {
                &&& at - 1 != #[trigger] tile_index(x, y, map_width)
                &&& at - 1 != tile_index(x, y, map_width) + 1
                &&& (y >= 1 ==> at - 1 != tile_index(x, y, map_width) - 1)
            } by {
                lemma_stride(x, last, map_width);
            }
        }
        if n != 2 {
            assert(misses_h_tunnel(map_width, start, y, (n - 1) as nat, at)) by {
                assert forall|x: int| start <= x < last implies {
                    &&& at != #[trigger] tile_index(x, y, map_width)
                    &&& at != tile_index(x, y, map_width) + 1
                    &&& (y >= 1 ==> at != tile_index(x, y, map_width) - 1)
                } by {
                    lemma_stride(x, last, map_width);
                }
            }
        } else {
            assert(has_tile(s, map_width, last, y) ==> has_tile(s, map_width, start + 1, y));
        }
        assert forall|x: int|
            start <= x < start + n && #[trigger] has_tile(s, map_width, x, y) implies after[tile_index(
            x,
            y,
            map_width,
        )] == s[tile_index(x, y, map_width)].carved(Wall::Floor) by {
            if x < last {
                lemma_stride(x, last, map_width);
            }
        }
        assert forall|x: int|
            start <= x < start + n && #[trigger] has_tile(
                s,
                map_width,
                x,
                y + 1,
            ) implies after[tile_index(x, y + 1, map_width)] == refaced(
            s[tile_index(x, y + 1, map_width)],
            Overwrite::SidesAndBottom,
            Wall::Top,
        ) by {
            if x < last {
                lemma_stride(x, last, map_width);
            }
        }
        assert forall|x: int|
            start <= x < start + n && #[trigger] has_tile(
                s,
                map_width,
                x,
                y - 1,
            ) implies after[tile_index(x, y - 1, map_width)] == refaced(
            s[tile_index(x, y - 1, map_width)],
            Overwrite::SidesAndBottom,
            Wall::Bottom,
        ) by {
            if x < last {
                lemma_stride(x, last, map_width);
            }
        }
        assert forall|i: int|
            0 <= i < s.len() && misses_h_tunnel(
                map_width,
                start,
                y,
                n,
                i,
            ) implies #[trigger] after[i] == s[i] by {
            assert(i != tile_index(last, y, map_width));
            assert(i != tile_index(start, y, map_width));
            assert(misses_h_tunnel(map_width, start, y, (n - 1) as nat, i)) by {
                if n == 2 {
                    assert(i != tile_index(start + 1, y, map_width));
                }
            }
        }
    }
}

/// Whether the coordinate `at` lies on a tunnel between `a` and `b`: from the
/// smaller of the two up to, but not including, the larger.
pub open spec fn on_tunnel(a: int, b: int, at: int) -> bool {
    lower(a, b) <= at < lower(a, b) + span(a, b)
}

/// A tunnel along a row is a change that corridors may make, and every cell
/// of it that has a tile is left open floor.
pub proof fn lemma_h_tunnel(s: Seq<Tile>, map_width: int, x1: int, x2: int, y: int)
    ensures
        grid_tunnels(s, h_tunnel(s, map_width, x1, x2, y)),
        forall|x: int|
            on_tunnel(x1, x2, x) && #[trigger] has_tile(s, map_width, x, y) ==> is_floor(
                h_tunnel(s, map_width, x1, x2, y),
                map_width,
                x,
                y,
            ),
{
    lemma_h_tunnel_cells(s, map_width, lower(x1, x2), y, span(x1, x2));
}

/// A tunnel along a column is a change that corridors may make, and every
/// cell of it that has a tile is left open floor.
pub proof fn lemma_v_tunnel(s: Seq<Tile>, map_width: int, y1: int, y2: int, x: int)
    ensures
        grid_tunnels(s, v_tunnel(s, map_width, y1, y2, x)),
        forall|y: int|
            on_tunnel(y1, y2, y) && #[trigger] has_tile(s, map_width, x, y) ==> is_floor(
                v_tunnel(s, map_width, y1, y2, x),
                map_width,
                x,
                y,
            ),
{
    lemma_v_tunnel_cells(s, map_width, lower(y1, y2), x, span(y1, y2));
}

/// One cell of a tunnel along a row leaves alone every tile that is not one
/// of the five it writes.
proof fn lemma_h_tunnel_step_elsewhere(
    s: Seq<Tile>,
    map_width: int,
    x: int,
    y: int,
    first: bool,
    i: int,
)
    requires
        0 <= i < s.len(),
        i != tile_index(x, y, map_width),
        i != tile_index(x, y, map_width) + 1,
        y >= 1 ==> i != tile_index(x, y, map_width) - 1,
        first ==> i != tile_index(x + 1, y, map_width),
        first && x >= 1 ==> i != tile_index(x - 1, y, map_width),
    ensures
        h_tunnel_step(s, map_width, x, y, first).len() == s.len(),
        h_tunnel_step(s, map_width, x, y, first)[i] == s[i],
{
}

/// A tunnel along a row changes no tile but those that `misses_h_tunnel`
/// leaves out, whatever the stride.
pub proof fn lemma_h_tunnel_elsewhere(
    s: Seq<Tile>,
    map_width: int,
    start: int,
    y: int,
    n: nat,
    i: int,
)
    requires
        0 <= i < s.len(),
        misses_h_tunnel(map_width, start, y, n, i),
    ensures
        h_tunnel_cells(s, map_width, start, y, n).len() == s.len(),
        h_tunnel_cells(s, map_width, start, y, n)[i] == s[i],
    decreases n,
{
    if n > 0 {
        let last = start + n - 1;
        let before = h_tunnel_cells(s, map_width, start, y, (n - 1) as nat);
        assert(i != tile_index(last, y, map_width));
        assert(i != tile_index(start, y, map_width));
        assert(misses_h_tunnel(map_width, start, y, (n - 1) as nat, i)) by {
            if n == 2 {
                assert(i != tile_index(start + 1, y, map_width));
            }
        }
        lemma_h_tunnel_elsewhere(s, map_width, start, y, (n - 1) as nat, i);
        lemma_h_tunnel_step_elsewhere(before, map_width, last, y, n == 1, i);
    }
}

/// Whether the tile at position `i` is not that of one of the first `n`
/// cells of a tunnel along the row `y`.
pub open spec fn off_h_tunnel(map_width: int, start: int, y: int, n: nat, i: int) -> bool {
    forall|x: int| start <= x < start + n ==> i != #[trigger] tile_index(x, y, map_width)
}

/// A top wall or floor beside a tunnel along a row stays as it is: a tile
/// of either class changes only where the tunnel digs it out.
pub proof fn lemma_h_tunnel_keeps_top_and_floor(
    s: Seq<Tile>,
    map_width: int,
    start: int,
    y: int,
    n: nat,
    i: int,
)
    requires
        0 <= i < s.len(),
        off_h_tunnel(map_width, start, y, n, i),
        s[i].sprite_type == Some(Wall::Top) || s[i].sprite_type == Some(Wall::Floor),
    ensures
        h_tunnel_cells(s, map_width, start, y, n)[i] == s[i],
    decreases n,
{
    if n > 0 {
        let last = start + n - 1;
        assert(i != tile_index(last, y, map_width));
        lemma_h_tunnel_keeps_top_and_floor(s, map_width, start, y, (n - 1) as nat, i);
        lemma_h_tunnel_cells(s, map_width, start, y, (n - 1) as nat);
    }
}

/// Whether the tile at position `i` is none of those that the cell `(x, y)`
/// of a tunnel along a column writes: not that of the cell itself and not
/// that of the cell to its right or to its left.
pub open spec fn misses_v_tunnel_cell(map_width: int, x: int, y: int, i: int) -> bool {
    &&& i != tile_index(x, y, map_width)
    &&& i != tile_index(x + 1, y, map_width)
    &&& (x >= 1 ==> i != tile_index(x - 1, y, map_width))
}

/// Whether the tile at position `i` is none of those that the first `n`
/// cells of a tunnel along the column `x` write.
pub open spec fn misses_v_tunnel(map_width: int, start: int, x: int, n: nat, i: int) -> bool {
    forall|y: int| start <= y < start + n ==> #[trigger] misses_v_tunnel_cell(map_width, x, y, i)
}

/// A tunnel along a column changes no tile but those of its cells and of
/// the cells to their right and left, whatever the stride.
pub proof fn lemma_v_tunnel_elsewhere(
    s: Seq<Tile>,
    map_width: int,
    start: int,
    x: int,
    n: nat,
    i: int,
)
    requires
        0 <= i < s.len(),
        misses_v_tunnel(map_width, start, x, n, i),
    ensures
        v_tunnel_cells(s, map_width, start, x, n).len() == s.len(),
        v_tunnel_cells(s, map_width, start, x, n)[i] == s[i],
    decreases n,
{
    if n > 0 {
        let last = start + n - 1;
        assert(misses_v_tunnel_cell(map_width, x, last, i));
        lemma_v_tunnel_elsewhere(s, map_width, start, x, (n - 1) as nat, i);
    }
}

/// Whether the tile at position `i` is not that of one of the first `n`
/// cells of a tunnel along the column `x`.
pub open spec fn off_v_tunnel(map_width: int, start: int, x: int, n: nat, i: int) -> bool {
    forall|y: int| start <= y < start + n ==> i != #[trigger] tile_index(x, y, map_width)
}

/// A top wall, a bottom wall or floor beside a tunnel along a column stays
/// as it is: a tile of one of these classes changes only where the tunnel
/// digs it out.
pub proof fn lemma_v_tunnel_keeps_caps_and_floor(
    s: Seq<Tile>,
    map_width: int,
    start: int,
    x: int,
    n: nat,
    i: int,
)
    requires
        0 <= i < s.len(),
        off_v_tunnel(map_width, start, x, n, i),
        s[i].sprite_type == Some(Wall::Top) || s[i].sprite_type == Some(Wall::Bottom)
            || s[i].sprite_type == Some(Wall::Floor),
    ensures
        v_tunnel_cells(s, map_width, start, x, n)[i] == s[i],
    decreases n,
{
    if n > 0 {
        let last = start + n - 1;
        assert(i != tile_index(x, last, map_width));
        lemma_v_tunnel_keeps_caps_and_floor(s, map_width, start, x, (n - 1) as nat, i);
        lemma_v_tunnel_cells(s, map_width, start, x, (n - 1) as nat);
    }
}

/// One cell of a tunnel makes no tile passable but its own.
proof fn lemma_tunnel_step_digs_only_cell(s: Seq<Tile>, map_width: int, x: int, y: int, i: int)
    requires
        0 <= i < s.len(),
        i != tile_index(x, y, map_width),
    ensures
        forall|first: bool|
            (#[trigger] h_tunnel_step(s, map_width, x, y, first)).len() == s.len()
                && h_tunnel_step(s, map_width, x, y, first)[i].empty == s[i].empty,
        v_tunnel_step(s, map_width, x, y).len() == s.len(),
        v_tunnel_step(s, map_width, x, y)[i].empty == s[i].empty,
{
    let dug = carve_at(s, map_width, x, y, Wall::Floor);
    assert(dug.len() == s.len() && dug[i] == s[i]);
    let east = reface_at(dug, map_width, x + 1, y, Overwrite::Sides, Wall::Right);
    assert(east.len() == s.len() && east[i].empty == s[i].empty);
    assert forall|first: bool|
        (#[trigger] h_tunnel_step(s, map_width, x, y, first)).len() == s.len() && h_tunnel_step(
            s,
            map_width,
            x,
            y,
            first,
        )[i].empty == s[i].empty by {
        let east = if first {
            reface_at(dug, map_width, x + 1, y, Overwrite::Unclassified, Wall::Top)
        } else {
            dug
        };
        assert(east.len() == s.len() && east[i].empty == s[i].empty);
        let west = if first {
            reface_at(east, map_width, x - 1, y, Overwrite::Unclassified, Wall::Top)
        } else {
            east
        };
        assert(west.len() == s.len() && west[i].empty == s[i].empty);
        let north = reface_at(west, map_width, x, y + 1, Overwrite::SidesAndBottom, Wall::Top);
        assert(north.len() == s.len() && north[i].empty == s[i].empty);
    }
}

/// A tunnel along a row makes no tile passable but those of its cells.
pub proof fn lemma_h_tunnel_digs_only_cells(
    s: Seq<Tile>,
    map_width: int,
    start: int,
    y: int,
    n: nat,
    i: int,
)
    requires
        0 <= i < s.len(),
        off_h_tunnel(map_width, start, y, n, i),
    ensures
        h_tunnel_cells(s, map_width, start, y, n).len() == s.len(),
        h_tunnel_cells(s, map_width, start, y, n)[i].empty == s[i].empty,
    decreases n,
{
    if n > 0 {
        let last = start + n - 1;
        let before = h_tunnel_cells(s, map_width, start, y, (n - 1) as nat);
        assert(i != tile_index(last, y, map_width));
        lemma_h_tunnel_digs_only_cells(s, map_width, start, y, (n - 1) as nat, i);
        lemma_tunnel_step_digs_only_cell(before, map_width, last, y, i);
    }
}

/// A tunnel along a column makes no tile passable but those of its cells.
pub proof fn lemma_v_tunnel_digs_only_cells(
    s: Seq<Tile>,
    map_width: int,
    start: int,
    x: int,
    n: nat,
    i: int,
)
    requires
        0 <= i < s.len(),
        off_v_tunnel(map_width, start, x, n, i),
    ensures
        v_tunnel_cells(s, map_width, start, x, n).len() == s.len(),
        v_tunnel_cells(s, map_width, start, x, n)[i].empty == s[i].empty,
    decreases n,
{
    if n > 0 {
        let last = start + n - 1;
        let before = v_tunnel_cells(s, map_width, start, x, (n - 1) as nat);
        assert(i != tile_index(x, last, map_width));
        lemma_v_tunnel_digs_only_cells(s, map_width, start, x, (n - 1) as nat, i);
        lemma_tunnel_step_digs_only_cell(before, map_width, x, last, i);
    }
}

/// The lowest row that a cell of a tunnel along the row `y` writes to.
pub open spec fn row_below(y: int) -> int {
    if y >= 1 {
        y - 1
    } else {
        y
    }
}

/// Once the lowest cell that a later cell of a tunnel along a row writes to
/// has no tile, the rest of the tunnel changes nothing.
proof fn lemma_h_tunnel_rest_is_idle(
    s: Seq<Tile>,
    map_width: int,
    start: int,
    y: int,
    n0: nat,
    n: nat,
)
    requires
        0 <= start,
        0 <= y,
        0 <= map_width,
        1 <= n0 <= n,
        tile_index(start + n0, row_below(y), map_width) >= s.len(),
    ensures
        h_tunnel_cells(s, map_width, start, y, n) == h_tunnel_cells(s, map_width, start, y, n0),
    decreases n,
{
    if n > n0 {
        let last = start + n - 1;
        lemma_h_tunnel_rest_is_idle(s, map_width, start, y, n0, (n - 1) as nat);
        lemma_h_tunnel_cells(s, map_width, start, y, n0);
        assert((start + n0) * map_width <= last * map_width) by (nonlinear_arith)
            requires
                start + n0 <= last,
                0 <= map_width,
        ;
    }
}

/// The leftmost column that a cell of a tunnel along the column `x` writes to.
pub open spec fn column_before(x: int) -> int {
    if x >= 1 {
        x - 1
    } else {
        x
    }
}

/// Once the leftmost cell that a cell of a tunnel along a column writes to
/// has no tile, the rest of the tunnel changes nothing.
proof fn lemma_v_tunnel_rest_is_idle(
    s: Seq<Tile>,
    map_width: int,
    start: int,
    x: int,
    n0: nat,
    n: nat,
)
    requires
        0 <= start,
        0 <= x,
        0 <= map_width,
        n0 <= n,
        tile_index(column_before(x), start + n0, map_width) >= s.len(),
    ensures
        v_tunnel_cells(s, map_width, start, x, n) == v_tunnel_cells(s, map_width, start, x, n0),
    decreases n,
{
    if n > n0 {
        lemma_v_tunnel_rest_is_idle(s, map_width, start, x, n0, (n - 1) as nat);
        lemma_v_tunnel_cells(s, map_width, start, x, n0);
        assert((x + 1) * map_width == x * map_width + map_width) by (nonlinear_arith);
        assert((x - 1) * map_width == x * map_width - map_width) by (nonlinear_arith);
    }
}

/// A tunnel does not depend on the order in which its two ends are given.
pub proof fn lemma_tunnel_ends_swap(s: Seq<Tile>, map_width: int, a: int, b: int, at: int)
    ensures
        h_tunnel(s, map_width, a, b, at) == h_tunnel(s, map_width, b, a, at),
        v_tunnel(s, map_width, a, b, at) == v_tunnel(s, map_width, b, a, at),
{
}

/// Digs a tunnel along the row `y` between the columns `x1` and `x2`. The
/// part of a tunnel that lies beyond the end of the vector is passed over.
pub fn create_h_tunnel(tiles: &mut Vec<Tile>, map_width: u32, x1: u32, x2: u32, y: u32)
    ensures
        final(tiles)@ == h_tunnel(old(tiles)@, map_width as int, x1 as int, x2 as int, y as int),
        grid_tunnels(old(tiles)@, final(tiles)@),
        forall|x: int|
            on_tunnel(x1 as int, x2 as int, x) && #[trigger] has_tile(
                old(tiles)@,
                map_width as int,
                x,
                y as int,
            ) ==> is_floor(final(tiles)@, map_width as int, x, y as int),
{
    let ghost initial = tiles@;
    let min_x: u64 = if x1 <= x2 {
        x1 as u64
    } else {
        x2 as u64
    };
    let max_x: u64 = if x1 <= x2 {
        x2 as u64
    } else {
        x1 as u64
    };
    let len = tiles.len();
    let row: u64 = y as u64;
    let low_row: u64 = if row > 0 {
        row - 1
    } else {
        row
    };
    let mut x: u64 = min_x;
    let mut more = x < max_x;
    while more
        invariant
            min_x <= x <= max_x <= u32::MAX,
            row == y,
            low_row == row_below(y as int),
            len == initial.len(),
            min_x == lower(x1 as int, x2 as int),
            max_x - min_x == span(x1 as int, x2 as int),
            tiles@ == h_tunnel_cells(
                initial,
                map_width as int,
                min_x as int,
                y as int,
                (x - min_x) as nat,
            ),
            more == (x < max_x && (x == min_x || tile_index(
                x as int,
                low_row as int,
                map_width as int,
            ) < len)),
        decreases max_x - x,
    {
        carve_tile(tiles, map_width, x, row, Wall::Floor);
        if x == min_x {
            reface_tile(tiles, map_width, x + 1, row, Overwrite::Unclassified, Wall::Top);
            if x > 0 {
                reface_tile(tiles, map_width, x - 1, row, Overwrite::Unclassified, Wall::Top);
            }
        }
        reface_tile(tiles, map_width, x, row + 1, Overwrite::SidesAndBottom, Wall::Top);
        if row > 0 {
            reface_tile(tiles, map_width, x, row - 1, Overwrite::SidesAndBottom, Wall::Bottom);
        }
        x += 1;
        more = x < max_x && in_grid(len, map_width, x, low_row);
    }
    proof {
        if x < max_x {
            lemma_h_tunnel_rest_is_idle(
                initial,
                map_width as int,
                min_x as int,
                y as int,
                (x - min_x) as nat,
                (max_x - min_x) as nat,
            );
        }
        lemma_h_tunnel(initial, map_width as int, x1 as int, x2 as int, y as int);
    }
}

/// Digs a tunnel along the column `x` between the rows `y1` and `y2`. The
/// part of a tunnel that lies beyond the end of the vector is passed over.
pub fn create_v_tunnel(tiles: &mut Vec<Tile>, map_width: u32, y1: u32, y2: u32, x: u32)
    ensures
        final(tiles)@ == v_tunnel(old(tiles)@, map_width as int, y1 as int, y2 as int, x as int),
        grid_tunnels(old(tiles)@, final(tiles)@),
        forall|y: int|
            on_tunnel(y1 as int, y2 as int, y) && #[trigger] has_tile(
                old(tiles)@,
                map_width as int,
                x as int,
                y,
            ) ==> is_floor(final(tiles)@, map_width as int, x as int, y),
{
    let ghost initial = tiles@;
    let min_y: u64 = if y1 <= y2 {
        y1 as u64
    } else {
        y2 as u64
    };
    let max_y: u64 = if y1 <= y2 {
        y2 as u64
    } else {
        y1 as u64
    };
    let len = tiles.len();
    let column: u64 = x as u64;
    let low_column: u64 = if column > 0 {
        column - 1
    } else {
        column
    };
    let mut y: u64 = min_y;
    let mut more = y < max_y && in_grid(len, map_width, low_column, y);
    while more
        invariant
            min_y <= y <= max_y <= u32::MAX,
            column == x,
            low_column == column_before(x as int),
            len == initial.len(),
            min_y == lower(y1 as int, y2 as int),
            max_y - min_y == span(y1 as int, y2 as int),
            tiles@ == v_tunnel_cells(
                initial,
                map_width as int,
                min_y as int,
                x as int,
                (y - min_y) as nat,
            ),
            more == (y < max_y && tile_index(low_column as int, y as int, map_width as int)
                < len),
        decreases max_y - y,
    {
        carve_tile(tiles, map_width, column, y, Wall::Floor);
        reface_tile(tiles, map_width, column + 1, y, Overwrite::Sides, Wall::Right);
        if column > 0 {
            reface_tile(tiles, map_width, column - 1, y, Overwrite::Sides, Wall::Left);
        }
        y += 1;
        more = y < max_y && in_grid(len, map_width, low_column, y);
    }
    proof {
        if y < max_y {
            lemma_v_tunnel_rest_is_idle(
                initial,
                map_width as int,
                min_y as int,
                x as int,
                (y - min_y) as nat,
                (max_y - min_y) as nat,
            );
        }
        lemma_v_tunnel(initial, map_width as int, y1 as int, y2 as int, x as int);
    }
}

/// A corridor is a change that corridors may make: no tile stops being
/// passable or loses its class, and open floor stays as it is.
pub proof fn lemma_corridor_evolves(
    s: Seq<Tile>,
    map_width: int,
    current: Point,
    next: Point,
    horizontal_first: bool,
)
    ensures
        grid_tunnels(s, corridor(s, map_width, current, next, horizontal_first)),
{
    if horizontal_first {
        let first = h_tunnel(s, map_width, next.x as int, current.x as int, next.y as int);
        lemma_h_tunnel(s, map_width, next.x as int, current.x as int, next.y as int);
        lemma_v_tunnel(first, map_width, next.y as int, current.y as int, current.x as int);
        lemma_tunnels_transitive(
            s,
            first,
            corridor(s, map_width, current, next, horizontal_first),
        );
    } else {
        let first = v_tunnel(s, map_width, next.y as int, current.y as int, next.x as int);
        lemma_v_tunnel(s, map_width, next.y as int, current.y as int, next.x as int);
        lemma_h_tunnel(first, map_width, next.x as int, current.x as int, current.y as int);
        lemma_tunnels_transitive(
            s,
            first,
            corridor(s, map_width, current, next, horizontal_first),
        );
    }
}

/// Whether the cell `(x, y)` lies on one of the two tunnels of a corridor.
pub open spec fn on_corridor(
    current: Point,
    next: Point,
    horizontal_first: bool,
    x: int,
    y: int,
) -> bool {
    if horizontal_first {
        ||| (y == next.y && on_tunnel(next.x as int, current.x as int, x))
        ||| (x == current.x && on_tunnel(next.y as int, current.y as int, y))
    } else {
        ||| (x == next.x && on_tunnel(next.y as int, current.y as int, y))
        ||| (y == current.y && on_tunnel(next.x as int, current.x as int, x))
    }
}

/// Every cell of a corridor that has a tile is left open floor.
pub proof fn lemma_corridor_cells(
    s: Seq<Tile>,
    map_width: int,
    current: Point,
    next: Point,
    horizontal_first: bool,
)
    ensures
        forall|x: int, y: int|
            on_corridor(current, next, horizontal_first, x, y) && #[trigger] has_tile(
                s,
                map_width,
                x,
                y,
            ) ==> is_floor(
                corridor(s, map_width, current, next, horizontal_first),
                map_width,
                x,
                y,
            ),
{
    let done = corridor(s, map_width, current, next, horizontal_first);
    if horizontal_first {
        let first = h_tunnel(s, map_width, next.x as int, current.x as int, next.y as int);
        lemma_h_tunnel(s, map_width, next.x as int, current.x as int, next.y as int);
        lemma_v_tunnel(first, map_width, next.y as int, current.y as int, current.x as int);
        assert forall|x: int, y: int|
            on_corridor(current, next, horizontal_first, x, y) && #[trigger] has_tile(
                s,
                map_width,
                x,
                y,
            ) implies is_floor(done, map_width, x, y) by {
            let i = tile_index(x, y, map_width);
            assert(tile_evolves(first[i], done[i]));
            assert(has_tile(first, map_width, x, y));
        }
    } else {
        let first = v_tunnel(s, map_width, next.y as int, current.y as int, next.x as int);
        lemma_v_tunnel(s, map_width, next.y as int, current.y as int, next.x as int);
        lemma_h_tunnel(first, map_width, next.x as int, current.x as int, current.y as int);
        assert forall|x: int, y: int|
            on_corridor(current, next, horizontal_first, x, y) && #[trigger] has_tile(
                s,
                map_width,
                x,
                y,
            ) implies is_floor(done, map_width, x, y) by {
            let i = tile_index(x, y, map_width);
            assert(tile_evolves(first[i], done[i]));
            assert(has_tile(first, map_width, x, y));
        }
    }
}

/// Digs the L-shaped corridor that joins the centre of one room to the
/// centre of the room accepted after it.
pub fn create_corridor(
    tiles: &mut Vec<Tile>,
    map_width: u32,
    current: Point,
    next: Point,
    horizontal_first: bool,
)
    ensures
        final(tiles)@ == corridor(old(tiles)@, map_width as int, current, next, horizontal_first),
        grid_tunnels(old(tiles)@, final(tiles)@),
        forall|x: int, y: int|
            on_corridor(current, next, horizontal_first, x, y) && #[trigger] has_tile(
                old(tiles)@,
                map_width as int,
                x,
                y,
            ) ==> is_floor(final(tiles)@, map_width as int, x, y),
{
    proof {
        lemma_corridor_evolves(tiles@, map_width as int, current, next, horizontal_first);
        lemma_corridor_cells(tiles@, map_width as int, current, next, horizontal_first);
    }
    if horizontal_first {
        create_h_tunnel(tiles, map_width, next.x, current.x, next.y);
        create_v_tunnel(tiles, map_width, next.y, current.y, current.x);
    } else {
        create_v_tunnel(tiles, map_width, next.y, current.y, next.x);
        create_h_tunnel(tiles, map_width, next.x, current.x, current.y);
    }
}

} // verus!
