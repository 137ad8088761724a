//! The grid: a flat vector of tiles, and the one rule that says where the
//! tile of a cell lives in it.
//!
//! The tile of the cell `(x, y)` is the one at position `x * map_width + y`.
//! A cell whose position is not below the vector's length has no tile, and
//! every operation leaves the grid as it is when asked to touch such a cell.
//! Where two cells share a position they share a tile, and the later write
//! stands.

use vstd::prelude::*;
use crate::tile::{Tile, Wall};

verus! {

/// The largest coordinate that an operation may probe. The far edge of a room
/// and the neighbours of its cells lie below it, whatever the room.
pub(crate) const COORD_LIMIT: u64 = 0x2_0000_0000;

/// The position in the flat vector of the tile of the cell `(x, y)`.
pub open spec fn tile_index(x: int, y: int, map_width: int) -> int {
    x * map_width + y
}

/// Whether the cell `(x, y)` has a tile in a grid of this length.
pub open spec fn has_tile(s: Seq<Tile>, map_width: int, x: int, y: int) -> bool {
    0 <= x && 0 <= y && 0 <= tile_index(x, y, map_width) < s.len()
}

/// Which classes a tile gives up when a corridor is dug beside it.
#[derive(Debug, Clone, Copy, PartialEq, Eq, Structural)]
pub enum Overwrite {
    /// Only a tile that has no class yet.
    Unclassified,
    /// Also a left or a right wall.
    Sides,
    /// Also a left, a right or a bottom wall.
    SidesAndBottom,
}

impl Overwrite {
    /// Whether a tile of class `class` takes the new class. A top wall and
    /// floor never do.
    pub open spec fn covers(self, class: Option<Wall>) -> bool {
        match class {
            None => true,
            Some(Wall::Left) | Some(Wall::Right) => self != Overwrite::Unclassified,
            Some(Wall::Bottom) => self == Overwrite::SidesAndBottom,
            Some(Wall::Top) | Some(Wall::Floor) => false,
        }
    }

    pub(crate) fn permits(&self, class: &Option<Wall>) -> (r: bool)
        ensures
            r == self.covers(*class),
    {
        match class {
            None => true,
            Some(Wall::Left) | Some(Wall::Right) => match self {
                Overwrite::Unclassified => false,
                _ => true,
            },
            Some(Wall::Bottom) => match self {
                Overwrite::SidesAndBottom => true,
                _ => false,
            },
            Some(Wall::Top) | Some(Wall::Floor) => false,
        }
    }
}

/// The grid after the cell `(x, y)` is dug out and given the class `wall`.
pub open spec fn carve_at(s: Seq<Tile>, map_width: int, x: int, y: int, wall: Wall) -> Seq<Tile> {
    if has_tile(s, map_width, x, y) {
        let i = tile_index(x, y, map_width);
        s.update(i, s[i].carved(wall))
    } else {
        s
    }
}

/// The tile after it is offered the class `wall`: it takes the class if its
/// present one gives way under `rule`, and stays as it is otherwise. Whether
/// it is passable does not change.
pub open spec fn refaced(tile: Tile, rule: Overwrite, wall: Wall) -> Tile {
    if rule.covers(tile.sprite_type) {
        tile.faced(wall)
    } else {
        tile
    }
}

/// The grid after the cell `(x, y)` is offered the class `wall` under `rule`.
pub open spec fn reface_at(
    s: Seq<Tile>,
    map_width: int,
    x: int,
    y: int,
    rule: Overwrite,
    wall: Wall,
) -> Seq<Tile> {
    if has_tile(s, map_width, x, y) {
        let i = tile_index(x, y, map_width);
        s.update(i, refaced(s[i], rule, wall))
    } else {
        s
    }
}

/// Whether the tile of the cell `(x, y)` is dug out: passable and with a class.
pub open spec fn is_carved(s: Seq<Tile>, map_width: int, x: int, y: int) -> bool {
    s[tile_index(x, y, map_width)].empty && s[tile_index(x, y, map_width)].sprite_type is Some
}

/// A tile may change from `a` to `b`: either it stays as it is, or it ends
/// with a class, keeps its coordinates, and stays passable if it was.
pub open spec fn tile_evolves(a: Tile, b: Tile) -> bool {
    b == a || (b.x == a.x && b.y == a.y && (a.empty ==> b.empty) && b.sprite_type is Some)
}

/// A grid may change from `s` to `t`: the length stays, and every tile
/// changes as `tile_evolves` allows. So a passable tile stays passable, a
/// class is never taken away, and a tile without a class is untouched.
pub open spec fn grid_evolves(s: Seq<Tile>, t: Seq<Tile>) -> bool {
    &&& s.len() == t.len()
    &&& forall|i: int|
        #![trigger s[i]]
        #![trigger t[i]]
        0 <= i < s.len() ==> tile_evolves(s[i], t[i])
}

/// Whether the tile of the cell `(x, y)` is open floor: passable and with
/// the class of floor.
pub open spec fn is_floor(s: Seq<Tile>, map_width: int, x: int, y: int) -> bool {
    s[tile_index(x, y, map_width)].empty && s[tile_index(x, y, map_width)].sprite_type == Some(
        Wall::Floor,
    )
}

/// A tile that is open floor in `a` is the same in `b`.
pub open spec fn floor_stays(a: Tile, b: Tile) -> bool {
    a.empty && a.sprite_type == Some(Wall::Floor) ==> b == a
}

/// A grid may change from `s` to `t` while corridors are dug: as
/// `grid_evolves` allows, and no tile that is open floor changes at all.
pub open spec fn grid_tunnels(s: Seq<Tile>, t: Seq<Tile>) -> bool {
    &&& grid_evolves(s, t)
    &&& forall|i: int|
        #![trigger s[i]]
        #![trigger t[i]]
        0 <= i < s.len() ==> floor_stays(s[i], t[i])
}

/// Every tile without a class is solid rock.
pub open spec fn unclassified_is_solid(s: Seq<Tile>) -> bool {
    forall|i: int| 0 <= i < s.len() ==> ((#[trigger] s[i]).sprite_type is None ==> !s[i].empty)
}

/// Two changes that are each allowed are allowed together.
pub proof fn lemma_evolves_transitive(s: Seq<Tile>, t: Seq<Tile>, u: Seq<Tile>)
    requires
        grid_evolves(s, t),
        grid_evolves(t, u),
    ensures
        grid_evolves(s, u),
{
    assert forall|i: int| 0 <= i < s.len() implies tile_evolves(s[i], u[i]) by {
        assert(tile_evolves(s[i], t[i]));
        assert(tile_evolves(t[i], u[i]));
    }
}

/// While a grid evolves, no passable tile appears without a class.
pub proof fn lemma_evolves_keeps_solid(s: Seq<Tile>, t: Seq<Tile>)
    requires
        grid_evolves(s, t),
        unclassified_is_solid(s),
    ensures
        unclassified_is_solid(t),
{
    assert forall|i: int| 0 <= i < t.len() && (#[trigger] t[i]).sprite_type is None implies !t[i].empty by {
        assert(tile_evolves(s[i], t[i]));
    }
}

/// Digging out a cell is an allowed change.
pub proof fn lemma_carve_at_evolves(s: Seq<Tile>, map_width: int, x: int, y: int, wall: Wall)
    ensures
        grid_evolves(s, carve_at(s, map_width, x, y, wall)),
{
}

/// Giving a cell a new class is an allowed change.
pub proof fn lemma_reface_at_evolves(
    s: Seq<Tile>,
    map_width: int,
    x: int,
    y: int,
    rule: Overwrite,
    wall: Wall,
)
    ensures
        grid_evolves(s, reface_at(s, map_width, x, y, rule, wall)),
{
}

/// Two changes that corridors may each make, they may make together.
pub proof fn lemma_tunnels_transitive(s: Seq<Tile>, t: Seq<Tile>, u: Seq<Tile>)
    requires
        grid_tunnels(s, t),
        grid_tunnels(t, u),
    ensures
        grid_tunnels(s, u),
{
    lemma_evolves_transitive(s, t, u);
    assert forall|i: int| 0 <= i < s.len() implies floor_stays(s[i], u[i]) by {
        assert(floor_stays(s[i], t[i]));
        assert(floor_stays(t[i], u[i]));
    }
}

/// Digging out a cell as floor is a change that corridors may make.
pub proof fn lemma_carve_floor_tunnels(s: Seq<Tile>, map_width: int, x: int, y: int)
    ensures
        grid_tunnels(s, carve_at(s, map_width, x, y, Wall::Floor)),
{
}

/// Offering a cell a class is a change that corridors may make: floor never
/// gives way.
pub proof fn lemma_reface_at_tunnels(
    s: Seq<Tile>,
    map_width: int,
    x: int,
    y: int,
    rule: Overwrite,
    wall: Wall,
)
    ensures
        grid_tunnels(s, reface_at(s, map_width, x, y, rule, wall)),
{
}

/// The position of a cell, computed without overflow.
fn flat_index(x: u64, y: u64, map_width: u32) -> (i: u128)
    requires
        x <= COORD_LIMIT,
        y <= COORD_LIMIT,
    ensures
        i == tile_index(x as int, y as int, map_width as int),
{
    assert(x * map_width <= 0x2_0000_0000 * 0x1_0000_0000) by (nonlinear_arith)
        requires
            x <= 0x2_0000_0000,
            map_width <= 0x1_0000_0000,
    ;
    x as u128 * map_width as u128 + y as u128
}

/// The position in the flat vector of the tile of the cell `(x, y)`:
/// `x * map_width + y`.
pub fn tile_position(x: u32, y: u32, map_width: u32) -> (i: u64)
    ensures
        i == tile_index(x as int, y as int, map_width as int),
{
    assert(x * map_width <= 0xffff_ffff * 0xffff_ffff) by (nonlinear_arith)
        requires
            x <= 0xffff_ffff,
            map_width <= 0xffff_ffff,
    ;
    flat_index(x as u64, y as u64, map_width) as u64
}

/// Where the tile of the cell `(x, y)` is in a vector of length `len`, if it has one.
pub(crate) fn locate(len: usize, map_width: u32, x: u64, y: u64) -> (r: Option<usize>)
    requires
        x <= COORD_LIMIT,
        y <= COORD_LIMIT,
    ensures
        r is Some ==> r->0 < len && r->0 == tile_index(x as int, y as int, map_width as int),
        r is None ==> tile_index(x as int, y as int, map_width as int) >= len,
{
    let i = flat_index(x, y, map_width);
    if i < len as u128 {
        Some(i as usize)
    } else {
        None
    }
}

/// Whether the cell `(x, y)` has a tile in a vector of length `len`.
pub(crate) fn in_grid(len: usize, map_width: u32, x: u64, y: u64) -> (r: bool)
    requires
        x <= COORD_LIMIT,
        y <= COORD_LIMIT,
    ensures
        r == (tile_index(x as int, y as int, map_width as int) < len),
{
    match locate(len, map_width, x, y) {
        Some(_) => true,
        None => false,
    }
}

/// The tile of the cell `(x, y)`, or `None` where the cell has none.
pub fn tile_at(tiles: &Vec<Tile>, map_width: u32, x: u32, y: u32) -> (r: Option<Tile>)
    ensures
        r == (if has_tile(tiles@, map_width as int, x as int, y as int) {
            Some(tiles@[tile_index(x as int, y as int, map_width as int)])
        } else {
            None
        }),
{
    assert(0 <= x * map_width) by (nonlinear_arith)
        requires
            0 <= x,
            0 <= map_width,
    ;
    match locate(tiles.len(), map_width, x as u64, y as u64) {
        Some(i) => Some(tiles[i]),
        None => None,
    }
}

/// Digs out the cell `(x, y)` and gives it the class `wall`, if it has a tile.
pub(crate) fn carve_tile(tiles: &mut Vec<Tile>, map_width: u32, x: u64, y: u64, wall: Wall)
    requires
        x <= COORD_LIMIT,
        y <= COORD_LIMIT,
    ensures
        final(tiles)@ == carve_at(old(tiles)@, map_width as int, x as int, y as int, wall),
{
    match locate(tiles.len(), map_width, x, y) {
        Some(i) => {
            tiles[i].floor();
            tiles[i].wall(wall);
        },
        None => {},
    }
}

/// Gives the cell `(x, y)` the class `wall`, if it has a tile whose class
/// gives way under `rule`.
pub(crate) fn reface_tile(
    tiles: &mut Vec<Tile>,
    map_width: u32,
    x: u64,
    y: u64,
    rule: Overwrite,
    wall: Wall,
)
    requires
        x <= COORD_LIMIT,
        y <= COORD_LIMIT,
    ensures
        final(tiles)@ == reface_at(old(tiles)@, map_width as int, x as int, y as int, rule, wall),
{
    match locate(tiles.len(), map_width, x, y) {
        Some(i) => {
            if rule.permits(&tiles[i].sprite_type) {
                tiles[i].wall(wall);
            }
            assert(tiles@ =~= old(tiles)@.update(i as int, refaced(old(tiles)@[i as int], rule, wall)));
        },
        None => {},
    }
}

} // verus!
