use dungeon_generator::generator::new_grid;
use dungeon_generator::grid::tile_position;
use dungeon_generator::room::{create_new_room, place_room};
use dungeon_generator::{Rect, Tile, Wall};

/// One line per row, from row 0; a letter for the class, a dot for none;
/// upper case where the tile is passable.
fn picture(tiles: &Vec<Tile>, map_width: u32, map_height: u32) -> Vec<String> {
    let mut rows = Vec::new();
    for y in 0..map_height {
        let mut row = String::new();
        for x in 0..map_width {
            let t = &tiles[tile_position(x, y, map_width) as usize];
            let c = match t.sprite_type {
                None => '.',
                Some(Wall::Left) => 'l',
                Some(Wall::Right) => 'r',
                Some(Wall::Top) => 't',
                Some(Wall::Bottom) => 'b',
                Some(Wall::Floor) => 'f',
            };
            row.push(if t.empty { c.to_ascii_uppercase() } else { c });
        }
        rows.push(row);
    }
    rows
}

fn same_tiles(a: &Vec<Tile>, b: &Vec<Tile>) -> bool {
    a == b
}

#[test]
fn room_in_the_middle_gets_walls_on_its_ring() {
    let mut tiles = new_grid(10, 10);
    create_new_room(&mut tiles, &Rect { x: 2, y: 2, w: 4, h: 4 }, 10, 10);
    assert_eq!(
        picture(&tiles, 10, 10),
        vec![
            "..........",
            "..........",
            "..LBBR....",
            "..LFFR....",
            "..LFFR....",
            "..LTTR....",
            "..........",
            "..........",
            "..........",
            "..........",
        ]
    );
}

#[test]
fn room_corners_are_side_walls() {
    let mut tiles = new_grid(10, 10);
    create_new_room(&mut tiles, &Rect { x: 2, y: 2, w: 4, h: 4 }, 10, 10);
    let at = |x: u32, y: u32| tiles[tile_position(x, y, 10) as usize].sprite_type;
    assert_eq!(at(2, 2), Some(Wall::Left));
    assert_eq!(at(2, 5), Some(Wall::Left));
    assert_eq!(at(5, 2), Some(Wall::Right));
    assert_eq!(at(5, 5), Some(Wall::Right));
    assert_eq!(at(3, 5), Some(Wall::Top));
    assert_eq!(at(3, 2), Some(Wall::Bottom));
    assert_eq!(at(3, 3), Some(Wall::Floor));
}

#[test]
fn room_keeps_tile_coordinates() {
    let mut tiles = new_grid(10, 10);
    create_new_room(&mut tiles, &Rect { x: 2, y: 2, w: 4, h: 4 }, 10, 10);
    for x in 0..10 {
        for y in 0..10 {
            let t = &tiles[tile_position(x, y, 10) as usize];
            assert_eq!((t.x, t.y), (x, y));
        }
    }
}

#[test]
fn room_interior_is_passable_and_the_rest_is_rock() {
    let room = Rect { x: 3, y: 1, w: 5, h: 2 };
    let mut tiles = new_grid(12, 12);
    create_new_room(&mut tiles, &room, 12, 12);
    for x in 0..12u32 {
        for y in 0..12u32 {
            let t = &tiles[tile_position(x, y, 12) as usize];
            let inside = room.x <= x && x < room.x + room.w && room.y <= y && y < room.y + room.h;
            assert_eq!(t.empty, inside);
            assert_eq!(t.sprite_type.is_some(), inside);
        }
    }
}

#[test]
fn narrow_rooms_prefer_right_and_top() {
    // One cell wide: the only column is the last one, so it is a right wall.
    let mut tiles = new_grid(8, 8);
    create_new_room(&mut tiles, &Rect { x: 2, y: 2, w: 1, h: 3 }, 8, 8);
    assert_eq!(
        picture(&tiles, 8, 8),
        vec![
            "........", "........", "..R.....", "..R.....", "..R.....", "........", "........",
            "........",
        ]
    );
    // One cell high: the only row is the last one, so it is a top wall between the sides.
    let mut tiles = new_grid(8, 8);
    create_new_room(&mut tiles, &Rect { x: 2, y: 2, w: 3, h: 1 }, 8, 8);
    assert_eq!(
        picture(&tiles, 8, 8),
        vec![
            "........", "........", "..LTR...", "........", "........", "........", "........",
            "........",
        ]
    );
}

#[test]
fn room_flush_with_the_near_edge_is_all_floor() {
    let mut tiles = new_grid(8, 8);
    create_new_room(&mut tiles, &Rect { x: 0, y: 0, w: 2, h: 2 }, 8, 8);
    assert_eq!(
        picture(&tiles, 8, 8),
        vec![
            "FF......", "FF......", "........", "........", "........", "........", "........",
            "........",
        ]
    );
    let mut tiles = new_grid(8, 8);
    create_new_room(&mut tiles, &Rect { x: 3, y: 0, w: 3, h: 3 }, 8, 8);
    assert_eq!(picture(&tiles, 8, 8)[0], "...FFF..");
    assert_eq!(picture(&tiles, 8, 8)[2], "...FFF..");
    let mut tiles = new_grid(8, 8);
    create_new_room(&mut tiles, &Rect { x: 0, y: 3, w: 3, h: 3 }, 8, 8);
    assert_eq!(picture(&tiles, 8, 8)[3], "FFF.....");
}

#[test]
fn room_flush_with_the_far_edge_is_all_floor() {
    // x + w == map_width: the margin test fails.
    let mut tiles = new_grid(8, 8);
    create_new_room(&mut tiles, &Rect { x: 5, y: 2, w: 3, h: 3 }, 8, 8);
    assert_eq!(
        picture(&tiles, 8, 8),
        vec![
            "........", "........", ".....FFF", ".....FFF", ".....FFF", "........", "........",
            "........",
        ]
    );
    // y + h == map_height: the margin test fails.
    let mut tiles = new_grid(8, 8);
    create_new_room(&mut tiles, &Rect { x: 2, y: 5, w: 3, h: 3 }, 8, 8);
    assert_eq!(
        picture(&tiles, 8, 8),
        vec![
            "........", "........", "........", "........", "........", "..FFF...", "..FFF...",
            "..FFF...",
        ]
    );
}

#[test]
fn room_one_cell_from_the_far_edge_gets_walls() {
    let mut tiles = new_grid(8, 8);
    create_new_room(&mut tiles, &Rect { x: 4, y: 4, w: 3, h: 3 }, 8, 8);
    assert_eq!(
        picture(&tiles, 8, 8),
        vec![
            "........", "........", "........", "........", "....LBR.", "....LFR.", "....LTR.",
            "........",
        ]
    );
}

#[test]
fn digging_a_room_twice_is_digging_it_once() {
    let room = Rect { x: 2, y: 2, w: 4, h: 4 };
    let mut once = new_grid(10, 10);
    create_new_room(&mut once, &room, 10, 10);
    let mut twice = new_grid(10, 10);
    create_new_room(&mut twice, &room, 10, 10);
    create_new_room(&mut twice, &room, 10, 10);
    assert!(same_tiles(&once, &twice));
}

#[test]
fn digging_a_room_twice_is_digging_it_once_where_cells_share_tiles() {
    // The room is higher than the stride, so cells of neighbouring columns share tiles.
    let room = Rect { x: 1, y: 1, w: 3, h: 6 };
    let mut once = new_grid(4, 9);
    create_new_room(&mut once, &room, 4, 9);
    let mut twice = new_grid(4, 9);
    create_new_room(&mut twice, &room, 4, 9);
    create_new_room(&mut twice, &room, 4, 9);
    assert!(same_tiles(&once, &twice));
}

#[test]
fn empty_room_changes_nothing() {
    let blank = new_grid(6, 6);
    let mut tiles = new_grid(6, 6);
    create_new_room(&mut tiles, &Rect { x: 2, y: 2, w: 0, h: 3 }, 6, 6);
    assert!(same_tiles(&blank, &tiles));
    create_new_room(&mut tiles, &Rect { x: 2, y: 2, w: 3, h: 0 }, 6, 6);
    assert!(same_tiles(&blank, &tiles));
}

#[test]
fn room_beyond_the_vector_is_passed_over() {
    let blank = new_grid(6, 6);
    let mut tiles = new_grid(6, 6);
    create_new_room(&mut tiles, &Rect { x: 6, y: 0, w: 4, h: 4 }, 6, 6);
    assert!(same_tiles(&blank, &tiles));
    create_new_room(&mut tiles, &Rect { x: u32::MAX, y: u32::MAX, w: u32::MAX, h: u32::MAX }, 6, 6);
    assert!(same_tiles(&blank, &tiles));
    // With no tiles at all there is nothing to dig.
    let mut none: Vec<Tile> = Vec::new();
    create_new_room(&mut none, &Rect { x: 0, y: 0, w: 3, h: 3 }, 0, 0);
    assert!(none.is_empty());
}

#[test]
fn room_over_the_end_of_the_vector_digs_what_has_a_tile() {
    // Positions follow x * 6 + y: a row at or beyond the stride is a row of the next column.
    let mut tiles = new_grid(6, 6);
    create_new_room(&mut tiles, &Rect { x: 4, y: 4, w: 5, h: 5 }, 6, 6);
    assert_eq!(
        picture(&tiles, 6, 6),
        vec![".....F", ".....F", ".....F", "......", "....FF", "....FF"]
    );
}

#[test]
fn first_room_is_accepted() {
    let mut tiles = new_grid(10, 10);
    let mut rooms: Vec<Rect> = Vec::new();
    let room = Rect { x: 2, y: 2, w: 4, h: 4 };
    assert!(place_room(&mut tiles, &mut rooms, room, 10, 10));
    assert_eq!(rooms, vec![room]);
    let mut expected = new_grid(10, 10);
    create_new_room(&mut expected, &room, 10, 10);
    assert!(same_tiles(&tiles, &expected));
}

#[test]
fn overlapping_room_is_rejected_and_changes_nothing() {
    let mut tiles = new_grid(12, 12);
    let mut rooms: Vec<Rect> = Vec::new();
    let first = Rect { x: 2, y: 2, w: 4, h: 4 };
    assert!(place_room(&mut tiles, &mut rooms, first, 12, 12));
    let before = tiles.clone();
    assert!(!place_room(&mut tiles, &mut rooms, Rect { x: 4, y: 4, w: 3, h: 3 }, 12, 12));
    assert_eq!(rooms, vec![first]);
    assert!(same_tiles(&tiles, &before));
}

#[test]
fn touching_room_is_rejected() {
    let mut tiles = new_grid(14, 14);
    let mut rooms: Vec<Rect> = Vec::new();
    assert!(place_room(&mut tiles, &mut rooms, Rect { x: 1, y: 1, w: 3, h: 3 }, 14, 14));
    // Its left edge is the first room's right edge.
    assert!(!place_room(&mut tiles, &mut rooms, Rect { x: 4, y: 1, w: 3, h: 3 }, 14, 14));
    // One unit further it is accepted.
    assert!(place_room(&mut tiles, &mut rooms, Rect { x: 5, y: 1, w: 3, h: 3 }, 14, 14));
    assert_eq!(rooms.len(), 2);
}

#[test]
fn accepted_rooms_stay_in_order_and_apart() {
    let mut tiles = new_grid(20, 20);
    let mut rooms: Vec<Rect> = Vec::new();
    let offers = [
        Rect { x: 1, y: 1, w: 3, h: 3 },
        Rect { x: 10, y: 10, w: 4, h: 4 },
        Rect { x: 2, y: 3, w: 3, h: 3 },
        Rect { x: 1, y: 10, w: 2, h: 5 },
        Rect { x: 12, y: 12, w: 1, h: 1 },
        Rect { x: 8, y: 1, w: 5, h: 2 },
    ];
    let mut accepted = Vec::new();
    for r in offers.iter() {
        accepted.push(place_room(&mut tiles, &mut rooms, *r, 20, 20));
    }
    assert_eq!(accepted, vec![true, true, false, true, false, true]);
    assert_eq!(rooms, vec![offers[0], offers[1], offers[3], offers[5]]);
    for i in 0..rooms.len() {
        for j in 0..rooms.len() {
            if i != j {
                assert!(!rooms[i].intersects_with(&rooms[j]));
            }
        }
    }
}
