use dungeon_generator::generator::{
    corner_limits, create_map, create_map_from, dig_dungeon, draw_candidate, draw_count, generate,
    new_grid, next_step, offer_room, Dungeon, MapError, Progress, RoomConfig,
};
use dungeon_generator::grid::{tile_at, tile_position};
use dungeon_generator::room::create_new_room;
use dungeon_generator::tunnel::create_corridor;
use dungeon_generator::{Rect, Tile, Wall};
use rand::rngs::StdRng;
use rand::SeedableRng;

fn config(min_rooms: u32, max_rooms: u32, min_room_size: u32, max_room_size: u32) -> RoomConfig {
    RoomConfig { max_room_size, min_room_size, max_rooms, min_rooms }
}

fn equal_tiles(a: &Vec<Tile>, b: &Vec<Tile>) -> bool {
    a == b
}

fn seeded(seed: u64, width: u32, height: u32, tile: u32, c: &RoomConfig) -> Result<Dungeon, MapError> {
    let mut rng = StdRng::seed_from_u64(seed);
    generate(width, height, tile, c, 10_000, &mut rng)
}

/// Checks all that is promised of a dungeon, whatever was drawn.
fn check_dungeon(d: &Dungeon, width: u32, height: u32, tile: u32, c: &RoomConfig) {
    let (w, h) = (width / tile, height / tile);
    assert_eq!((d.map_width, d.map_height), (w, h));
    assert_eq!(d.tiles.len() as u64, w as u64 * h as u64);
    // The number of rooms, their sizes and their margins.
    assert!(c.min_rooms as usize <= d.rooms.len() && d.rooms.len() <= c.max_rooms as usize);
    for r in d.rooms.iter() {
        assert!(c.min_room_size <= r.w && r.w <= c.max_room_size);
        assert!(c.min_room_size <= r.h && r.h <= c.max_room_size);
        assert!(1 <= r.x && r.x + r.w + 3 < w);
        assert!(1 <= r.y && r.y + r.h + 3 < h);
    }
    // No two rooms overlap or touch.
    for i in 0..d.rooms.len() {
        for j in 0..d.rooms.len() {
            if i != j {
                assert!(!d.rooms[i].intersects_with(&d.rooms[j]));
            }
        }
    }
    // One corridor from each room to the next.
    assert_eq!(d.elbows.len(), d.rooms.len().saturating_sub(1));
    // The tiles are those of the rooms and corridors, dug in order into a blank grid.
    let mut again = new_grid(w, h);
    for r in d.rooms.iter() {
        create_new_room(&mut again, r, w, h);
    }
    for k in 0..d.elbows.len() {
        create_corridor(&mut again, w, d.rooms[k].center(), d.rooms[k + 1].center(), d.elbows[k]);
    }
    assert!(equal_tiles(&d.tiles, &again));
    // Room cells that have a tile are passable; a tile without a class is rock.
    for r in d.rooms.iter() {
        for x in r.x..r.x + r.w {
            for y in r.y..r.y + r.h {
                let t = tile_at(&d.tiles, w, x, y).unwrap();
                assert!(t.empty && t.sprite_type.is_some());
            }
        }
    }
    for t in d.tiles.iter() {
        if t.sprite_type.is_none() {
            assert!(!t.empty);
        }
    }
}

#[test]
fn blank_grid_is_rock_column_after_column() {
    let tiles = new_grid(3, 2);
    assert_eq!(tiles.len(), 6);
    let coords: Vec<(u32, u32)> = tiles.iter().map(|t| (t.x, t.y)).collect();
    assert_eq!(coords, vec![(0, 0), (0, 1), (1, 0), (1, 1), (2, 0), (2, 1)]);
    assert!(tiles.iter().all(|t| !t.empty && t.sprite_type.is_none()));
}

#[test]
fn blank_grid_without_cells() {
    assert!(new_grid(0, 0).is_empty());
    assert!(new_grid(0, 5).is_empty());
    assert!(new_grid(5, 0).is_empty());
}

#[test]
fn square_grid_holds_each_tile_at_its_position() {
    let tiles = new_grid(7, 7);
    for x in 0..7 {
        for y in 0..7 {
            let t = &tiles[tile_position(x, y, 7) as usize];
            assert_eq!((t.x, t.y), (x, y));
        }
    }
}

#[test]
fn tile_position_is_column_times_width_plus_row() {
    assert_eq!(tile_position(0, 0, 10), 0);
    assert_eq!(tile_position(0, 9, 10), 9);
    assert_eq!(tile_position(1, 0, 10), 10);
    assert_eq!(tile_position(3, 4, 10), 34);
    assert_eq!(tile_position(4, 3, 10), 43);
    assert_eq!(tile_position(2, 5, 0), 5);
    assert_eq!(
        tile_position(u32::MAX, u32::MAX, u32::MAX),
        u32::MAX as u64 * u32::MAX as u64 + u32::MAX as u64
    );
}

#[test]
fn tile_size_zero_is_invalid() {
    let c = config(1, 1, 2, 3);
    assert_eq!(seeded(1, 100, 100, 0, &c).err(), Some(MapError::InvalidConfig));
    assert_eq!(create_map(&100, &100, &0, &c).err(), Some(MapError::InvalidConfig));
}

#[test]
fn reversed_limits_are_invalid() {
    assert_eq!(seeded(1, 400, 400, 10, &config(3, 2, 2, 3)).err(), Some(MapError::InvalidConfig));
    assert_eq!(seeded(1, 400, 400, 10, &config(1, 2, 4, 3)).err(), Some(MapError::InvalidConfig));
    assert_eq!(create_map(&400, &400, &10, &config(3, 2, 2, 3)).err(), Some(MapError::InvalidConfig));
}

#[test]
fn uncountable_number_of_rooms_is_invalid() {
    let c = config(1, u32::MAX, 2, 3);
    assert_eq!(seeded(1, 400, 400, 10, &c).err(), Some(MapError::InvalidConfig));
}

#[test]
fn room_too_large_for_the_grid_is_invalid() {
    // 10 by 10 tiles: a room of 6 leaves no place between the margins, one of 5 leaves one.
    assert_eq!(seeded(1, 100, 100, 10, &config(1, 1, 2, 6)).err(), Some(MapError::InvalidConfig));
    assert!(seeded(1, 100, 100, 10, &config(1, 1, 2, 5)).is_ok());
    // The height decides as the width does.
    assert_eq!(seeded(1, 100, 400, 10, &config(1, 1, 2, 6)).err(), Some(MapError::InvalidConfig));
    assert!(seeded(1, 110, 400, 10, &config(1, 1, 2, 6)).is_ok());
    assert_eq!(seeded(1, 110, 100, 10, &config(1, 1, 2, 6)).err(), Some(MapError::InvalidConfig));
}

#[test]
fn pixels_beyond_the_last_whole_tile_are_unused() {
    let d = seeded(3, 109, 105, 10, &config(1, 1, 2, 4)).unwrap();
    assert_eq!((d.map_width, d.map_height), (10, 10));
    assert_eq!(d.tiles.len(), 100);
}

#[test]
fn no_rooms_gives_the_blank_grid() {
    let c = config(0, 0, 2, 3);
    let d = seeded(5, 100, 100, 10, &c).unwrap();
    assert!(d.rooms.is_empty() && d.elbows.is_empty());
    assert!(equal_tiles(&d.tiles, &new_grid(10, 10)));
    // Not even one attempt is needed.
    let mut rng = StdRng::seed_from_u64(5);
    assert!(generate(100, 100, 10, &c, 0, &mut rng).is_ok());
}

#[test]
fn one_room_needs_one_attempt() {
    let c = config(1, 1, 2, 4);
    for seed in 0..20 {
        let mut rng = StdRng::seed_from_u64(seed);
        let d = generate(100, 100, 10, &c, 1, &mut rng).unwrap();
        assert_eq!(d.rooms.len(), 1);
        check_dungeon(&d, 100, 100, 10, &c);
    }
    let mut rng = StdRng::seed_from_u64(0);
    assert_eq!(generate(100, 100, 10, &c, 0, &mut rng).err(), Some(MapError::Unsatisfiable));
}

#[test]
fn rooms_that_cannot_keep_apart_are_unsatisfiable() {
    // 10 by 10 tiles, rooms of 4 by 4: every room starts at 1 or 2, so any two touch.
    let c = config(2, 2, 4, 4);
    for seed in 0..10 {
        let mut rng = StdRng::seed_from_u64(seed);
        assert_eq!(generate(100, 100, 10, &c, 200, &mut rng).err(), Some(MapError::Unsatisfiable));
    }
    assert_eq!(create_map(&100, &100, &10, &c).err(), Some(MapError::Unsatisfiable));
}

#[test]
fn single_room_drawn_at_two_two() {
    // 10 by 10 tiles, one room of 4 by 4: it starts at 1 or 2 on each axis.
    let c = config(1, 1, 4, 4);
    let mut found = false;
    for seed in 0..200 {
        let d = seeded(seed, 100, 100, 10, &c).unwrap();
        assert_eq!(d.rooms.len(), 1);
        let r = d.rooms[0];
        assert!((r.w, r.h) == (4, 4) && (r.x == 1 || r.x == 2) && (r.y == 1 || r.y == 2));
        if r == (Rect { x: 2, y: 2, w: 4, h: 4 }) {
            found = true;
            let class = |x: u32, y: u32| d.tiles[tile_position(x, y, 10) as usize].sprite_type;
            for x in 0..10u32 {
                for y in 0..10u32 {
                    let inside = 2 <= x && x < 6 && 2 <= y && y < 6;
                    let expected = if !inside {
                        None
                    } else if x == 5 {
                        Some(Wall::Right)
                    } else if x == 2 {
                        Some(Wall::Left)
                    } else if y == 5 {
                        Some(Wall::Top)
                    } else if y == 2 {
                        Some(Wall::Bottom)
                    } else {
                        Some(Wall::Floor)
                    };
                    assert_eq!(class(x, y), expected);
                    assert_eq!(d.tiles[tile_position(x, y, 10) as usize].empty, inside);
                }
            }
        }
    }
    assert!(found);
}

#[test]
fn seeded_dungeons_are_laid_out_as_asked() {
    let c = config(3, 6, 3, 6);
    for seed in 0..25 {
        let d = seeded(seed, 400, 400, 10, &c).unwrap();
        check_dungeon(&d, 400, 400, 10, &c);
    }
}

#[test]
fn draws_vary_within_their_ranges() {
    let c = config(3, 6, 3, 6);
    let mut counts = Vec::new();
    let mut sizes = Vec::new();
    let mut corners = Vec::new();
    let mut elbows = Vec::new();
    for seed in 0..25 {
        let d = seeded(seed, 400, 400, 10, &c).unwrap();
        counts.push(d.rooms.len());
        for r in d.rooms.iter() {
            sizes.push(r.w);
            sizes.push(r.h);
            corners.push(r.x);
            corners.push(r.y);
        }
        elbows.extend(d.elbows.iter().copied());
    }
    // Not every draw is the lower end of its range.
    assert!(counts.iter().any(|&n| n != 3));
    assert!(sizes.iter().any(|&s| s != 3));
    assert!(corners.iter().any(|&p| p != 1));
    assert!(elbows.iter().any(|&e| e) && elbows.iter().any(|&e| !e));
}

#[test]
fn same_seed_same_dungeon() {
    let c = config(2, 5, 2, 5);
    let a = seeded(42, 300, 300, 10, &c).unwrap();
    let b = seeded(42, 300, 300, 10, &c).unwrap();
    assert_eq!(a.rooms, b.rooms);
    assert_eq!(a.elbows, b.elbows);
    assert!(equal_tiles(&a.tiles, &b.tiles));
}

#[test]
fn dungeons_on_grids_that_are_not_square() {
    let c = config(2, 4, 2, 4);
    for seed in 0..10 {
        // Higher than wide: every cell of every room has a tile.
        let d = seeded(seed, 200, 300, 10, &c).unwrap();
        check_dungeon(&d, 200, 300, 10, &c);
    }
}

#[test]
fn dungeons_on_grids_a_little_wider_than_high() {
    // 12 by 10 tiles: the cell (8, 6) is at position 102 of 120, so every room has its tiles.
    let c = config(2, 3, 1, 3);
    for seed in 0..10 {
        let d = seeded(seed, 120, 100, 10, &c).unwrap();
        check_dungeon(&d, 120, 100, 10, &c);
    }
}

#[test]
fn grid_too_wide_for_its_height_is_invalid() {
    // 14 by 10 tiles: the cell (10, 6) would be at position 146 of 140.
    let c = config(2, 3, 1, 3);
    assert_eq!(seeded(1, 140, 100, 10, &c).err(), Some(MapError::InvalidConfig));
    // 13 by 10 tiles: the cell (9, 6) is at position 123 of 130.
    assert!(seeded(1, 130, 100, 10, &c).is_ok());
    assert_eq!(seeded(1, 400, 100, 10, &c).err(), Some(MapError::InvalidConfig));
    assert_eq!(create_map(&400, &100, &10, &c).err(), Some(MapError::InvalidConfig));
}

#[test]
fn corridor_cells_are_open_floor() {
    let c = config(3, 6, 2, 5);
    for seed in 0..15 {
        let d = seeded(seed, 300, 300, 10, &c).unwrap();
        for k in 0..d.elbows.len() {
            let (a, b) = (d.rooms[k].center(), d.rooms[k + 1].center());
            let (row, column) = if d.elbows[k] { (b.y, a.x) } else { (a.y, b.x) };
            for x in a.x.min(b.x)..a.x.max(b.x) {
                let t = tile_at(&d.tiles, 30, x, row).unwrap();
                assert!(t.empty && t.sprite_type == Some(Wall::Floor));
            }
            for y in a.y.min(b.y)..a.y.max(b.y) {
                let t = tile_at(&d.tiles, 30, column, y).unwrap();
                assert!(t.empty && t.sprite_type == Some(Wall::Floor));
            }
        }
    }
}

#[test]
fn create_map_returns_a_grid_of_the_right_size() {
    let c = config(2, 4, 3, 5);
    let tiles = create_map(&300, &300, &10, &c).unwrap();
    assert_eq!(tiles.len(), 900);
    let passable = tiles.iter().filter(|t| t.empty).count();
    // Two rooms of 3 by 3 at the least.
    assert!(passable >= 18);
    for t in tiles.iter() {
        if t.sprite_type.is_none() {
            assert!(!t.empty);
        }
    }
    for x in 0..30 {
        for y in 0..30 {
            let t = &tiles[tile_position(x, y, 30) as usize];
            assert_eq!((t.x, t.y), (x, y));
        }
    }
}

#[test]
fn tile_at_finds_the_tile_of_a_cell() {
    let tiles = new_grid(5, 5);
    assert_eq!(tile_at(&tiles, 5, 3, 4), Some(Tile { x: 3, y: 4, empty: false, sprite_type: None }));
    assert_eq!(tile_at(&tiles, 5, 0, 0), Some(Tile { x: 0, y: 0, empty: false, sprite_type: None }));
    assert_eq!(tile_at(&tiles, 5, 4, 4).map(|t| (t.x, t.y)), Some((4, 4)));
}

#[test]
fn tile_at_beyond_the_vector_is_none() {
    let tiles = new_grid(5, 5);
    assert_eq!(tile_at(&tiles, 5, 5, 0), None);
    assert_eq!(tile_at(&tiles, 5, 4, 5), None);
    assert_eq!(tile_at(&tiles, 5, u32::MAX, u32::MAX), None);
    assert_eq!(tile_at(&Vec::new(), 0, 0, 0), None);
}

#[test]
fn tile_at_follows_positions_not_rows() {
    // A row at or beyond the stride is a row of the next column.
    let tiles = new_grid(5, 5);
    assert_eq!(tile_at(&tiles, 5, 1, 7), tile_at(&tiles, 5, 2, 2));
}

#[test]
fn no_random_source_is_reported_for_a_valid_request() {
    let c = config(1, 2, 3, 5);
    assert_eq!(create_map_from(300, 300, 10, &c, None).err(), Some(MapError::NoRandomSource));
    // A request that is not valid is refused first.
    assert_eq!(create_map_from(300, 300, 0, &c, None).err(), Some(MapError::InvalidConfig));
    assert_eq!(
        create_map_from(300, 300, 10, &config(2, 1, 3, 5), None).err(),
        Some(MapError::InvalidConfig)
    );
}

#[test]
fn create_map_from_a_seeded_source() {
    let c = config(2, 4, 3, 5);
    let tiles = create_map_from(300, 300, 10, &c, Some(StdRng::seed_from_u64(9))).unwrap();
    let again = seeded(9, 300, 300, 10, &c);
    // With more attempts allowed than are ever needed here, the two agree.
    assert!(equal_tiles(&tiles, &again.unwrap().tiles));
    assert_eq!(
        create_map_from(300, 300, 0, &c, Some(StdRng::seed_from_u64(9))).err(),
        Some(MapError::InvalidConfig)
    );
}

#[test]
fn draw_limits_are_those_of_the_configuration() {
    let c = config(2, 7, 3, 9);
    assert_eq!(c.count_limits(), (2, 8));
    assert_eq!(c.size_limits(), (3, 10));
    assert_eq!(config(0, 0, 0, 0).count_limits(), (0, 1));
    assert_eq!(config(0, 0, 0, 0).size_limits(), (0, 1));
    // A room of 4 in a grid of 10 starts at 1 or 2; one of 5 at 1 only.
    assert_eq!(corner_limits(10, 4), (1, 3));
    assert_eq!(corner_limits(10, 5), (1, 2));
    assert_eq!(corner_limits(40, 0), (1, 37));
}

#[test]
fn drawn_counts_and_candidates_keep_to_their_limits() {
    let c = config(2, 5, 3, 6);
    let mut rng = StdRng::seed_from_u64(11);
    let mut counts = Vec::new();
    let mut candidates = Vec::new();
    for _ in 0..200 {
        let n = draw_count(&c, &mut rng);
        assert!(2 <= n && n <= 5);
        counts.push(n);
        let r = draw_candidate(&c, 20, 30, &mut rng);
        assert!(3 <= r.w && r.w <= 6 && 3 <= r.h && r.h <= 6);
        assert!(1 <= r.x && r.x + r.w + 3 < 20);
        assert!(1 <= r.y && r.y + r.h + 3 < 30);
        candidates.push(r);
    }
    // Both ends of each range come up, and the far end of the grid is reached.
    assert!(counts.contains(&2) && counts.contains(&5));
    assert!(candidates.iter().any(|r| r.w == 3) && candidates.iter().any(|r| r.w == 6));
    assert!(candidates.iter().any(|r| r.h == 3) && candidates.iter().any(|r| r.h == 6));
    assert!(candidates.iter().any(|r| r.x == 1) && candidates.iter().any(|r| r.x + r.w == 16));
    assert!(candidates.iter().any(|r| r.y == 1) && candidates.iter().any(|r| r.y + r.h == 26));
}

#[test]
fn next_step_is_done_give_up_or_offer() {
    assert_eq!(next_step(0, 0, 0), Progress::Done);
    assert_eq!(next_step(0, 0, 5), Progress::Done);
    assert_eq!(next_step(3, 3, 0), Progress::Done);
    assert_eq!(next_step(4, 3, 9), Progress::Done);
    assert_eq!(next_step(2, 3, 0), Progress::GiveUp);
    assert_eq!(next_step(0, 1, 0), Progress::GiveUp);
    assert_eq!(next_step(2, 3, 1), Progress::Offer);
    assert_eq!(next_step(0, u32::MAX, u64::MAX), Progress::Offer);
}

#[test]
fn offering_rooms_step_by_step() {
    let mut tiles = new_grid(20, 20);
    let mut rooms: Vec<Rect> = Vec::new();
    let a = Rect { x: 1, y: 1, w: 3, h: 3 };
    let b = Rect { x: 3, y: 3, w: 3, h: 3 };
    let c = Rect { x: 10, y: 10, w: 4, h: 4 };
    // Accepted, one more wanted, attempts left.
    assert_eq!(offer_room(&mut tiles, &mut rooms, a, 2, 2, 20, 20), Progress::Offer);
    assert_eq!(rooms, vec![a]);
    let after_first = tiles.clone();
    // Rejected: nothing changes, and an attempt is left.
    assert_eq!(offer_room(&mut tiles, &mut rooms, b, 2, 1, 20, 20), Progress::Offer);
    assert_eq!(rooms, vec![a]);
    assert!(equal_tiles(&tiles, &after_first));
    // Rejected with no attempt left: the generator gives up.
    assert_eq!(offer_room(&mut tiles, &mut rooms, b, 2, 0, 20, 20), Progress::GiveUp);
    assert_eq!(rooms, vec![a]);
    // Accepted as the last room wanted: done, whatever is left.
    assert_eq!(offer_room(&mut tiles, &mut rooms, c, 2, 0, 20, 20), Progress::Done);
    assert_eq!(rooms, vec![a, c]);
    let mut expected = new_grid(20, 20);
    create_new_room(&mut expected, &a, 20, 20);
    create_new_room(&mut expected, &c, 20, 20);
    assert!(equal_tiles(&tiles, &expected));
}

#[test]
fn dig_dungeon_makes_as_many_rooms_as_wanted() {
    let c = config(1, 6, 2, 4);
    for wanted in 1..=6u32 {
        let mut rng = StdRng::seed_from_u64(wanted as u64);
        let d = dig_dungeon(40, 40, &c, wanted, 10_000, &mut rng).unwrap();
        assert_eq!(d.rooms.len(), wanted as usize);
        check_dungeon(&d, 400, 400, 10, &c);
    }
}

#[test]
fn dig_dungeon_gives_up_when_the_attempts_run_out() {
    let c = config(0, 3, 4, 4);
    // No room wanted: done without an attempt.
    let mut rng = StdRng::seed_from_u64(1);
    assert!(dig_dungeon(10, 10, &c, 0, 0, &mut rng).unwrap().rooms.is_empty());
    // A room wanted and no attempt allowed.
    assert_eq!(dig_dungeon(10, 10, &c, 1, 0, &mut rng).err(), Some(MapError::Unsatisfiable));
    // One room needs one attempt.
    assert_eq!(dig_dungeon(10, 10, &c, 1, 1, &mut rng).unwrap().rooms.len(), 1);
    // Two rooms of 4 by 4 never keep apart in 10 by 10 tiles.
    assert_eq!(dig_dungeon(10, 10, &c, 2, 500, &mut rng).err(), Some(MapError::Unsatisfiable));
}

#[test]
fn giving_up_takes_exactly_the_attempts_allowed() {
    // Two rooms of 4 by 4 never keep apart in 10 by 10 tiles: every attempt is used, and each
    // attempt draws four values. The next draw of the source tells how many were made.
    let c = config(2, 2, 4, 4);
    let mut used = StdRng::seed_from_u64(3);
    assert_eq!(dig_dungeon(10, 10, &c, 2, 7, &mut used).err(), Some(MapError::Unsatisfiable));
    let mut by_hand = StdRng::seed_from_u64(3);
    for _ in 0..7 {
        let _ = draw_candidate(&c, 10, 10, &mut by_hand);
    }
    assert_eq!(draw_candidate(&c, 10, 10, &mut used), draw_candidate(&c, 10, 10, &mut by_hand));
}

#[test]
fn border_of_a_square_dungeon_is_never_dug() {
    let c = config(4, 8, 1, 6);
    for seed in 0..20 {
        let d = seeded(seed, 300, 300, 10, &c).unwrap();
        for k in 0..30u32 {
            // The first row and the first column may get walls, but are never passable.
            assert!(!tile_at(&d.tiles, 30, 0, k).unwrap().empty);
            assert!(!tile_at(&d.tiles, 30, k, 0).unwrap().empty);
            // The last two rows and columns are rock as they were made.
            for far in 28..30u32 {
                let rock = |x: u32, y: u32| Tile { x, y, empty: false, sprite_type: None };
                assert_eq!(tile_at(&d.tiles, 30, far, k), Some(rock(far, k)));
                assert_eq!(tile_at(&d.tiles, 30, k, far), Some(rock(k, far)));
            }
        }
    }
}
