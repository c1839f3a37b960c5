use tilegame::constants::{TILE_PER_PLAYER, TILE_SIZE};
use tilegame::player::Orientation;
use tilegame::room::{Room, TilePosition, TileProps};

fn open_grid(width: usize, height: usize) -> Vec<Vec<Option<TileProps>>> {
    let mut grid = Vec::new();
    for _ in 0..height {
        let mut row = Vec::new();
        for _ in 0..width {
            row.push(Some(TileProps { collide: false }));
        }
        grid.push(row);
    }
    grid
}

fn set_world_tile(grid: &mut Vec<Vec<Option<TileProps>>>, wx: usize, wy: usize, collide: bool) {
    let height = grid.len();
    grid[height - 1 - wy][wx] = Some(TileProps { collide });
}

/// Pixel coordinate whose world-tile conversion lands on `w`.
fn px(w: i32) -> i32 {
    w * TILE_SIZE + TILE_SIZE
}

fn open_room(width: usize, height: usize) -> Room {
    Room::new("first".to_string(), open_grid(width, height)).expect("rectangular grid")
}

#[test]
fn room_new_records_bounds() {
    let room = open_room(8, 6);
    assert_eq!(room.width, 8);
    assert_eq!(room.height, 6);
    assert_eq!(room.name, "first");
    assert!(room.update);
}

#[test]
fn room_new_rejects_empty_and_ragged() {
    assert!(Room::new("x".to_string(), Vec::new()).is_none());
    let mut ragged = open_grid(4, 4);
    ragged[2].pop();
    assert!(Room::new("x".to_string(), ragged).is_none());
}

#[test]
fn room_change_swaps_and_marks_dirty() {
    let mut room = open_room(4, 4);
    room.update = false;
    assert!(room.change("second".to_string(), open_grid(5, 3)));
    assert_eq!(room.name, "second");
    assert_eq!(room.width, 5);
    assert_eq!(room.height, 3);
    assert!(room.update);
}

#[test]
fn room_change_keeps_room_on_bad_grid() {
    let mut room = open_room(4, 4);
    let mut ragged = open_grid(4, 4);
    ragged[0].pop();
    assert!(!room.change("second".to_string(), ragged));
    assert_eq!(room.name, "first");
    assert_eq!(room.width, 4);
}

#[test]
fn pixel_to_world_subtracts_one_tile() {
    assert_eq!(Room::px_2_world(TILE_SIZE, TILE_SIZE), (0, 0));
    assert_eq!(Room::px_2_world(48, 32), (2, 1));
    assert_eq!(Room::px_2_world(0, 8), (-1, 0));
}

#[test]
fn open_map_allows_all_moves_in_the_middle() {
    let room = open_room(8, 8);
    for o in [Orientation::North, Orientation::South, Orientation::East, Orientation::West] {
        assert!(room.allowed_move(px(3), px(3), &o), "{:?} must be allowed", o);
    }
}

#[test]
fn collision_blocks_only_the_facing_direction() {
    let mut grid = open_grid(8, 8);
    // The eastern neighbor sits one footprint away.
    set_world_tile(&mut grid, 3 + TILE_PER_PLAYER as usize, 3, true);
    let room = Room::new("first".to_string(), grid).unwrap();
    assert!(!room.allowed_move(px(3), px(3), &Orientation::East));
    assert!(room.allowed_move(px(3), px(3), &Orientation::North));
    assert!(room.allowed_move(px(3), px(3), &Orientation::South));
    assert!(room.allowed_move(px(3), px(3), &Orientation::West));
}

#[test]
fn every_direction_blocks_on_its_collision() {
    let mut grid = open_grid(8, 8);
    let t = TILE_PER_PLAYER as usize;
    set_world_tile(&mut grid, 3, 3 + t, true);
    set_world_tile(&mut grid, 3, 3 - t, true);
    set_world_tile(&mut grid, 3 + t, 3, true);
    set_world_tile(&mut grid, 3 - t, 3, true);
    let room = Room::new("first".to_string(), grid).unwrap();
    for o in [Orientation::North, Orientation::South, Orientation::East, Orientation::West] {
        assert!(!room.allowed_move(px(3), px(3), &o), "{:?} must be blocked", o);
    }
}

#[test]
fn edges_block_outward_moves_without_any_collision() {
    let room = open_room(8, 8);
    // Within one footprint of the east edge, collision-free.
    assert!(!room.allowed_move(px(8 - TILE_PER_PLAYER), px(3), &Orientation::East));
    assert!(!room.allowed_move(px(7), px(3), &Orientation::East));
    // North edge.
    assert!(!room.allowed_move(px(3), px(8 - TILE_PER_PLAYER), &Orientation::North));
    // South and west edges block within one footprint of row/column zero.
    assert!(!room.allowed_move(px(3), px(0), &Orientation::South));
    assert!(!room.allowed_move(px(3), px(TILE_PER_PLAYER - 1), &Orientation::South));
    assert!(!room.allowed_move(px(0), px(3), &Orientation::West));
    assert!(!room.allowed_move(px(TILE_PER_PLAYER - 1), px(3), &Orientation::West));
    // One tile past the band, the move is legal again.
    assert!(room.allowed_move(px(3), px(TILE_PER_PLAYER), &Orientation::South));
    assert!(room.allowed_move(px(TILE_PER_PLAYER), px(3), &Orientation::West));
    // Facing inward from an edge stays legal.
    assert!(room.allowed_move(px(0), px(3), &Orientation::East));
    assert!(room.allowed_move(px(3), px(0), &Orientation::North));
}

#[test]
fn collision_in_the_last_columns_still_blocks() {
    let mut grid = open_grid(8, 8);
    // A collision property on the very last in-map column.
    set_world_tile(&mut grid, 7, 3, true);
    let room = Room::new("first".to_string(), grid).unwrap();
    // The eastern neighbor of world x = 5 is that tile: blocked.
    assert!(!room.allowed_move(px(5), px(3), &Orientation::East));
    assert!(room.allowed_move(px(5), px(3), &Orientation::North));
}

#[test]
fn adjacency_reports_no_data_outside_the_map() {
    let room = open_room(8, 8);
    let adj = room.get_adj(px(0), px(0));
    assert!(adj.cur.is_some());
    assert!(adj.n.is_some());
    assert!(adj.e.is_some());
    assert!(adj.s.is_none());
    assert!(adj.w.is_none());
    let far = room.get_adj(px(7), px(7));
    assert!(far.n.is_none());
    assert!(far.e.is_none());
    // Neighbors on the last in-map column and row still carry their data.
    let near_edge = room.get_adj(px(5), px(5));
    assert!(near_edge.n.is_some());
    assert!(near_edge.e.is_some());
}

#[test]
fn tile_position_new_keeps_fields() {
    let t = TilePosition::new(3, 4, 5, 977);
    assert_eq!(t.x, 3);
    assert_eq!(t.y, 4);
    assert_eq!(t.z, 5);
    assert_eq!(t.gid, 977);
}
