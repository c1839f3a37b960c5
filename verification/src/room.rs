use vstd::prelude::*;

use crate::constants::{MAX_DIM, TILE_PER_PLAYER, TILE_SIZE};
use crate::player::Orientation;

verus! {

/// The collision-layer data of one tile, as the movement rules read it.
#[derive(Clone, Copy, Debug, PartialEq, Eq, Structural)]
pub struct TileProps {
    pub collide: bool,
}

/// Collision properties of a tile and of its four neighbors at the
/// player-footprint distance; `None` where the neighbor lies outside
/// the map or carries no tile data.
#[derive(Clone, Copy, Debug, PartialEq, Eq, Structural)]
pub struct Adj {
    pub cur: Option<TileProps>,
    pub n: Option<TileProps>,
    pub e: Option<TileProps>,
    pub s: Option<TileProps>,
    pub w: Option<TileProps>,
}

/// Whether an adjacency entry blocks movement: only a present tile with
/// its collision property set does.
pub open spec fn spec_collision(p: Option<TileProps>) -> bool {
    match p {
        Option::Some(t) => t.collide,
        Option::None => false,
    }
}

pub fn collision(p: &Option<TileProps>) -> (r: bool)
    ensures
        r == spec_collision(*p),
{
    match p {
        Option::Some(t) => t.collide,
        Option::None => false,
    }
}

/// One pixel axis taken to world-tile units: one tile-size offset is
/// subtracted before dividing by the tile size (a fixed calibration of
/// the pixel origin against tile (0,0)), truncating toward zero.
pub open spec fn spec_px_axis(v: int) -> int {
    let d = v - TILE_SIZE;
    if d >= 0 {
        d / (TILE_SIZE as int)
    } else {
        -((-d) / (TILE_SIZE as int))
    }
}

/// A named tile map: the collision-layer grid with its bounds. Rows are
/// stored top-down exactly as the map resource stores them, so row 0 is
/// the top of the map and world y grows upward.
pub struct Room {
    pub grid: Vec<Vec<Option<TileProps>>>,
    pub width: usize,
    pub height: usize,
    pub update: bool,
    pub name: String,
}

/// A tile of the map together with its stacking layer and sprite id.
#[derive(Clone, Copy, Debug, PartialEq, Eq, Structural)]
pub struct TilePosition {
    pub x: usize,
    pub y: usize,
    pub z: usize,
    pub gid: usize,
}

impl TilePosition {
    pub fn new(x: usize, y: usize, z: usize, gid: usize) -> (r: Self)
        ensures
            r == (TilePosition { x, y, z, gid }),
    {
        Self { x, y, z, gid }
    }
}

/// An acceptable grid: non-empty, rectangular, and within the dimension
/// bound that keeps pixel arithmetic inside `i32`.
pub open spec fn grid_ok(g: Seq<Vec<Option<TileProps>>>) -> bool {
    &&& g.len() > 0
    &&& g.len() <= MAX_DIM
    &&& g[0]@.len() > 0
    &&& g[0]@.len() <= MAX_DIM
    &&& forall|i: int| 0 <= i < g.len() ==> (#[trigger] g[i])@.len() == g[0]@.len()
}

impl Room {
    /// Well-formedness: the grid is rectangular with the recorded bounds,
    /// and the bounds stay below `MAX_DIM`.
    pub open spec fn wf(self) -> bool {
        &&& self.grid@.len() == self.height
        &&& forall|i: int| 0 <= i < self.grid@.len() ==> (#[trigger] self.grid@[i])@.len() == self.width
        &&& self.width <= MAX_DIM
        &&& self.height <= MAX_DIM
    }

    /// World coordinates taken to the map resource's row order: the tile
    /// row is mirrored because rows are stored top-down while world y
    /// grows upward.
    pub open spec fn spec_world_2_tiled(self, x: int, y: int) -> (int, int) {
        (x, self.height as int - 1 - y)
    }

    /// The collision-layer properties of the tile at world position
    /// `(x + xoff, y + yoff)`; `None` exactly when the target lies outside
    /// `[0, width) x [0, height)` in either axis — which covers any offset
    /// that would read before column or row 0.
    pub open spec fn spec_prop(self, x: int, y: int, xoff: int, yoff: int) -> Option<TileProps> {
        if x + xoff < 0 || y + yoff < 0 {
            Option::None
        } else if x + xoff >= self.width as int {
            Option::None
        } else if y + yoff >= self.height as int {
            Option::None
        } else {
            self.grid@[self.spec_world_2_tiled(x + xoff, y + yoff).1]@[x + xoff]
        }
    }

    /// The adjacency snapshot of the tile at world position `(x, y)`.
    pub open spec fn spec_adj(self, x: int, y: int) -> Adj {
        let tpp = TILE_PER_PLAYER as int;
        Adj {
            cur: self.spec_prop(x, y, 0, 0),
            n: self.spec_prop(x, y, 0, tpp),
            e: self.spec_prop(x, y, tpp, 0),
            s: self.spec_prop(x, y, 0, -tpp),
            w: self.spec_prop(x, y, -tpp, 0),
        }
    }

    /// Movement legality at world coordinates: a move facing `facing` is
    /// blocked when the position is within one footprint of the map edge
    /// in that direction, or the neighbor tile that way carries a
    /// collision property. Only the neighbor matching `facing` is ever
    /// inspected.
    pub open spec fn spec_allowed_move_at(self, x: int, y: int, facing: Orientation) -> bool {
        let adj = self.spec_adj(x, y);
        let tpp = TILE_PER_PLAYER as int;
        let north = facing == Orientation::North && (y >= self.height as int - tpp
            || spec_collision(adj.n));
        let east = facing == Orientation::East && (x >= self.width as int - tpp
            || spec_collision(adj.e));
        let south = facing == Orientation::South && (y < tpp || spec_collision(adj.s));
        let west = facing == Orientation::West && (x < tpp || spec_collision(adj.w));
        !north && !east && !south && !west
    }

    /// Movement legality at pixel coordinates.
    pub open spec fn spec_allowed_move(self, px: int, py: int, facing: Orientation) -> bool {
        self.spec_allowed_move_at(spec_px_axis(px), spec_px_axis(py), facing)
    }

    /// Builds a room from a named collision grid; `None` on a grid that
    /// is empty, ragged, or beyond the dimension bound, so a bad map is
    /// a recoverable failure rather than a crash.
    pub fn new(name: String, grid: Vec<Vec<Option<TileProps>>>) -> (r: Option<Room>)
        ensures
            match r {
                Option::Some(room) => {
                    &&& grid_ok(grid@)
                    &&& room.wf()
                    &&& room.grid == grid
                    &&& room.name == name
                    &&& room.height == grid@.len()
                    &&& room.width == grid@[0]@.len()
                    &&& room.update == true
                },
                Option::None => !grid_ok(grid@),
            },
    {
        if grid.len() == 0 || grid.len() > MAX_DIM {
            return Option::None;
        }
        let width = grid[0].len();
        if width == 0 || width > MAX_DIM {
            return Option::None;
        }
        let mut i: usize = 1;
        while i < grid.len()
            invariant
                1 <= i <= grid@.len(),
                forall|j: int| 0 <= j < i ==> (#[trigger] grid@[j])@.len() == width,
                width == grid@[0]@.len(),
            decreases grid@.len() - i,
        {
            if grid[i].len() != width {
                return Option::None;
            }
            i = i + 1;
        }
        let height = grid.len();
        Option::Some(Room { grid, width, height, update: true, name })
    }

    /// Swaps in a new map under a new name and marks the room dirty for
    /// whatever re-renders tile entities; a bad grid leaves the room
    /// untouched and reports failure.
    pub fn change(&mut self, name: String, grid: Vec<Vec<Option<TileProps>>>) -> (ok: bool)
        ensures
            ok == grid_ok(grid@),
            ok ==> {
                &&& final(self).wf()
                &&& final(self).grid == grid
                &&& final(self).name == name
                &&& final(self).height == grid@.len()
                &&& final(self).width == grid@[0]@.len()
                &&& final(self).update == true
            },
            !ok ==> *final(self) == *old(self),
    {
        match Room::new(name, grid) {
            Option::Some(room) => {
                *self = room;
                true
            },
            Option::None => false,
        }
    }

    /// One pixel pair taken to world-tile coordinates.
    pub fn px_2_world(x: i32, y: i32) -> (r: (i32, i32))
        ensures
            r.0 as int == spec_px_axis(x as int),
            r.1 as int == spec_px_axis(y as int),
    {
        (Room::px_axis(x), Room::px_axis(y))
    }

    fn px_axis(v: i32) -> (r: i32)
        ensures
            r as int == spec_px_axis(v as int),
    {
        let d: i64 = v as i64 - TILE_SIZE as i64;
        let q: i64 = if d >= 0 {
            ((d as u64) / (TILE_SIZE as u64)) as i64
        } else {
            -((((-d) as u64) / (TILE_SIZE as u64)) as i64)
        };
        q as i32
    }

    /// The collision properties of the tile one offset away from world
    /// position `(x, y)`, read from the collision layer.
    fn get_prop(&self, x: i32, y: i32, xoff: i32, yoff: i32) -> (r: Option<TileProps>)
        requires
            self.wf(),
            -TILE_PER_PLAYER <= xoff <= TILE_PER_PLAYER,
            -TILE_PER_PLAYER <= yoff <= TILE_PER_PLAYER,
        ensures
            r == self.spec_prop(x as int, y as int, xoff as int, yoff as int),
    {
        let tx: i64 = x as i64 + xoff as i64;
        let ty: i64 = y as i64 + yoff as i64;
        if tx < 0 || ty < 0 {
            return Option::None;
        }
        if tx >= self.width as i64 {
            return Option::None;
        }
        if ty >= self.height as i64 {
            return Option::None;
        }
        let row: usize = (self.height as i64 - 1 - ty) as usize;
        let col: usize = tx as usize;
        self.grid[row][col]
    }

    /// The adjacency snapshot around the pixel position `(px, py)`.
    pub fn get_adj(&self, px: i32, py: i32) -> (r: Adj)
        requires
            self.wf(),
        ensures
            r == self.spec_adj(spec_px_axis(px as int), spec_px_axis(py as int)),
    {
        let (x, y) = Room::px_2_world(px, py);
        Adj {
            cur: self.get_prop(x, y, 0, 0),
            n: self.get_prop(x, y, 0, TILE_PER_PLAYER),
            e: self.get_prop(x, y, TILE_PER_PLAYER, 0),
            s: self.get_prop(x, y, 0, -TILE_PER_PLAYER),
            w: self.get_prop(x, y, -TILE_PER_PLAYER, 0),
        }
    }

    /// Whether a step facing `facing` from pixel position `(px, py)` is
    /// legal against the map edge and the collision layer.
    pub fn allowed_move(&self, px: i32, py: i32, facing: &Orientation) -> (r: bool)
        requires
            self.wf(),
        ensures
            r == self.spec_allowed_move(px as int, py as int, *facing),
    {
        let adj = self.get_adj(px, py);
        let (x, y) = Room::px_2_world(px, py);

        let north = (*facing == Orientation::North) && ((y as i64
            >= self.height as i64 - TILE_PER_PLAYER as i64) || collision(&adj.n));
        let east = (*facing == Orientation::East) && ((x as i64
            >= self.width as i64 - TILE_PER_PLAYER as i64) || collision(&adj.e));
        let south = (*facing == Orientation::South) && ((y < TILE_PER_PLAYER) || collision(&adj.s));
        let west = (*facing == Orientation::West) && ((x < TILE_PER_PLAYER) || collision(&adj.w));

        !north && !east && !south && !west
    }
}

/// The adjacency entry that a facing makes relevant.
pub open spec fn relevant_neighbor(adj: Adj, facing: Orientation) -> Option<TileProps> {
    match facing {
        Orientation::North => adj.n,
        Orientation::East => adj.e,
        Orientation::South => adj.s,
        Orientation::West => adj.w,
    }
}

/// Whether world position `(x, y)` sits within one player footprint of
/// the map edge that `facing` points at.
pub open spec fn spec_edge_block(room: Room, x: int, y: int, facing: Orientation) -> bool {
    let tpp = TILE_PER_PLAYER as int;
    match facing {
        Orientation::North => y >= room.height as int - tpp,
        Orientation::East => x >= room.width as int - tpp,
        Orientation::South => y < tpp,
        Orientation::West => x < tpp,
    }
}

/// A move is refused exactly when the neighbor in the facing direction
/// carries a collision property or the position is within one footprint
/// of the facing map edge, whatever the other directions hold. From an
/// in-map position, a facing neighbor that lies beyond the map — where
/// the collision query yields no data — is always covered by the edge
/// condition, so that query blocks movement at the corresponding edge.
pub proof fn lemma_allowed_move_characterization(room: Room, x: int, y: int, facing: Orientation)
    ensures
        spec_collision(relevant_neighbor(room.spec_adj(x, y), facing)) ==> !room.spec_allowed_move_at(x, y, facing),
        spec_edge_block(room, x, y, facing) ==> !room.spec_allowed_move_at(x, y, facing),
        !spec_collision(relevant_neighbor(room.spec_adj(x, y), facing)) && !spec_edge_block(room, x, y, facing)
            ==> room.spec_allowed_move_at(x, y, facing),
        ({
            let tpp = TILE_PER_PLAYER as int;
            let (tx, ty) = match facing {
                Orientation::North => (x, y + tpp),
                Orientation::East => (x + tpp, y),
                Orientation::South => (x, y - tpp),
                Orientation::West => (x - tpp, y),
            };
            0 <= x < room.width as int && 0 <= y < room.height as int && !(0 <= tx
                < room.width as int && 0 <= ty < room.height as int) ==> spec_edge_block(
                room,
                x,
                y,
                facing,
            )
        }),
{
}

} // verus!
