use vstd::prelude::*;

use crate::codec::Address;
use crate::constants::PLAYER_MOVE;

verus! {

/// Facing of a player. There is no idle state distinct from the
/// last-held orientation.
#[derive(Clone, Copy, Debug, PartialEq, Eq, Structural)]
pub enum Orientation {
    South,
    West,
    East,
    North,
}

/// Available player skins.
#[derive(Clone, Copy, Debug, PartialEq, Eq, Structural)]
pub enum Skins {
    Female,
}

/// Sprite-sheet indices for the four facings of one skin.
#[derive(Clone, Copy, Debug, PartialEq, Eq, Structural)]
pub struct Outfit {
    pub n: usize,
    pub e: usize,
    pub s: usize,
    pub w: usize,
}

/// The outfit that belongs to a skin.
pub open spec fn spec_outfit(skin: Skins) -> Outfit {
    match skin {
        Skins::Female => Outfit { n: 318, e: 306, s: 282, w: 294 },
    }
}

pub fn get_outfit(skin: &Skins) -> (r: Outfit)
    ensures
        r == spec_outfit(*skin),
{
    match skin {
        Skins::Female => Outfit { n: 318, e: 306, s: 282, w: 294 },
    }
}

/// Client-side mirror of one player: a display-only projection, never
/// the source of truth. Positions are pixel coordinates.
#[derive(Debug, Clone, PartialEq)]
pub struct PlayerComponent {
    pub name: String,
    pub ip: Address,
    pub room: String,
    pub x: i32,
    pub y: i32,
    pub skin: Outfit,
    pub orientation: Orientation,
}

/// Orientation after an input delta `(dx, dy)`: horizontal input wins
/// over vertical input, and a wholly neutral input keeps the current
/// orientation.
pub open spec fn spec_orientation_after(cur: Orientation, dx: int, dy: int) -> Orientation {
    if dx > 0 {
        Orientation::East
    } else if dx < 0 {
        Orientation::West
    } else if dy > 0 {
        Orientation::North
    } else if dy < 0 {
        Orientation::South
    } else {
        cur
    }
}

/// Pixel position after one walk step along `o` from `(x, y)`: exactly
/// one coordinate moves, by `PLAYER_MOVE`, along the axis and sign of `o`.
pub open spec fn spec_walk_target(x: int, y: int, o: Orientation) -> (int, int) {
    match o {
        Orientation::North => (x, y + PLAYER_MOVE),
        Orientation::South => (x, y - PLAYER_MOVE),
        Orientation::East => (x + PLAYER_MOVE, y),
        Orientation::West => (x - PLAYER_MOVE, y),
    }
}

impl PlayerComponent {
    pub fn new(p: PlayerComponent) -> (r: Self)
        ensures
            r == p,
    {
        p
    }

    /// Refaces the player from an input delta; the position is untouched.
    pub fn update_orientation(&mut self, x: &i32, y: &i32)
        ensures
            final(self).orientation == spec_orientation_after(old(self).orientation, *x as int, *y as int),
            final(self).name == old(self).name,
            final(self).ip == old(self).ip,
            final(self).room == old(self).room,
            final(self).x == old(self).x,
            final(self).y == old(self).y,
            final(self).skin == old(self).skin,
    {
        let x = *x;
        let y = *y;
        if x > 0 {
            self.orientation = Orientation::East;
        } else if x < 0 {
            self.orientation = Orientation::West;
        } else if y > 0 {
            self.orientation = Orientation::North;
        } else if y < 0 {
            self.orientation = Orientation::South;
        }
    }

    /// Advances the position by one fixed step along the current
    /// orientation only. Callers gate this with an `allowed_move` check.
    pub fn walk(&mut self)
        requires
            i32::MIN <= spec_walk_target(old(self).x as int, old(self).y as int, old(self).orientation).0 <= i32::MAX,
            i32::MIN <= spec_walk_target(old(self).x as int, old(self).y as int, old(self).orientation).1 <= i32::MAX,
        ensures
            final(self).x as int == spec_walk_target(old(self).x as int, old(self).y as int, old(self).orientation).0,
            final(self).y as int == spec_walk_target(old(self).x as int, old(self).y as int, old(self).orientation).1,
            final(self).orientation == old(self).orientation,
            final(self).name == old(self).name,
            final(self).ip == old(self).ip,
            final(self).room == old(self).room,
            final(self).skin == old(self).skin,
    {
        match self.orientation {
            Orientation::North => self.y = self.y + PLAYER_MOVE,
            Orientation::South => self.y = self.y - PLAYER_MOVE,
            Orientation::East => self.x = self.x + PLAYER_MOVE,
            Orientation::West => self.x = self.x - PLAYER_MOVE,
        }
    }

    pub fn x(&self) -> (r: i32)
        ensures
            r == self.x,
    {
        self.x
    }

    pub fn y(&self) -> (r: i32)
        ensures
            r == self.y,
    {
        self.y
    }

    /// Sprite index of the skin entry that matches `o`.
    pub open spec fn spec_dir(self) -> usize {
        match self.orientation {
            Orientation::North => self.skin.n,
            Orientation::South => self.skin.s,
            Orientation::East => self.skin.e,
            Orientation::West => self.skin.w,
        }
    }

    /// Sprite index for the current orientation.
    pub fn get_dir(&self) -> (r: usize)
        ensures
            r == self.spec_dir(),
    {
        match self.orientation {
            Orientation::North => self.skin.n,
            Orientation::South => self.skin.s,
            Orientation::East => self.skin.e,
            Orientation::West => self.skin.w,
        }
    }
}

} // verus!
