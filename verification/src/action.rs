use vstd::prelude::*;

use crate::player::Orientation;

verus! {

/// One application-level action a client may request for its player.
#[derive(Clone, Copy, Debug, PartialEq, Eq, Structural)]
pub enum Action {
    Nothing,
    Move(Orientation),
    Attack(u32),
    UseItem(u32),
}

} // verus!
