//! The board as a mathematical value.

use vstd::prelude::*;
use crate::ant::Ant;
use crate::item::Item;

verus! {

/// What a board holds: its size, the items lying on it in the order in which
/// they were laid down, and its ants in the order in which they take turns.
#[verifier::ext_equal]
pub struct BoardView {
    pub width: nat,
    pub height: nat,
    pub items: Seq<Item>,
    pub ants: Seq<Ant>,
}

impl BoardView {
    /// Whether `ant` belongs on this board: it knows the board's size, stands
    /// on the grid, and so did whatever it carries when it was picked up.
    pub open spec fn fits(self, ant: Ant) -> bool {
        &&& ant.max_x == self.width
        &&& ant.max_y == self.height
        &&& ant.x < self.width
        &&& ant.y < self.height
        &&& ant.carrying_item matches Some(held) ==> held.x < self.width && held.y < self.height
    }

    /// Every item and every ant is on the grid.
    pub open spec fn wf(self) -> bool {
        &&& forall|j: int|
            0 <= j < self.items.len() ==> (#[trigger] self.items[j]).x < self.width
                && self.items[j].y < self.height
        &&& forall|i: int| 0 <= i < self.ants.len() ==> self.fits(#[trigger] self.ants[i])
    }
}

} // verus!
