//! The things that ants carry around.

use vstd::prelude::*;

verus! {

/// What an item is made of. Ants cluster items of one kind together.
#[derive(Debug, PartialEq, Eq, Copy, Clone, Structural)]
pub enum ItemType {
    Leaf,
    Stick,
}

/// An item lying on a cell of the grid, or in the grip of an ant.
///
/// `freeze_time_left` is how many more times an ant has to bite the item
/// before it comes loose and can be picked up.
#[derive(Debug, PartialEq, Eq, Copy, Clone, Structural)]
pub struct Item {
    pub x: usize,
    pub y: usize,
    pub freeze_time_left: usize,
    pub item_type: ItemType,
}

impl Item {
    pub fn new(x: usize, y: usize, freeze_time_left: usize, item_type: ItemType) -> (item: Self)
        ensures
            item == (Item { x, y, freeze_time_left, item_type }),
    {
        Self { x, y, freeze_time_left, item_type }
    }

    /// Whether the item lies on cell `c`.
    pub open spec fn at(self, c: (int, int)) -> bool {
        self.x == c.0 && self.y == c.1
    }

    /// Whether the item lies on cell `c` and is of kind `kind`.
    pub open spec fn like(self, c: (int, int), kind: ItemType) -> bool {
        self.at(c) && self.item_type == kind
    }

    /// The same item after one bite: one step closer to coming loose.
    pub open spec fn bitten(self) -> Item {
        Item { freeze_time_left: (self.freeze_time_left - 1) as usize, ..self }
    }
}

} // verus!
