//! The ants.

use vstd::prelude::*;
use crate::grid::{cells_of, neighbor_cells, neighbors};
use crate::item::Item;

verus! {

/// An ant on cell `(x, y)` of a grid of `max_x` columns and `max_y` rows.
/// It carries at most one item.
#[derive(Debug, Copy, Clone)]
pub struct Ant {
    pub x: usize,
    pub y: usize,
    pub max_x: usize,
    pub max_y: usize,
    pub carrying_item: Option<Item>,
}

impl Ant {
    /// An ant with empty jaws.
    pub fn new(x: usize, y: usize, max_x: usize, max_y: usize) -> (ant: Self)
        ensures
            ant == (Ant { x, y, max_x, max_y, carrying_item: None }),
    {
        Self { x, y, max_x, max_y, carrying_item: None }
    }

    /// The cell the ant stands on.
    pub open spec fn cell(self) -> (int, int) {
        (self.x as int, self.y as int)
    }

    /// The six cells around the ant.
    pub open spec fn surroundings(self) -> Seq<(int, int)> {
        neighbor_cells(self.x as int, self.y as int, self.max_x as int, self.max_y as int)
    }

    /// The same ant on cell `c`.
    pub open spec fn moved_to(self, c: (int, int)) -> Ant {
        Ant { x: c.0 as usize, y: c.1 as usize, ..self }
    }

    /// The six cells around the ant, in the order of [`neighbor_cells`].
    pub fn get_neighbors(&self) -> (cells: Vec<(usize, usize)>)
        requires
            self.max_x > 0,
            self.max_y > 0,
        ensures
            cells_of(cells@) == self.surroundings(),
            cells@.len() == 6,
            forall|k: int|
                0 <= k < 6 ==> (#[trigger] cells@[k]).0 < self.max_x && cells@[k].1 < self.max_y,
    {
        neighbors(self.x, self.y, self.max_x, self.max_y)
    }
}

} // verus!
