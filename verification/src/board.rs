//! The board: the grid with everything on it, and what a tick does to it.

use vstd::prelude::*;
use vstd::seq_lib::to_multiset_contains;
use rand::rngs::ThreadRng;
use crate::ant::Ant;
use crate::grid::{cells_of, lemma_neighbors_on_grid};
use crate::item::{Item, ItemType};
use crate::interaction::{
    count_on_first_match, find_item_at, freeze_time_for, interact, interact_first, lemma_first_at,
    lemma_visit_wf, visit,
};
use crate::laws::{census, lemma_interact_keeps_census, lemma_moved_keeps_census};
use crate::model::BoardView;
use crate::movement::{first_open, hop, is_walk, lemma_hop_is_allowed, moved, wandered};
use crate::random::{random_below, shuffle_cells};

verus! {

/// A grid of `max_x` columns and `max_y` rows, the items lying on it and the
/// ants walking over it.
pub struct Board {
    max_x: usize,
    max_y: usize,
    items: Vec<Item>,
    ants: Vec<Ant>,
}

impl View for Board {
    type V = BoardView;

    closed spec fn view(&self) -> BoardView {
        BoardView {
            width: self.max_x as nat,
            height: self.max_y as nat,
            items: self.items@,
            ants: self.ants@,
        }
    }
}

impl Board {
    /// Every item and every ant is on the grid, and every ant knows the
    /// grid's size.
    pub open spec fn wf(&self) -> bool {
        self@.wf()
    }

    /// An empty board of `x` columns and `y` rows.
    pub fn new(x: usize, y: usize) -> (board: Self)
        ensures
            board.wf(),
            board@ == (BoardView {
                width: x as nat,
                height: y as nat,
                items: Seq::empty(),
                ants: Seq::empty(),
            }),
    {
        Self { max_x: x, max_y: y, items: Vec::new(), ants: Vec::new() }
    }

    /// The number of columns.
    pub fn width(&self) -> (w: usize)
        ensures
            w == self@.width,
    {
        self.max_x
    }

    /// The number of rows.
    pub fn height(&self) -> (h: usize)
        ensures
            h == self@.height,
    {
        self.max_y
    }

    /// The items lying on the board, oldest first.
    pub fn items(&self) -> (items: &Vec<Item>)
        ensures
            items@ == self@.items,
    {
        &self.items
    }

    /// The ants, in the order in which they take turns.
    pub fn ants(&self) -> (ants: &Vec<Ant>)
        ensures
            ants@ == self@.ants,
    {
        &self.ants
    }

    /// Puts an ant with empty jaws on cell `(x, y)`. A cell off the grid is
    /// turned down, and the board stays as it is.
    pub fn add_ant(&mut self, x: usize, y: usize) -> (added: bool)
        requires
            old(self).wf(),
        ensures
            final(self).wf(),
            added == (x < old(self)@.width && y < old(self)@.height),
            added ==> final(self)@ == (BoardView {
                ants: old(self)@.ants.push(
                    Ant {
                        x,
                        y,
                        max_x: old(self)@.width as usize,
                        max_y: old(self)@.height as usize,
                        carrying_item: None,
                    },
                ),
                ..old(self)@
            }),
            !added ==> final(self)@ == old(self)@,
    {
        if x < self.max_x && y < self.max_y {
            self.ants.push(Ant::new(x, y, self.max_x, self.max_y));
            true
        } else {
            false
        }
    }

    /// Lays `item` on the board. An item whose cell is off the grid is turned
    /// down, and the board stays as it is.
    pub fn add_item(&mut self, item: Item) -> (added: bool)
        requires
            old(self).wf(),
        ensures
            final(self).wf(),
            added == (item.x < old(self)@.width && item.y < old(self)@.height),
            added ==> final(self)@ == (BoardView {
                items: old(self)@.items.push(item),
                ..old(self)@
            }),
            !added ==> final(self)@ == old(self)@,
    {
        if item.x < self.max_x && item.y < self.max_y {
            self.items.push(item);
            true
        } else {
            false
        }
    }

    /// Scatters ants and items over the board, at cells drawn from `rng`: an
    /// ant with empty jaws for every [`CELLS_PER_ANT`] cells, then a loose
    /// item for every [`CELLS_PER_ITEM`] cells, sticks and leaves in turn.
    pub fn populate(&mut self, rng: &mut ThreadRng)
        requires
            old(self).wf(),
            old(self)@.width * old(self)@.height <= usize::MAX,
        ensures
            final(self).wf(),
            final(self)@.width == old(self)@.width,
            final(self)@.height == old(self)@.height,
            final(self)@.ants.len() == old(self)@.ants.len() + (old(self)@.width * old(
                self,
            )@.height) / (CELLS_PER_ANT as nat),
            final(self)@.ants.take(old(self)@.ants.len() as int) == old(self)@.ants,
            forall|k: int|
                old(self)@.ants.len() <= k < final(self)@.ants.len() ==> (
                #[trigger] final(self)@.ants[k]).carrying_item is None,
            final(self)@.items.len() == old(self)@.items.len() + (old(self)@.width * old(
                self,
            )@.height) / (CELLS_PER_ITEM as nat),
            final(self)@.items.take(old(self)@.items.len() as int) == old(self)@.items,
            forall|k: int|
                old(self)@.items.len() <= k < final(self)@.items.len() ==> {
                    &&& (#[trigger] final(self)@.items[k]).freeze_time_left == 0
                    &&& final(self)@.items[k].item_type == nth_kind(k - old(self)@.items.len())
                },
    {
        let ghost start = self@;
        let cells: usize = self.max_x * self.max_y;
        let ant_count: usize = cells / CELLS_PER_ANT;
        let item_count: usize = cells / CELLS_PER_ITEM;
        let mut n: usize = 0;
        while n < ant_count
            invariant
                n <= ant_count,
                cells == self.max_x * self.max_y,
                ant_count == cells / CELLS_PER_ANT,
                self.wf(),
                self@.width == start.width,
                self@.height == start.height,
                self@.items == start.items,
                self@.ants.len() == start.ants.len() + n,
                self@.ants.take(start.ants.len() as int) == start.ants,
                forall|k: int|
                    start.ants.len() <= k < self@.ants.len() ==> (
                    #[trigger] self@.ants[k]).carrying_item is None,
            decreases ant_count - n,
        {
            assert(self.max_x > 0 && self.max_y > 0) by (nonlinear_arith)
                requires
                    self.max_x * self.max_y > 0,
            ;
            let x: usize = random_below(rng, self.max_x);
            let y: usize = random_below(rng, self.max_y);
            let ghost before = self.ants@;
            self.ants.push(Ant::new(x, y, self.max_x, self.max_y));
            assert(self.ants@.take(start.ants.len() as int) =~= before.take(
                start.ants.len() as int,
            ));
            n += 1;
        }
        let ghost ants = self@.ants;
        let mut n: usize = 0;
        while n < item_count
            invariant
                n <= item_count,
                cells == self.max_x * self.max_y,
                item_count == cells / CELLS_PER_ITEM,
                self.wf(),
                self@.width == start.width,
                self@.height == start.height,
                self@.ants == ants,
                self@.items.len() == start.items.len() + n,
                self@.items.take(start.items.len() as int) == start.items,
                forall|k: int|
                    start.items.len() <= k < self@.items.len() ==> {
                        &&& (#[trigger] self@.items[k]).freeze_time_left == 0
                        &&& self@.items[k].item_type == nth_kind(k - start.items.len())
                    },
            decreases item_count - n,
        {
            assert(self.max_x > 0 && self.max_y > 0) by (nonlinear_arith)
                requires
                    self.max_x * self.max_y > 0,
            ;
            let x: usize = random_below(rng, self.max_x);
            let y: usize = random_below(rng, self.max_y);
            let item_type = if n % 2 == 0 {
                ItemType::Stick
            } else {
                ItemType::Leaf
            };
            let ghost before = self.items@;
            self.items.push(Item::new(x, y, 0, item_type));
            assert(self.items@.take(start.items.len() as int) =~= before.take(
                start.items.len() as int,
            ));
            n += 1;
        }
    }

    /// The turn of ant `i` in the interaction phase.
    fn take_turn(&mut self, i: usize)
        requires
            old(self).wf(),
            i < old(self)@.ants.len(),
        ensures
            final(self)@ == visit(old(self)@, i as int),
            final(self).wf(),
    {
        proof {
            lemma_visit_wf(self@, i as int);
        }
        let ant: Ant = self.ants[i];
        match ant.carrying_item {
            Some(held) => {
                let cells = ant.get_neighbors();
                let crowd: usize = count_on_first_match(&self.items, &cells, held.item_type);
                if crowd > 0 {
                    let freeze_time_left: usize = freeze_time_for(crowd);
                    self.items.push(Item::new(ant.x, ant.y, freeze_time_left, held.item_type));
                    self.ants.set(i, Ant { carrying_item: None, ..ant });
                }
            },
            None => {
                match find_item_at(&self.items, ant.x, ant.y) {
                    Some(j) => {
                        proof {
                            lemma_first_at(self.items@, ant.cell());
                        }
                        let mut item: Item = self.items.remove(j);
                        if item.freeze_time_left == 0 {
                            self.ants.set(i, Ant { carrying_item: Some(item), ..ant });
                        } else {
                            item.freeze_time_left = item.freeze_time_left - 1;
                            self.items.push(item);
                        }
                    },
                    None => {},
                }
            },
        }
    }

    /// The interaction phase of a tick: every ant, in order, either puts
    /// down what it carries or examines what it stands on.
    pub fn pick_or_leave(&mut self)
        requires
            old(self).wf(),
        ensures
            final(self).wf(),
            final(self)@ == interact(old(self)@),
            forall|kind: ItemType| census(final(self)@, kind) == census(old(self)@, kind),
    {
        let ghost start = self@;
        let n: usize = self.ants.len();
        let mut i: usize = 0;
        while i < n
            invariant
                i <= n,
                n == start.ants.len(),
                self.wf(),
                self@.ants.len() == n,
                self@ == interact_first(start, i as nat),
            decreases n - i,
        {
            self.take_turn(i);
            proof {
                lemma_visit_wf(interact_first(start, i as nat), i as int);
            }
            i += 1;
        }
        proof {
            assert forall|kind: ItemType| census(self@, kind) == census(start, kind) by {
                lemma_interact_keeps_census(start, kind);
            }
        }
    }

    /// One hop of ant `i`, which tries the cells in `order`: it goes to the
    /// first one it may step onto, and stays where it is when there is none.
    /// Every cell in `order` must be one of the six around the ant.
    pub fn step_ant(&mut self, i: usize, order: &Vec<(usize, usize)>)
        requires
            old(self).wf(),
            i < old(self)@.ants.len(),
            forall|k: int|
                0 <= k < order@.len() ==> old(self)@.ants[i as int].surroundings().contains(
                    #[trigger] cells_of(order@)[k],
                ),
        ensures
            final(self).wf(),
            final(self)@ == (BoardView {
                ants: old(self)@.ants.update(
                    i as int,
                    hop(old(self)@.items, old(self)@.ants[i as int], cells_of(order@)),
                ),
                ..old(self)@
            }),
    {
        let ant: Ant = self.ants[i];
        let ghost all = cells_of(order@);
        let ghost before = self@;
        assert(all.skip(0) =~= all);
        let mut k: usize = 0;
        while k < order.len()
            invariant
                k <= order.len(),
                all == cells_of(order@),
                self@ == before,
                before == old(self)@,
                before.wf(),
                i < before.ants.len(),
                ant == before.ants[i as int],
                forall|m: int| 0 <= m < all.len() ==> ant.surroundings().contains(#[trigger] all[m]),
                first_open(before.items, ant, all) == first_open(
                    before.items,
                    ant,
                    all.skip(k as int),
                ),
            decreases order.len() - k,
        {
            let cell: (usize, usize) = order[k];
            assert(all.skip(k as int).drop_first() =~= all.skip(k + 1));
            let blocked: bool = ant.carrying_item.is_some() && find_item_at(
                &self.items,
                cell.0,
                cell.1,
            ).is_some();
            if !blocked {
                proof {
                    lemma_neighbors_on_grid(
                        ant.x as int,
                        ant.y as int,
                        ant.max_x as int,
                        ant.max_y as int,
                    );
                }
                self.ants.set(i, Ant { x: cell.0, y: cell.1, ..ant });
                return ;
            }
            k += 1;
        }
    }

    /// One tick: the interaction phase, and when every ant has had its turn,
    /// the movement phase.
    pub fn tick(&mut self, rng: &mut ThreadRng)
        requires
            old(self).wf(),
        ensures
            final(self).wf(),
            moved(interact(old(self)@), final(self)@, HOPS_PER_TICK as nat),
            forall|kind: ItemType| census(final(self)@, kind) == census(old(self)@, kind),
    {
        self.pick_or_leave();
        move_ant(self, rng);
    }
}

/// A board is populated with one ant for every so many cells.
pub const CELLS_PER_ANT: usize = 30;

/// A board is populated with one item for every so many cells.
pub const CELLS_PER_ITEM: usize = 5;

/// The kind of the `n`-th item that [`Board::populate`] lays down, counting
/// from 0: sticks and leaves take turns, a stick first.
pub open spec fn nth_kind(n: int) -> ItemType {
    if n % 2 == 0 {
        ItemType::Stick
    } else {
        ItemType::Leaf
    }
}

/// How many hops an ant makes in the movement phase of a tick.
pub const HOPS_PER_TICK: usize = 5;

/// The movement phase of a tick: every ant makes [`HOPS_PER_TICK`] hops. For
/// each hop it tries the six cells around it in an order drawn from `rng` and
/// goes to the first one it may step onto. No item moves.
pub fn move_ant(board: &mut Board, rng: &mut ThreadRng)
    requires
        old(board).wf(),
    ensures
        final(board).wf(),
        moved(old(board)@, final(board)@, HOPS_PER_TICK as nat),
        forall|kind: ItemType| census(final(board)@, kind) == census(old(board)@, kind),
{
    let ghost start = board@;
    let n: usize = board.ants.len();
    let mut i: usize = 0;
    while i < n
        invariant
            i <= n,
            n == start.ants.len(),
            board.wf(),
            board@.width == start.width,
            board@.height == start.height,
            board@.items == start.items,
            board@.ants.len() == n,
            forall|j: int|
                0 <= j < i ==> wandered(
                    start.items,
                    #[trigger] start.ants[j],
                    board@.ants[j],
                    HOPS_PER_TICK as nat,
                ),
            forall|j: int| i <= j < n ==> board@.ants[j] == #[trigger] start.ants[j],
        decreases n - i,
    {
        let ghost first = start.ants[i as int];
        let ghost mut path = seq![first.cell()];
        let ghost others = board@.ants;
        let mut step: usize = 0;
        while step < HOPS_PER_TICK
            invariant
                step <= HOPS_PER_TICK,
                i < n,
                n == start.ants.len(),
                first == start.ants[i as int],
                board.wf(),
                board@.width == start.width,
                board@.height == start.height,
                board@.items == start.items,
                board@.ants.len() == n,
                forall|j: int| 0 <= j < n && j != i ==> board@.ants[j] == #[trigger] others[j],
                others.len() == n,
                path.len() == step + 1,
                is_walk(start.items, first, path),
                board@.ants[i as int] == first.moved_to(path.last()),
            decreases HOPS_PER_TICK - step,
        {
            let ant: Ant = board.ants[i];
            let mut order: Vec<(usize, usize)> = ant.get_neighbors();
            let ghost around = order@;
            shuffle_cells(&mut order, rng);
            proof {
                let tried = cells_of(order@);
                assert forall|k: int| 0 <= k < tried.len() implies ant.surroundings().contains(
                    #[trigger] tried[k],
                ) by {
                    to_multiset_contains(order@, order@[k]);
                    to_multiset_contains(around, order@[k]);
                    let m = choose|m: int| 0 <= m < around.len() && around[m] == order@[k];
                    assert(cells_of(around)[m] == tried[k]);
                }
                assert forall|k: int| 0 <= k < ant.surroundings().len() implies tried.contains(
                    #[trigger] ant.surroundings()[k],
                ) by {
                    to_multiset_contains(around, around[k]);
                    to_multiset_contains(order@, around[k]);
                    let m = choose|m: int| 0 <= m < order@.len() && order@[m] == around[k];
                    assert(tried[m] == cells_of(around)[k]);
                }
                lemma_hop_is_allowed(start.items, ant, tried);
            }
            board.step_ant(i, &order);
            proof {
                let to = first_open(start.items, ant, cells_of(order@)).unwrap_or(ant.cell());
                lemma_neighbors_on_grid(
                    ant.x as int,
                    ant.y as int,
                    ant.max_x as int,
                    ant.max_y as int,
                );
                path = path.push(to);
            }
            step += 1;
        }
        i += 1;
    }
    proof {
        assert forall|kind: ItemType| census(board@, kind) == census(start, kind) by {
            lemma_moved_keeps_census(start, board@, HOPS_PER_TICK as nat, kind);
        }
    }
}

} // verus!
