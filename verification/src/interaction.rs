//! The interaction phase of a tick: ants pick items up, put them down and
//! bite them loose.

use vstd::prelude::*;
use vstd::arithmetic::power2::{lemma2_to64, lemma_pow2_strictly_increases, lemma_pow2_unfold, pow2};
use crate::ant::Ant;
use crate::grid::cells_of;
use crate::item::{Item, ItemType};
use crate::model::BoardView;

verus! {

/// How many of `items` lie on cell `c` and are of kind `kind`.
pub open spec fn count_like(items: Seq<Item>, c: (int, int), kind: ItemType) -> nat
    decreases items.len(),
{
    if items.len() == 0 {
        0
    } else {
        count_like(items.drop_last(), c, kind) + if items.last().like(c, kind) {
            1nat
        } else {
            0nat
        }
    }
}

/// The index of the first of `items` that lies on cell `c`.
pub open spec fn first_at(items: Seq<Item>, c: (int, int)) -> Option<int>
    decreases items.len(),
{
    if items.len() == 0 {
        None
    } else if items[0].at(c) {
        Some(0)
    } else {
        match first_at(items.drop_first(), c) {
            Some(j) => Some(j + 1),
            None => None,
        }
    }
}

/// Going through `cells` in order, the number of items of kind `kind` on the
/// first cell that holds any; 0 when none of the cells does.
pub open spec fn first_crowd(items: Seq<Item>, cells: Seq<(int, int)>, kind: ItemType) -> nat
    decreases cells.len(),
{
    if cells.len() == 0 {
        0
    } else if count_like(items, cells[0], kind) > 0 {
        count_like(items, cells[0], kind)
    } else {
        first_crowd(items, cells.drop_first(), kind)
    }
}

/// How firmly an item sticks when it is put down next to `crowd` items of its
/// kind: two to the power of `crowd` bites, or as many as a counter can hold
/// where that power does not fit.
pub open spec fn frozen_for(crowd: nat) -> usize {
    if pow2(crowd) <= usize::MAX {
        pow2(crowd) as usize
    } else {
        usize::MAX
    }
}

/// The board after ant `i` has taken its turn in the interaction phase.
///
/// A loaded ant looks at the cells around it, in order. On the first one that
/// holds items of the kind it carries it puts its load down, on its own cell
/// and not on that neighbor; the more such items lie there, the firmer the new
/// item sticks. An ant with empty jaws examines the first item on its cell: a
/// loose one it picks up, a stuck one it bites, and the bitten item goes to
/// the end of the board's list.
pub open spec fn visit(b: BoardView, i: int) -> BoardView {
    let ant = b.ants[i];
    match ant.carrying_item {
        Some(held) => {
            let crowd = first_crowd(b.items, ant.surroundings(), held.item_type);
            if crowd > 0 {
                let dropped = Item {
                    x: ant.x,
                    y: ant.y,
                    freeze_time_left: frozen_for(crowd),
                    item_type: held.item_type,
                };
                BoardView {
                    items: b.items.push(dropped),
                    ants: b.ants.update(i, Ant { carrying_item: None, ..ant }),
                    ..b
                }
            } else {
                b
            }
        },
        None => match first_at(b.items, ant.cell()) {
            Some(j) => {
                let found = b.items[j];
                if found.freeze_time_left == 0 {
                    BoardView {
                        items: b.items.remove(j),
                        ants: b.ants.update(i, Ant { carrying_item: Some(found), ..ant }),
                        ..b
                    }
                } else {
                    BoardView { items: b.items.remove(j).push(found.bitten()), ..b }
                }
            },
            None => b,
        },
    }
}

/// The board after the first `n` ants have taken their turns, one after the
/// other, each seeing what the ants before it left behind.
pub open spec fn interact_first(b: BoardView, n: nat) -> BoardView
    decreases n,
{
    if n == 0 {
        b
    } else {
        visit(interact_first(b, (n - 1) as nat), n - 1)
    }
}

/// The board after a whole interaction phase.
pub open spec fn interact(b: BoardView) -> BoardView {
    interact_first(b, b.ants.len())
}

/// Whether `j` is the index of the first of `items` on cell `c`.
pub open spec fn is_first_at(items: Seq<Item>, c: (int, int), j: int) -> bool {
    &&& 0 <= j < items.len()
    &&& items[j].at(c)
    &&& forall|k: int| 0 <= k < j ==> !(#[trigger] items[k]).at(c)
}

/// [`first_at`] finds the smallest index of an item on the cell, and nothing
/// only where no item lies on it.
pub proof fn lemma_first_at(items: Seq<Item>, c: (int, int))
    ensures
        match first_at(items, c) {
            Some(j) => is_first_at(items, c, j),
            None => forall|k: int| 0 <= k < items.len() ==> !(#[trigger] items[k]).at(c),
        },
    decreases items.len(),
{
    if items.len() > 0 && !items[0].at(c) {
        let rest = items.drop_first();
        lemma_first_at(rest, c);
        match first_at(rest, c) {
            Some(j) => {
                assert forall|k: int| 0 <= k < j + 1 implies !(#[trigger] items[k]).at(c) by {
                    if k > 0 {
                        assert(items[k] == rest[k - 1]);
                    }
                }
            },
            None => {
                assert forall|k: int| 0 <= k < items.len() implies !(#[trigger] items[k]).at(c) by {
                    if k > 0 {
                        assert(items[k] == rest[k - 1]);
                    }
                }
            },
        }
    }
}

/// One turn leaves every item and every ant on the grid.
pub proof fn lemma_visit_wf(b: BoardView, i: int)
    requires
        b.wf(),
        0 <= i < b.ants.len(),
    ensures
        visit(b, i).wf(),
        visit(b, i).ants.len() == b.ants.len(),
        visit(b, i).width == b.width,
        visit(b, i).height == b.height,
{
    let ant = b.ants[i];
    lemma_first_at(b.items, ant.cell());
}

/// How many of `items` lie on cell `(x, y)` and are of kind `kind`.
pub fn count_items_like(items: &Vec<Item>, x: usize, y: usize, kind: ItemType) -> (n: usize)
    ensures
        n == count_like(items@, (x as int, y as int), kind),
{
    let ghost c = (x as int, y as int);
    let mut n: usize = 0;
    let mut k: usize = 0;
    while k < items.len()
        invariant
            k <= items.len(),
            n <= k,
            n == count_like(items@.take(k as int), c, kind),
            c == (x as int, y as int),
        decreases items.len() - k,
    {
        assert(items@.take(k + 1).drop_last() =~= items@.take(k as int));
        let item: Item = items[k];
        if item.x == x && item.y == y && item.item_type == kind {
            n += 1;
        }
        k += 1;
    }
    assert(items@.take(k as int) =~= items@);
    n
}

/// Where in `items` the first one on cell `(x, y)` is.
pub fn find_item_at(items: &Vec<Item>, x: usize, y: usize) -> (found: Option<usize>)
    ensures
        match found {
            Some(j) => first_at(items@, (x as int, y as int)) == Some(j as int),
            None => first_at(items@, (x as int, y as int)) is None,
        },
{
    let ghost c = (x as int, y as int);
    let mut k: usize = 0;
    while k < items.len()
        invariant
            k <= items.len(),
            c == (x as int, y as int),
            forall|j: int| 0 <= j < k ==> !(#[trigger] items@[j]).at(c),
        decreases items.len() - k,
    {
        let item: Item = items[k];
        if item.x == x && item.y == y {
            proof {
                lemma_first_at(items@, c);
            }
            return Some(k);
        }
        k += 1;
    }
    proof {
        lemma_first_at(items@, c);
    }
    None
}

/// Going through `cells` in order, the number of items of kind `kind` on the
/// first cell that holds any; 0 when none of the cells does.
pub fn count_on_first_match(items: &Vec<Item>, cells: &Vec<(usize, usize)>, kind: ItemType) -> (n:
    usize)
    ensures
        n == first_crowd(items@, cells_of(cells@), kind),
{
    let ghost all = cells_of(cells@);
    assert(all.skip(0) =~= all);
    let mut k: usize = 0;
    while k < cells.len()
        invariant
            k <= cells.len(),
            all == cells_of(cells@),
            first_crowd(items@, all, kind) == first_crowd(items@, all.skip(k as int), kind),
        decreases cells.len() - k,
    {
        let cell: (usize, usize) = cells[k];
        assert(all.skip(k as int).drop_first() =~= all.skip(k + 1));
        let n: usize = count_items_like(items, cell.0, cell.1, kind);
        if n > 0 {
            return n;
        }
        k += 1;
    }
    0
}

/// How firmly an item sticks that is put down next to `crowd` items of its
/// kind.
pub fn freeze_time_for(crowd: usize) -> (t: usize)
    ensures
        t == frozen_for(crowd as nat),
{
    proof {
        lemma2_to64();
    }
    let mut t: usize = 1;
    let mut k: usize = 0;
    while k < crowd
        invariant
            k <= crowd,
            t == pow2(k as nat),
        decreases crowd - k,
    {
        proof {
            lemma_pow2_unfold((k + 1) as nat);
        }
        if t > usize::MAX / 2 {
            proof {
                if k + 1 < crowd {
                    lemma_pow2_strictly_increases((k + 1) as nat, crowd as nat);
                }
            }
            return usize::MAX;
        }
        t = t * 2;
        k += 1;
    }
    t
}

} // verus!
