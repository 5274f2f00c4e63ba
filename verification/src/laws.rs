//! What holds of the rules whatever the board: no item appears or vanishes,
//! an item changes hands in one piece, and a stuck item takes its time.

use vstd::prelude::*;
use crate::ant::Ant;
use crate::grid::lemma_neighbors_on_grid;
use crate::interaction::{first_at, interact, interact_first, lemma_first_at, lemma_visit_wf, visit};
use crate::item::{Item, ItemType};
use crate::model::BoardView;
use crate::movement::{is_walk, may_hop, moved, wandered};

verus! {

proof fn lemma_interact_first_wf(b: BoardView, n: nat)
    requires
        b.wf(),
        n <= b.ants.len(),
    ensures
        interact_first(b, n).wf(),
        interact_first(b, n).ants.len() == b.ants.len(),
        interact_first(b, n).width == b.width,
        interact_first(b, n).height == b.height,
    decreases n,
{
    if n > 0 {
        lemma_interact_first_wf(b, (n - 1) as nat);
        lemma_visit_wf(interact_first(b, (n - 1) as nat), n - 1);
    }
}

/// Toroidal bound, interaction phase: where every item and every ant was on
/// the grid before the phase, every one is after it. The grid and the number
/// of ants stay the same.
pub proof fn lemma_interact_stays_on_grid(b: BoardView)
    requires
        b.wf(),
    ensures
        interact(b).wf(),
        interact(b).ants.len() == b.ants.len(),
        interact(b).width == b.width,
        interact(b).height == b.height,
{
    lemma_interact_first_wf(b, b.ants.len());
}

proof fn lemma_walk_stays_on_grid(items: Seq<Item>, ant: Ant, path: Seq<(int, int)>, k: int)
    requires
        ant.x < ant.max_x,
        ant.y < ant.max_y,
        is_walk(items, ant, path),
        0 <= k < path.len(),
    ensures
        0 <= path[k].0 < ant.max_x,
        0 <= path[k].1 < ant.max_y,
    decreases k,
{
    if k > 0 {
        lemma_walk_stays_on_grid(items, ant, path, k - 1);
        let from = ant.moved_to(path[k - 1]);
        assert(may_hop(items, from, path[k]));
        lemma_neighbors_on_grid(from.x as int, from.y as int, from.max_x as int, from.max_y as int);
    }
}

/// Toroidal bound, movement phase: where every item and every ant was on the
/// grid before the phase, every one is after it, wherever the ants went.
pub proof fn lemma_moved_stays_on_grid(before: BoardView, after: BoardView, hops: nat)
    requires
        before.wf(),
        moved(before, after, hops),
    ensures
        after.wf(),
{
    assert forall|i: int| 0 <= i < after.ants.len() implies after.fits(#[trigger] after.ants[i]) by {
        let ant = before.ants[i];
        assert(wandered(before.items, ant, after.ants[i], hops));
        let path = choose|path: Seq<(int, int)>|
            #![trigger is_walk(before.items, ant, path)]
            {
                &&& path.len() == hops + 1
                &&& is_walk(before.items, ant, path)
                &&& after.ants[i] == ant.moved_to(path.last())
            };
        lemma_walk_stays_on_grid(before.items, ant, path, path.len() - 1);
    }
}

/// How many of `items` are of kind `kind`.
pub open spec fn count_kind(items: Seq<Item>, kind: ItemType) -> nat
    decreases items.len(),
{
    if items.len() == 0 {
        0
    } else {
        count_kind(items.drop_last(), kind) + if items.last().item_type == kind {
            1nat
        } else {
            0nat
        }
    }
}

/// Whether `ant` carries an item of kind `kind`.
pub open spec fn carries(ant: Ant, kind: ItemType) -> bool {
    match ant.carrying_item {
        Some(held) => held.item_type == kind,
        None => false,
    }
}

/// How many of `ants` carry an item of kind `kind`.
pub open spec fn count_carried(ants: Seq<Ant>, kind: ItemType) -> nat
    decreases ants.len(),
{
    if ants.len() == 0 {
        0
    } else {
        count_carried(ants.drop_last(), kind) + if carries(ants.last(), kind) {
            1nat
        } else {
            0nat
        }
    }
}

/// How many items of kind `kind` there are in all, on the board and in the
/// jaws of ants.
pub open spec fn census(b: BoardView, kind: ItemType) -> nat {
    count_kind(b.items, kind) + count_carried(b.ants, kind)
}

proof fn lemma_count_kind_push(items: Seq<Item>, item: Item, kind: ItemType)
    ensures
        count_kind(items.push(item), kind) == count_kind(items, kind) + if item.item_type == kind {
            1nat
        } else {
            0nat
        },
{
    assert(items.push(item).drop_last() =~= items);
}

proof fn lemma_count_kind_remove(items: Seq<Item>, j: int, kind: ItemType)
    requires
        0 <= j < items.len(),
    ensures
        count_kind(items, kind) == count_kind(items.remove(j), kind) + if items[j].item_type
            == kind {
            1nat
        } else {
            0nat
        },
    decreases items.len(),
{
    if j == items.len() - 1 {
        assert(items.remove(j) =~= items.drop_last());
    } else {
        lemma_count_kind_remove(items.drop_last(), j, kind);
        assert(items.remove(j).drop_last() =~= items.drop_last().remove(j));
    }
}

proof fn lemma_count_carried_update(ants: Seq<Ant>, i: int, ant: Ant, kind: ItemType)
    requires
        0 <= i < ants.len(),
    ensures
        count_carried(ants.update(i, ant), kind) + if carries(ants[i], kind) {
            1nat
        } else {
            0nat
        } == count_carried(ants, kind) + if carries(ant, kind) {
            1nat
        } else {
            0nat
        },
    decreases ants.len(),
{
    if i == ants.len() - 1 {
        assert(ants.update(i, ant).drop_last() =~= ants.drop_last());
    } else {
        lemma_count_carried_update(ants.drop_last(), i, ant, kind);
        assert(ants.update(i, ant).drop_last() =~= ants.drop_last().update(i, ant));
    }
}

proof fn lemma_count_carried_same_loads(before: Seq<Ant>, after: Seq<Ant>, kind: ItemType)
    requires
        before.len() == after.len(),
        forall|i: int|
            0 <= i < before.len() ==> (#[trigger] after[i]).carrying_item
                == before[i].carrying_item,
    ensures
        count_carried(after, kind) == count_carried(before, kind),
    decreases before.len(),
{
    if before.len() > 0 {
        lemma_count_carried_same_loads(before.drop_last(), after.drop_last(), kind);
    }
}

/// The turn of one ant neither makes nor loses an item of any kind: what it
/// picks up leaves the board, what it puts down leaves its jaws, and a bitten
/// item stays.
pub proof fn lemma_visit_keeps_census(b: BoardView, i: int, kind: ItemType)
    requires
        0 <= i < b.ants.len(),
    ensures
        census(visit(b, i), kind) == census(b, kind),
{
    let ant = b.ants[i];
    match ant.carrying_item {
        Some(held) => {
            let after = visit(b, i);
            if after != b {
                lemma_count_kind_push(b.items, after.items.last(), kind);
                lemma_count_carried_update(b.ants, i, Ant { carrying_item: None, ..ant }, kind);
            }
        },
        None => {
            lemma_first_at(b.items, ant.cell());
            match first_at(b.items, ant.cell()) {
                Some(j) => {
                    let found = b.items[j];
                    lemma_count_kind_remove(b.items, j, kind);
                    if found.freeze_time_left == 0 {
                        lemma_count_carried_update(
                            b.ants,
                            i,
                            Ant { carrying_item: Some(found), ..ant },
                            kind,
                        );
                    } else {
                        lemma_count_kind_push(b.items.remove(j), found.bitten(), kind);
                    }
                },
                None => {},
            }
        },
    }
}

proof fn lemma_interact_first_keeps_census(b: BoardView, n: nat, kind: ItemType)
    requires
        n <= b.ants.len(),
    ensures
        census(interact_first(b, n), kind) == census(b, kind),
        interact_first(b, n).ants.len() == b.ants.len(),
    decreases n,
{
    if n > 0 {
        lemma_interact_first_keeps_census(b, (n - 1) as nat, kind);
        lemma_visit_keeps_census(interact_first(b, (n - 1) as nat), n - 1, kind);
    }
}

/// Conservation: a whole interaction phase neither makes nor loses an item of
/// any kind. As many leaves, and as many sticks, are on the board or in the
/// jaws of ants after it as before.
pub proof fn lemma_interact_keeps_census(b: BoardView, kind: ItemType)
    ensures
        census(interact(b), kind) == census(b, kind),
{
    lemma_interact_first_keeps_census(b, b.ants.len(), kind);
}

/// The movement phase neither makes nor loses an item: the items lie where
/// they lay, and every ant carries what it carried.
pub proof fn lemma_moved_keeps_census(before: BoardView, after: BoardView, hops: nat, kind: ItemType)
    requires
        moved(before, after, hops),
    ensures
        census(after, kind) == census(before, kind),
{
    assert forall|i: int| 0 <= i < before.ants.len() implies (#[trigger] after.ants[i]).carrying_item
        == before.ants[i].carrying_item by {
        assert(wandered(before.items, before.ants[i], after.ants[i], hops));
    }
    lemma_count_carried_same_loads(before.ants, after.ants, kind);
}

/// An item changes hands in one piece: when an ant with empty jaws ends its
/// turn carrying an item, that item was loose and lay on the ant's cell, and
/// the board now holds one fewer of it and everything else as before.
pub proof fn lemma_pickup_takes_from_board(b: BoardView, i: int)
    requires
        0 <= i < b.ants.len(),
        b.ants[i].carrying_item is None,
        visit(b, i).ants[i].carrying_item is Some,
    ensures
        ({
            let taken = visit(b, i).ants[i].carrying_item->0;
            &&& taken.freeze_time_left == 0
            &&& taken.at(b.ants[i].cell())
            &&& b.items.to_multiset().count(taken) > 0
            &&& visit(b, i).items.to_multiset() == b.items.to_multiset().remove(taken)
            &&& visit(b, i).items.len() + 1 == b.items.len()
        }),
{
    let ant = b.ants[i];
    lemma_first_at(b.items, ant.cell());
    let j = first_at(b.items, ant.cell())->0;
    b.items.to_multiset_ensures();
    assert(b.items.contains(b.items[j]));
}

/// What an ant puts down it no longer carries: when a loaded ant ends its
/// turn with empty jaws, the board holds one more item than before, of the
/// kind the ant carried, on the ant's cell, and everything else as before.
pub proof fn lemma_drop_lands_on_board(b: BoardView, i: int)
    requires
        0 <= i < b.ants.len(),
        b.ants[i].carrying_item is Some,
        visit(b, i).ants[i].carrying_item is None,
    ensures
        ({
            let held = b.ants[i].carrying_item->0;
            let dropped = visit(b, i).items.last();
            &&& visit(b, i).items == b.items.push(dropped)
            &&& dropped.like(b.ants[i].cell(), held.item_type)
        }),
{
}

/// Whether `items[j]` is the only one of `items` on its cell.
pub open spec fn lone_at(items: Seq<Item>, j: int) -> bool {
    &&& 0 <= j < items.len()
    &&& forall|k: int|
        0 <= k < items.len() && k != j ==> !(#[trigger] items[k]).at(
            (items[j].x as int, items[j].y as int),
        )
}

/// The board after ant `i` has examined its cell `n` times in a row, nothing
/// else happening in between.
pub open spec fn visits(b: BoardView, i: int, n: nat) -> BoardView
    decreases n,
{
    if n == 0 {
        b
    } else {
        visit(visits(b, i, (n - 1) as nat), i)
    }
}

/// The board after `n` interaction phases in a row, no ant moving in between.
pub open spec fn rounds(b: BoardView, n: nat) -> BoardView
    decreases n,
{
    if n == 0 {
        b
    } else {
        interact(rounds(b, (n - 1) as nat))
    }
}

proof fn lemma_lone_is_first(items: Seq<Item>, j: int)
    requires
        lone_at(items, j),
    ensures
        first_at(items, (items[j].x as int, items[j].y as int)) == Some(j),
{
    let c = (items[j].x as int, items[j].y as int);
    lemma_first_at(items, c);
}

/// Freeze monotonicity: an item that lies alone on its cell and is stuck for
/// `freeze_time_left` more bites is still on the board, one bite looser each
/// time, after each of the first `freeze_time_left` examinations by an ant
/// with empty jaws. The ant is still empty-handed then.
pub proof fn lemma_stuck_item_stays(b: BoardView, i: int, j: int, n: nat)
    requires
        0 <= i < b.ants.len(),
        b.ants[i].carrying_item is None,
        lone_at(b.items, j),
        b.items[j].at(b.ants[i].cell()),
        1 <= n <= b.items[j].freeze_time_left,
    ensures
        visits(b, i, n) == (BoardView {
            items: b.items.remove(j).push(
                Item { freeze_time_left: (b.items[j].freeze_time_left - n) as usize, ..b.items[j] },
            ),
            ..b
        }),
    decreases n,
{
    let found = b.items[j];
    if n == 1 {
        lemma_lone_is_first(b.items, j);
        assert(visits(b, i, 0) == b);
    } else {
        lemma_stuck_item_stays(b, i, j, (n - 1) as nat);
        let before = visits(b, i, (n - 1) as nat);
        let last = before.items.len() - 1;
        assert(before.items[last] == Item {
            freeze_time_left: (found.freeze_time_left - (n - 1)) as usize,
            ..found
        });
        assert forall|k: int| 0 <= k < before.items.len() && k != last implies !(
        #[trigger] before.items[k]).at((found.x as int, found.y as int)) by {
            if k < j {
                assert(before.items[k] == b.items[k]);
            } else {
                assert(before.items[k] == b.items[k + 1]);
            }
        }
        lemma_lone_is_first(before.items, last);
        assert(before.items.remove(last) =~= b.items.remove(j));
    }
}

/// Freeze monotonicity, the other half: the examination after those, the one
/// numbered `freeze_time_left + 1`, is the first to pick the item up.
pub proof fn lemma_loose_item_goes(b: BoardView, i: int, j: int)
    requires
        0 <= i < b.ants.len(),
        b.ants[i].carrying_item is None,
        lone_at(b.items, j),
        b.items[j].at(b.ants[i].cell()),
    ensures
        visits(b, i, (b.items[j].freeze_time_left + 1) as nat) == (BoardView {
            items: b.items.remove(j),
            ants: b.ants.update(
                i,
                Ant {
                    carrying_item: Some(Item { freeze_time_left: 0, ..b.items[j] }),
                    ..b.ants[i]
                },
            ),
            ..b
        }),
{
    let found = b.items[j];
    let n = found.freeze_time_left as nat;
    if n == 0 {
        lemma_lone_is_first(b.items, j);
    } else {
        lemma_stuck_item_stays(b, i, j, n);
        let before = visits(b, i, n);
        let last = before.items.len() - 1;
        assert forall|k: int| 0 <= k < before.items.len() && k != last implies !(
        #[trigger] before.items[k]).at((found.x as int, found.y as int)) by {
            if k < j {
                assert(before.items[k] == b.items[k]);
            } else {
                assert(before.items[k] == b.items[k + 1]);
            }
        }
        lemma_lone_is_first(before.items, last);
        assert(before.items.remove(last) =~= b.items.remove(j));
    }
}

/// Where a single ant lives on the board, an interaction phase is one
/// examination by that ant, so `n` phases in a row are `n` examinations.
pub proof fn lemma_rounds_of_one_ant(b: BoardView, n: nat)
    requires
        b.ants.len() == 1,
    ensures
        rounds(b, n) == visits(b, 0, n),
        rounds(b, n).ants.len() == 1,
    decreases n,
{
    if n > 0 {
        lemma_rounds_of_one_ant(b, (n - 1) as nat);
        let before = rounds(b, (n - 1) as nat);
        assert(interact_first(before, 1) == visit(interact_first(before, 0), 0));
        lemma_first_at(before.items, before.ants[0].cell());
    }
}

/// How many of `ants` carry an item.
pub open spec fn count_loaded(ants: Seq<Ant>) -> nat
    decreases ants.len(),
{
    if ants.len() == 0 {
        0
    } else {
        count_loaded(ants.drop_last()) + if ants.last().carrying_item is Some {
            1nat
        } else {
            0nat
        }
    }
}

/// How many items there are in all, on the board and in the jaws of ants.
pub open spec fn total(b: BoardView) -> nat {
    b.items.len() + count_loaded(b.ants)
}

proof fn lemma_kinds_add_up(items: Seq<Item>)
    ensures
        count_kind(items, ItemType::Leaf) + count_kind(items, ItemType::Stick) == items.len(),
    decreases items.len(),
{
    if items.len() > 0 {
        lemma_kinds_add_up(items.drop_last());
    }
}

proof fn lemma_loads_add_up(ants: Seq<Ant>)
    ensures
        count_carried(ants, ItemType::Leaf) + count_carried(ants, ItemType::Stick) == count_loaded(
            ants,
        ),
    decreases ants.len(),
{
    if ants.len() > 0 {
        lemma_loads_add_up(ants.drop_last());
    }
}

/// Every item is a leaf or a stick, so the leaves and the sticks together
/// are all the items there are.
pub proof fn lemma_census_adds_up(b: BoardView)
    ensures
        census(b, ItemType::Leaf) + census(b, ItemType::Stick) == total(b),
{
    lemma_kinds_add_up(b.items);
    lemma_loads_add_up(b.ants);
}

/// Conservation, in a word: a whole interaction phase leaves the number of
/// items, on the board and in jaws together, as it was. Each item that left
/// the board is in the jaws of an ant, and each that left an ant's jaws lies
/// on the board.
pub proof fn lemma_interact_keeps_total(b: BoardView)
    ensures
        total(interact(b)) == total(b),
{
    lemma_census_adds_up(b);
    lemma_census_adds_up(interact(b));
    lemma_interact_keeps_census(b, ItemType::Leaf);
    lemma_interact_keeps_census(b, ItemType::Stick);
}

/// The board after the ants listed in `turns` have taken one turn each, in
/// the order of the list.
pub open spec fn after_turns(b: BoardView, turns: Seq<int>) -> BoardView
    decreases turns.len(),
{
    if turns.len() == 0 {
        b
    } else {
        visit(after_turns(b, turns.drop_last()), turns.last())
    }
}

/// Whether one of `items` lies on the cell of `item`, is of its kind, and is
/// stuck for `bites` bites or more.
pub open spec fn holds_stuck(items: Seq<Item>, item: Item, bites: int) -> bool {
    exists|j: int|
        0 <= j < items.len() && (#[trigger] items[j]).like(
            (item.x as int, item.y as int),
            item.item_type,
        ) && items[j].freeze_time_left >= bites
}

/// A turn is one bite at most: where an item is stuck for `bites` bites, an
/// item on its cell and of its kind is on the board after the turn of any
/// ant, stuck for one bite less at the least.
pub proof fn lemma_turn_bites_once(b: BoardView, i: int, item: Item, bites: int)
    requires
        0 <= i < b.ants.len(),
        bites >= 1,
        holds_stuck(b.items, item, bites),
    ensures
        holds_stuck(visit(b, i).items, item, bites - 1),
        visit(b, i).ants.len() == b.ants.len(),
{
    let c = (item.x as int, item.y as int);
    let j = choose|j: int|
        0 <= j < b.items.len() && (#[trigger] b.items[j]).like(c, item.item_type)
            && b.items[j].freeze_time_left >= bites;
    let ant = b.ants[i];
    let after = visit(b, i).items;
    match ant.carrying_item {
        Some(held) => {
            assert(after[j] == b.items[j]);
        },
        None => {
            lemma_first_at(b.items, ant.cell());
            match first_at(b.items, ant.cell()) {
                Some(k) => {
                    if k == j {
                        let last = after.len() - 1;
                        assert(after[last] == b.items[j].bitten());
                    } else if k < j {
                        assert(after[j - 1] == b.items[j]);
                    } else {
                        assert(after[j] == b.items[j]);
                    }
                },
                None => {
                    assert(after[j] == b.items[j]);
                },
            }
        },
    }
}

/// Freeze monotonicity, on any board: an item stuck for `n` bites outlasts
/// `n` turns, whichever ants take them. After `k` turns, `k` no more than `n`,
/// an item on its cell and of its kind is still on the board, stuck for
/// `n - k` bites at the least. So the turn that picks it up is the one numbered
/// `n + 1` at the earliest.
pub proof fn lemma_stuck_item_outlasts_turns(b: BoardView, turns: Seq<int>, item: Item, n: int)
    requires
        forall|k: int| 0 <= k < turns.len() ==> 0 <= #[trigger] turns[k] < b.ants.len(),
        turns.len() <= n,
        holds_stuck(b.items, item, n),
    ensures
        holds_stuck(after_turns(b, turns).items, item, n - turns.len()),
        after_turns(b, turns).ants.len() == b.ants.len(),
    decreases turns.len(),
{
    if turns.len() > 0 {
        let earlier = turns.drop_last();
        assert forall|k: int| 0 <= k < earlier.len() implies 0 <= #[trigger] earlier[k]
            < b.ants.len() by {
            assert(earlier[k] == turns[k]);
        }
        lemma_stuck_item_outlasts_turns(b, earlier, item, n);
        lemma_turn_bites_once(
            after_turns(b, earlier),
            turns.last(),
            item,
            n - earlier.len(),
        );
    }
}

/// An interaction phase is one turn of each ant, in the order of the ants.
pub proof fn lemma_interact_is_turns(b: BoardView)
    ensures
        interact(b) == after_turns(b, Seq::new(b.ants.len(), |k: int| k)),
{
    lemma_interact_first_is_turns(b, b.ants.len());
}

proof fn lemma_interact_first_is_turns(b: BoardView, n: nat)
    ensures
        interact_first(b, n) == after_turns(b, Seq::new(n, |k: int| k)),
    decreases n,
{
    if n > 0 {
        lemma_interact_first_is_turns(b, (n - 1) as nat);
        assert(Seq::new(n, |k: int| k).drop_last() =~= Seq::new((n - 1) as nat, |k: int| k));
    }
}

} // verus!
