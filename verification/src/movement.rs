//! The movement phase of a tick: where an ant may go.

use vstd::prelude::*;
use crate::ant::Ant;
use crate::interaction::first_at;
use crate::item::Item;
use crate::model::BoardView;

verus! {

/// Whether any of `items` lies on cell `c`.
pub open spec fn occupied(items: Seq<Item>, c: (int, int)) -> bool {
    first_at(items, c) is Some
}

/// Whether `ant` may step onto cell `c`: an ant with empty jaws steps
/// anywhere, a loaded one only where no item lies.
pub open spec fn open_to(items: Seq<Item>, ant: Ant, c: (int, int)) -> bool {
    ant.carrying_item is None || !occupied(items, c)
}

/// The first of the cells in `order` that `ant` may step onto.
pub open spec fn first_open(items: Seq<Item>, ant: Ant, order: Seq<(int, int)>) -> Option<
    (int, int),
>
    decreases order.len(),
{
    if order.len() == 0 {
        None
    } else if open_to(items, ant, order[0]) {
        Some(order[0])
    } else {
        first_open(items, ant, order.drop_first())
    }
}

/// The ant after one hop, when it tries the cells in `order`: it goes to the
/// first one it may step onto, and stays where it is when there is none.
pub open spec fn hop(items: Seq<Item>, ant: Ant, order: Seq<(int, int)>) -> Ant {
    match first_open(items, ant, order) {
        Some(c) => ant.moved_to(c),
        None => ant,
    }
}

/// Whether one hop can take `ant` to cell `to`, in whatever order it tries
/// the cells around it: to a neighbor it may step onto, or nowhere when it may
/// step onto none of them.
pub open spec fn may_hop(items: Seq<Item>, ant: Ant, to: (int, int)) -> bool {
    let around = ant.surroundings();
    if exists|k: int| 0 <= k < around.len() && open_to(items, ant, #[trigger] around[k]) {
        around.contains(to) && open_to(items, ant, to)
    } else {
        to == ant.cell()
    }
}

/// Whether `path` lists the cells of a walk of `ant`: it starts where the
/// ant stands, and each further cell is one hop from the one before.
pub open spec fn is_walk(items: Seq<Item>, ant: Ant, path: Seq<(int, int)>) -> bool {
    &&& path.len() > 0
    &&& path[0] == ant.cell()
    &&& forall|k: int|
        0 <= k < path.len() - 1 ==> may_hop(items, ant.moved_to(#[trigger] path[k]), path[k + 1])
}

/// Whether `after` is `before` at the end of a walk of `hops` hops.
pub open spec fn wandered(items: Seq<Item>, before: Ant, after: Ant, hops: nat) -> bool {
    exists|path: Seq<(int, int)>|
        #![trigger is_walk(items, before, path)]
        {
            &&& path.len() == hops + 1
            &&& is_walk(items, before, path)
            &&& after == before.moved_to(path.last())
        }
}

/// Whether `after` is a board that the movement phase can leave behind on
/// `before`: the items lie where they lay, and every ant, with what it
/// carried, stands at the end of a walk of `hops` hops from where it stood.
pub open spec fn moved(before: BoardView, after: BoardView, hops: nat) -> bool {
    &&& after.width == before.width
    &&& after.height == before.height
    &&& after.items == before.items
    &&& after.ants.len() == before.ants.len()
    &&& forall|i: int|
        0 <= i < before.ants.len() ==> wandered(
            before.items,
            #[trigger] before.ants[i],
            after.ants[i],
            hops,
        )
}

/// What [`first_open`] finds is one of the cells listed and open to the ant;
/// where it finds nothing, none of the cells listed is.
pub proof fn lemma_first_open(items: Seq<Item>, ant: Ant, order: Seq<(int, int)>)
    ensures
        match first_open(items, ant, order) {
            Some(c) => order.contains(c) && open_to(items, ant, c),
            None => forall|k: int| 0 <= k < order.len() ==> !open_to(items, ant, #[trigger] order[k]),
        },
    decreases order.len(),
{
    if order.len() > 0 && !open_to(items, ant, order[0]) {
        let rest = order.drop_first();
        lemma_first_open(items, ant, rest);
        match first_open(items, ant, rest) {
            Some(c) => {
                let k = choose|k: int| 0 <= k < rest.len() && rest[k] == c;
                assert(order[k + 1] == c);
            },
            None => {
                assert forall|k: int| 0 <= k < order.len() implies !open_to(
                    items,
                    ant,
                    #[trigger] order[k],
                ) by {
                    if k > 0 {
                        assert(order[k] == rest[k - 1]);
                    }
                }
            },
        }
    } else if order.len() > 0 {
        assert(order.contains(order[0]));
    }
}

/// A hop through the cells around the ant, tried in any order, is a hop the
/// ant may make.
pub proof fn lemma_hop_is_allowed(items: Seq<Item>, ant: Ant, order: Seq<(int, int)>)
    requires
        forall|k: int| 0 <= k < order.len() ==> ant.surroundings().contains(#[trigger] order[k]),
        forall|k: int|
            0 <= k < ant.surroundings().len() ==> order.contains(#[trigger] ant.surroundings()[k]),
    ensures
        may_hop(items, ant, first_open(items, ant, order).unwrap_or(ant.cell())),
{
    lemma_first_open(items, ant, order);
    let around = ant.surroundings();
    match first_open(items, ant, order) {
        Some(c) => {
            let k = choose|k: int| 0 <= k < order.len() && order[k] == c;
            assert(around.contains(order[k]));
            let m = choose|m: int| 0 <= m < around.len() && around[m] == c;
            assert(open_to(items, ant, around[m]));
        },
        None => {
            assert forall|k: int| 0 <= k < around.len() implies !open_to(
                items,
                ant,
                #[trigger] around[k],
            ) by {
                let m = choose|m: int| 0 <= m < order.len() && order[m] == around[k];
                assert(!open_to(items, ant, order[m]));
            }
        },
    }
}

} // verus!
