use hex_ants::interaction::{
    count_items_like, count_on_first_match, find_item_at, freeze_time_for,
};
use hex_ants::{Board, Item, ItemType};

fn leaf(x: usize, y: usize, freeze_time_left: usize) -> Item {
    Item::new(x, y, freeze_time_left, ItemType::Leaf)
}

fn stick(x: usize, y: usize, freeze_time_left: usize) -> Item {
    Item::new(x, y, freeze_time_left, ItemType::Stick)
}

fn count_kind(board: &Board, kind: ItemType) -> usize {
    let lying = board.items().iter().filter(|item| item.item_type == kind).count();
    let carried = board
        .ants()
        .iter()
        .filter(|ant| matches!(ant.carrying_item, Some(item) if item.item_type == kind))
        .count();
    lying + carried
}

/// A 4 x 4 board on which the ant at (0, 0) has just picked up a loose leaf.
fn board_with_loaded_ant() -> Board {
    let mut board = Board::new(4, 4);
    assert!(board.add_item(leaf(0, 0, 0)));
    assert!(board.add_ant(0, 0));
    board.pick_or_leave();
    board
}

#[test]
fn new_item_holds_what_it_was_given() {
    let item = Item::new(3, 4, 5, ItemType::Stick);
    assert_eq!((item.x, item.y, item.freeze_time_left, item.item_type), (3, 4, 5, ItemType::Stick));
    assert_eq!(item, stick(3, 4, 5));
    assert_ne!(item, leaf(3, 4, 5));
}

#[test]
fn new_board_is_empty() {
    let board = Board::new(7, 3);
    assert_eq!((board.width(), board.height()), (7, 3));
    assert!(board.items().is_empty());
    assert!(board.ants().is_empty());
}

#[test]
fn board_turns_down_what_is_off_the_grid() {
    let mut board = Board::new(4, 3);
    assert!(!board.add_ant(4, 0));
    assert!(!board.add_ant(0, 3));
    assert!(!board.add_item(leaf(4, 2, 0)));
    assert!(!board.add_item(leaf(3, 3, 0)));
    assert!(board.items().is_empty() && board.ants().is_empty());
    assert!(board.add_ant(3, 2));
    assert!(board.add_item(stick(3, 2, 9)));
    assert_eq!(board.items(), &vec![stick(3, 2, 9)]);
    let ant = board.ants()[0];
    assert_eq!((ant.x, ant.y, ant.max_x, ant.max_y), (3, 2, 4, 3));
    assert!(ant.carrying_item.is_none());
}

#[test]
fn board_without_cells_takes_nothing() {
    let mut board = Board::new(0, 0);
    assert!(!board.add_ant(0, 0));
    assert!(!board.add_item(leaf(0, 0, 0)));
    board.pick_or_leave();
    assert!(board.items().is_empty() && board.ants().is_empty());
}

#[test]
fn ant_picks_up_the_loose_item_under_it() {
    let mut board = Board::new(4, 4);
    assert!(board.add_item(leaf(0, 0, 0)));
    assert!(board.add_ant(0, 0));
    board.pick_or_leave();
    assert_eq!(board.ants()[0].carrying_item, Some(leaf(0, 0, 0)));
    assert!(board.items().iter().all(|item| !(item.x == 0 && item.y == 0)));
    assert!(board.items().is_empty());
}

#[test]
fn loaded_ant_drops_next_to_a_similar_item() {
    let mut board = board_with_loaded_ant();
    // (1, 0) is the cell to the right of (0, 0)
    assert!(board.add_item(leaf(1, 0, 0)));
    board.pick_or_leave();
    assert!(board.ants()[0].carrying_item.is_none());
    assert_eq!((board.ants()[0].x, board.ants()[0].y), (0, 0));
    assert_eq!(board.items(), &vec![leaf(1, 0, 0), leaf(0, 0, 2)]);
}

#[test]
fn loaded_ant_drops_whichever_neighbor_holds_the_similar_item() {
    for (nx, ny) in hex_ants::neighbors(0, 0, 4, 4) {
        let mut board = board_with_loaded_ant();
        assert!(board.add_item(leaf(nx, ny, 0)));
        board.pick_or_leave();
        assert!(board.ants()[0].carrying_item.is_none());
        assert_eq!(board.items(), &vec![leaf(nx, ny, 0), leaf(0, 0, 2)]);
    }
}

#[test]
fn loaded_ant_keeps_its_load_with_nothing_similar_around() {
    let mut board = board_with_loaded_ant();
    // a stick next door, a leaf two cells away, a leaf under the ant
    assert!(board.add_item(stick(1, 0, 0)));
    assert!(board.add_item(leaf(2, 0, 0)));
    assert!(board.add_item(leaf(0, 0, 0)));
    board.pick_or_leave();
    assert_eq!(board.ants()[0].carrying_item, Some(leaf(0, 0, 0)));
    assert_eq!(board.items(), &vec![stick(1, 0, 0), leaf(2, 0, 0), leaf(0, 0, 0)]);
}

#[test]
fn drop_sticks_harder_the_more_similar_items_lie_there() {
    let mut board = board_with_loaded_ant();
    assert!(board.add_item(leaf(1, 0, 0)));
    assert!(board.add_item(leaf(1, 0, 5)));
    assert!(board.add_item(stick(1, 0, 0)));
    assert!(board.add_item(leaf(1, 0, 1)));
    board.pick_or_leave();
    // three leaves on the cell to the right: 2^3
    assert_eq!(board.items().last(), Some(&leaf(0, 0, 8)));
    assert_eq!(board.items().len(), 5);
}

#[test]
fn drop_goes_by_the_first_neighbor_that_holds_similar_items() {
    let mut board = board_with_loaded_ant();
    // around (0, 0) on a 4 x 4 grid: (3, 3), (0, 3), (1, 0), (0, 1), (3, 1), (3, 0)
    assert!(board.add_item(leaf(1, 0, 0)));
    assert!(board.add_item(leaf(1, 0, 0)));
    assert!(board.add_item(leaf(1, 0, 0)));
    assert!(board.add_item(leaf(0, 3, 0)));
    board.pick_or_leave();
    // (0, 3) comes before (1, 0) and holds one leaf: 2^1, not 2^3
    assert_eq!(board.items().last(), Some(&leaf(0, 0, 2)));
}

#[test]
fn dropped_item_takes_the_ants_cell_and_the_loads_kind() {
    let mut board = Board::new(5, 5);
    assert!(board.add_item(stick(2, 3, 0)));
    assert!(board.add_ant(2, 3));
    board.pick_or_leave();
    assert_eq!(board.ants()[0].carrying_item, Some(stick(2, 3, 0)));
    assert!(board.add_item(stick(1, 3, 7)));
    board.pick_or_leave();
    assert!(board.ants()[0].carrying_item.is_none());
    assert_eq!(board.items(), &vec![stick(1, 3, 7), stick(2, 3, 2)]);
}

#[test]
fn stuck_item_is_bitten_and_goes_to_the_end() {
    let mut board = Board::new(4, 4);
    assert!(board.add_item(leaf(1, 1, 2)));
    assert!(board.add_item(stick(3, 3, 0)));
    assert!(board.add_ant(1, 1));
    board.pick_or_leave();
    assert!(board.ants()[0].carrying_item.is_none());
    assert_eq!(board.items(), &vec![stick(3, 3, 0), leaf(1, 1, 1)]);
}

#[test]
fn item_stuck_for_n_bites_is_picked_up_at_visit_n_plus_one() {
    for n in 0..6 {
        let mut board = Board::new(4, 4);
        assert!(board.add_item(leaf(2, 1, n)));
        assert!(board.add_ant(2, 1));
        for visit in 1..=n {
            board.pick_or_leave();
            assert!(board.ants()[0].carrying_item.is_none());
            assert_eq!(board.items(), &vec![leaf(2, 1, n - visit)]);
        }
        board.pick_or_leave();
        assert_eq!(board.ants()[0].carrying_item, Some(leaf(2, 1, 0)));
        assert!(board.items().is_empty());
    }
}

#[test]
fn ant_examines_the_first_item_on_its_cell() {
    let mut board = Board::new(4, 4);
    assert!(board.add_item(stick(0, 0, 0)));
    assert!(board.add_item(leaf(1, 1, 3)));
    assert!(board.add_item(stick(1, 1, 0)));
    assert!(board.add_ant(1, 1));
    board.pick_or_leave();
    // the leaf came first: it is bitten, the loose stick behind it stays
    assert!(board.ants()[0].carrying_item.is_none());
    assert_eq!(board.items(), &vec![stick(0, 0, 0), stick(1, 1, 0), leaf(1, 1, 2)]);
    board.pick_or_leave();
    // now the stick is first
    assert_eq!(board.ants()[0].carrying_item, Some(stick(1, 1, 0)));
    assert_eq!(board.items(), &vec![stick(0, 0, 0), leaf(1, 1, 2)]);
}

#[test]
fn ant_on_an_empty_cell_does_nothing() {
    let mut board = Board::new(4, 4);
    assert!(board.add_item(leaf(1, 1, 0)));
    assert!(board.add_ant(2, 2));
    board.pick_or_leave();
    assert!(board.ants()[0].carrying_item.is_none());
    assert_eq!(board.items(), &vec![leaf(1, 1, 0)]);
}

#[test]
fn ants_take_turns_in_the_order_they_were_added() {
    let mut board = Board::new(4, 4);
    assert!(board.add_item(leaf(1, 1, 0)));
    assert!(board.add_ant(1, 1));
    assert!(board.add_ant(1, 1));
    board.pick_or_leave();
    assert_eq!(board.ants()[0].carrying_item, Some(leaf(1, 1, 0)));
    assert!(board.ants()[1].carrying_item.is_none());
    assert!(board.items().is_empty());
}

#[test]
fn later_ant_sees_what_an_earlier_ant_dropped() {
    let mut board = Board::new(6, 6);
    // two ants pick up a leaf each
    assert!(board.add_item(leaf(2, 2, 0)));
    assert!(board.add_item(leaf(3, 2, 0)));
    assert!(board.add_ant(2, 2));
    assert!(board.add_ant(3, 2));
    board.pick_or_leave();
    assert!(board.ants().iter().all(|ant| ant.carrying_item.is_some()));
    assert!(board.items().is_empty());
    // a leaf to the left of the first ant makes it drop; its drop at (2, 2)
    // is to the left of the second ant, which then drops as well
    assert!(board.add_item(leaf(1, 2, 0)));
    board.pick_or_leave();
    assert!(board.ants().iter().all(|ant| ant.carrying_item.is_none()));
    assert_eq!(board.items(), &vec![leaf(1, 2, 0), leaf(2, 2, 2), leaf(3, 2, 2)]);
}

#[test]
fn interaction_keeps_the_number_of_items_of_each_kind() {
    let mut board = Board::new(5, 4);
    let mut n = 0;
    for y in 0..4 {
        for x in 0..5 {
            n += 1;
            if n % 3 != 0 {
                let kind = if n % 2 == 0 { ItemType::Leaf } else { ItemType::Stick };
                assert!(board.add_item(Item::new(x, y, n % 3 - 1, kind)));
            }
            if n % 2 == 1 {
                assert!(board.add_ant(x, y));
            }
        }
    }
    let leaves = count_kind(&board, ItemType::Leaf);
    let sticks = count_kind(&board, ItemType::Stick);
    assert!(leaves > 0 && sticks > 0);
    for _ in 0..10 {
        board.pick_or_leave();
        assert_eq!(count_kind(&board, ItemType::Leaf), leaves);
        assert_eq!(count_kind(&board, ItemType::Stick), sticks);
        for item in board.items() {
            assert!(item.x < 5 && item.y < 4);
        }
        for ant in board.ants() {
            assert!(ant.x < 5 && ant.y < 4);
        }
    }
}

#[test]
fn pickup_takes_the_item_off_the_board() {
    let mut board = Board::new(4, 4);
    assert!(board.add_item(leaf(1, 1, 0)));
    assert!(board.add_item(leaf(1, 1, 0)));
    assert!(board.add_ant(1, 1));
    board.pick_or_leave();
    // one of the two equal items changed hands, the other lies where it lay
    assert_eq!(board.ants()[0].carrying_item, Some(leaf(1, 1, 0)));
    assert_eq!(board.items(), &vec![leaf(1, 1, 0)]);
}

#[test]
fn counts_items_of_a_kind_on_a_cell() {
    let items = vec![leaf(1, 1, 0), stick(1, 1, 0), leaf(1, 1, 4), leaf(1, 2, 0), leaf(2, 1, 0)];
    assert_eq!(count_items_like(&items, 1, 1, ItemType::Leaf), 2);
    assert_eq!(count_items_like(&items, 1, 1, ItemType::Stick), 1);
    assert_eq!(count_items_like(&items, 2, 1, ItemType::Stick), 0);
    assert_eq!(count_items_like(&items, 0, 0, ItemType::Leaf), 0);
    assert_eq!(count_items_like(&Vec::new(), 0, 0, ItemType::Leaf), 0);
}

#[test]
fn finds_the_first_item_on_a_cell() {
    let items = vec![leaf(1, 1, 0), stick(2, 2, 0), leaf(2, 2, 4), leaf(1, 2, 0)];
    assert_eq!(find_item_at(&items, 1, 1), Some(0));
    assert_eq!(find_item_at(&items, 2, 2), Some(1));
    assert_eq!(find_item_at(&items, 1, 2), Some(3));
    assert_eq!(find_item_at(&items, 2, 1), None);
    assert_eq!(find_item_at(&Vec::new(), 0, 0), None);
}

#[test]
fn counts_on_the_first_cell_that_matches() {
    let items = vec![leaf(1, 1, 0), stick(2, 2, 0), leaf(2, 2, 4), leaf(2, 2, 0)];
    let cells = vec![(0, 0), (2, 2), (1, 1)];
    assert_eq!(count_on_first_match(&items, &cells, ItemType::Leaf), 2);
    assert_eq!(count_on_first_match(&items, &cells, ItemType::Stick), 1);
    assert_eq!(count_on_first_match(&items, &vec![(1, 1), (2, 2)], ItemType::Leaf), 1);
    assert_eq!(count_on_first_match(&items, &vec![(1, 1), (0, 0)], ItemType::Stick), 0);
    assert_eq!(count_on_first_match(&items, &Vec::new(), ItemType::Leaf), 0);
}

#[test]
fn freeze_time_is_two_to_the_number_of_similar_items() {
    assert_eq!(freeze_time_for(0), 1);
    assert_eq!(freeze_time_for(1), 2);
    assert_eq!(freeze_time_for(2), 4);
    assert_eq!(freeze_time_for(3), 8);
    assert_eq!(freeze_time_for(10), 1024);
    assert_eq!(freeze_time_for(31), 1 << 31);
    let bits = usize::BITS as usize;
    assert_eq!(freeze_time_for(bits - 1), 1 << (bits - 1));
}

#[test]
fn freeze_time_stops_at_the_largest_number() {
    let bits = usize::BITS as usize;
    assert_eq!(freeze_time_for(bits), usize::MAX);
    assert_eq!(freeze_time_for(bits + 1), usize::MAX);
    assert_eq!(freeze_time_for(usize::MAX), usize::MAX);
}

#[test]
fn stuck_item_outlasts_as_many_turns_as_it_has_bites_left() {
    // three ants on the cell of an item that is stuck for five bites: each
    // phase is three turns, and each turn is one bite at most
    let mut board = Board::new(4, 4);
    assert!(board.add_item(stick(2, 2, 5)));
    for _ in 0..3 {
        assert!(board.add_ant(2, 2));
    }
    board.pick_or_leave();
    assert_eq!(board.items(), &vec![stick(2, 2, 2)]);
    assert!(board.ants().iter().all(|ant| ant.carrying_item.is_none()));
    board.pick_or_leave();
    // turns four and five bite, turn six is the first to pick the item up
    assert!(board.items().is_empty());
    assert!(board.ants()[0].carrying_item.is_none());
    assert!(board.ants()[1].carrying_item.is_none());
    assert_eq!(board.ants()[2].carrying_item, Some(stick(2, 2, 0)));
}

#[test]
fn interaction_keeps_the_number_of_items() {
    let mut board = board_with_loaded_ant();
    assert!(board.add_ant(2, 2));
    assert!(board.add_item(leaf(2, 2, 0)));
    assert!(board.add_item(leaf(1, 0, 1)));
    assert!(board.add_item(stick(3, 3, 2)));
    let total = |board: &Board| {
        board.items().len()
            + board.ants().iter().filter(|ant| ant.carrying_item.is_some()).count()
    };
    assert_eq!(total(&board), 4);
    for _ in 0..5 {
        board.pick_or_leave();
        assert_eq!(total(&board), 4);
    }
}
