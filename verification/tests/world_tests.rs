use connex::Block;
use connex::Direction;
use connex::World;

fn tile(w: &World, r: usize, c: usize) -> Block {
    *w.get(r, c).expect("tile index out of range")
}

#[test]
fn empty_world_is_all_empty() {
    let w = World::empty(3, 2);
    assert_eq!(w.height(), 3);
    assert_eq!(w.width(), 2);
    assert_eq!(w.size(), (3, 2));
    for r in 0..3 {
        for c in 0..2 {
            assert_eq!(tile(&w, r, c), Block::Empty);
        }
    }
}

#[test]
fn get_out_of_range_is_none() {
    let w = World::empty(2, 2);
    assert!(w.get(0, 0).is_some());
    assert!(w.get(1, 1).is_some());
    assert!(w.get(2, 0).is_none());
    assert!(w.get(0, 2).is_none());
    assert!(w.get(5, 5).is_none());
}

#[test]
fn new_with_fills_by_position() {
    let w = World::new_with(2, 3, |r, c| {
        if r == c {
            Block::Cross
        } else {
            Block::Empty
        }
    });
    assert_eq!(tile(&w, 0, 0), Block::Cross);
    assert_eq!(tile(&w, 1, 1), Block::Cross);
    assert_eq!(tile(&w, 0, 1), Block::Empty);
    assert_eq!(tile(&w, 1, 0), Block::Empty);
    assert_eq!(tile(&w, 1, 2), Block::Empty);
}

#[test]
fn new_from_blocks_row_major() {
    let blocks = vec![
        Block::Endpoint(Direction::Right),
        Block::Endpoint(Direction::Left),
        Block::Cross,
        Block::Empty,
    ];
    let w = World::new_from_blocks(2, 2, blocks.clone());
    assert_eq!(tile(&w, 0, 0), blocks[0]);
    assert_eq!(tile(&w, 0, 1), blocks[1]);
    assert_eq!(tile(&w, 1, 0), blocks[2]);
    assert_eq!(tile(&w, 1, 1), blocks[3]);
    assert_eq!(w.into_inner(), blocks);
}

#[test]
fn get_mut_changes_one_tile() {
    let mut w = World::empty(2, 2);
    *w.get_mut(1, 0) = Block::Cross;
    assert_eq!(tile(&w, 1, 0), Block::Cross);
    assert_eq!(tile(&w, 0, 0), Block::Empty);
    assert_eq!(tile(&w, 0, 1), Block::Empty);
    assert_eq!(tile(&w, 1, 1), Block::Empty);
}

#[test]
fn rotate_turns_one_tile() {
    let mut w = World::empty(1, 2);
    *w.get_mut(0, 0) = Block::Endpoint(Direction::Up);
    w.rotate(0, 0);
    assert_eq!(tile(&w, 0, 0), Block::Endpoint(Direction::Right));
    assert_eq!(tile(&w, 0, 1), Block::Empty);
}

#[test]
fn insert_row_shifts_rows_down() {
    // the scenario: inserting at 0 on a 2x2 grid gives height 3, the old top
    // row sits at index 1, and the new row 0 is all empty
    let mut w = World::empty(2, 2);
    *w.get_mut(0, 0) = Block::Cross;
    *w.get_mut(1, 1) = Block::Endpoint(Direction::Up);
    w.insert_row(0);
    assert_eq!(w.height(), 3);
    assert_eq!(w.width(), 2);
    assert_eq!(tile(&w, 0, 0), Block::Empty);
    assert_eq!(tile(&w, 0, 1), Block::Empty);
    assert_eq!(tile(&w, 1, 0), Block::Cross);
    assert_eq!(tile(&w, 2, 1), Block::Endpoint(Direction::Up));
}

#[test]
fn insert_row_at_bottom() {
    let mut w = World::empty(1, 1);
    *w.get_mut(0, 0) = Block::Cross;
    w.insert_row(1);
    assert_eq!(w.height(), 2);
    assert_eq!(tile(&w, 0, 0), Block::Cross);
    assert_eq!(tile(&w, 1, 0), Block::Empty);
}

#[test]
fn remove_row_is_noop_on_height_one() {
    let mut w = World::empty(1, 3);
    *w.get_mut(0, 1) = Block::Cross;
    w.remove_row(0);
    assert_eq!(w.height(), 1);
    assert_eq!(w.width(), 3);
    assert_eq!(tile(&w, 0, 0), Block::Empty);
    assert_eq!(tile(&w, 0, 1), Block::Cross);
    assert_eq!(tile(&w, 0, 2), Block::Empty);
}

#[test]
fn remove_row_shifts_rows_up() {
    let mut w = World::empty(3, 1);
    *w.get_mut(0, 0) = Block::Endpoint(Direction::Down);
    *w.get_mut(2, 0) = Block::Endpoint(Direction::Up);
    w.remove_row(1);
    assert_eq!(w.height(), 2);
    assert_eq!(tile(&w, 0, 0), Block::Endpoint(Direction::Down));
    assert_eq!(tile(&w, 1, 0), Block::Endpoint(Direction::Up));
}

#[test]
fn insert_column_shifts_columns_right() {
    let mut w = World::empty(2, 2);
    *w.get_mut(0, 0) = Block::Cross;
    *w.get_mut(1, 1) = Block::Endpoint(Direction::Left);
    w.insert_column(1);
    assert_eq!(w.width(), 3);
    assert_eq!(w.height(), 2);
    assert_eq!(tile(&w, 0, 0), Block::Cross);
    assert_eq!(tile(&w, 0, 1), Block::Empty);
    assert_eq!(tile(&w, 1, 1), Block::Empty);
    assert_eq!(tile(&w, 1, 2), Block::Endpoint(Direction::Left));
}

#[test]
fn remove_column_is_noop_on_width_one() {
    let mut w = World::empty(2, 1);
    *w.get_mut(1, 0) = Block::Cross;
    w.remove_column(0);
    assert_eq!(w.width(), 1);
    assert_eq!(w.height(), 2);
    assert_eq!(tile(&w, 1, 0), Block::Cross);
}

#[test]
fn remove_column_shifts_columns_left() {
    let mut w = World::empty(1, 3);
    *w.get_mut(0, 0) = Block::Endpoint(Direction::Right);
    *w.get_mut(0, 2) = Block::Endpoint(Direction::Left);
    w.remove_column(1);
    assert_eq!(w.width(), 2);
    assert_eq!(tile(&w, 0, 0), Block::Endpoint(Direction::Right));
    assert_eq!(tile(&w, 0, 1), Block::Endpoint(Direction::Left));
}

#[test]
fn all_empty_grid_is_never_solved() {
    for (h, w) in [(1, 1), (1, 5), (4, 1), (3, 3)] {
        let world = World::empty(h, w);
        assert!(!world.solved());
    }
}

#[test]
fn two_endpoints_facing_each_other_solve() {
    let w = World::new_from_blocks(
        1,
        2,
        vec![Block::Endpoint(Direction::Right), Block::Endpoint(Direction::Left)],
    );
    assert!(w.solved());
}

#[test]
fn single_endpoint_opens_at_boundary() {
    let w = World::new_from_blocks(1, 1, vec![Block::Endpoint(Direction::Up)]);
    assert!(!w.solved());
}

#[test]
fn mismatched_internal_edge_is_not_solved() {
    // left tile opens right, right tile does not open left
    let w = World::new_from_blocks(
        1,
        2,
        vec![Block::Endpoint(Direction::Right), Block::Empty],
    );
    assert!(!w.solved());
}

#[test]
fn closed_ring_solves() {
    // four quarter turns forming a 2x2 ring
    let w = World::new_from_blocks(
        2,
        2,
        vec![
            Block::Turn(Direction::Right),
            Block::Turn(Direction::Down),
            Block::Turn(Direction::Up),
            Block::Turn(Direction::Left),
        ],
    );
    assert!(w.solved());
}

#[test]
fn default_world_is_one_empty_tile() {
    let w = World::default();
    assert_eq!(w.size(), (1, 1));
    assert_eq!(tile(&w, 0, 0), Block::Empty);
    assert!(!w.solved());
}
