use connex::Block;
use connex::Command;
use connex::Direction;
use connex::Game;
use connex::World;

fn tile(w: &World, r: usize, c: usize) -> Block {
    *w.get(r, c).expect("tile index out of range")
}

#[test]
fn new_game_starts_at_origin_with_fresh_flag() {
    let w = World::parse(b"1,2\n><").expect("level should parse");
    let g = Game::new(w);
    assert_eq!(g.cursor(), (0, 0));
    assert_eq!(g.row(), 0);
    assert_eq!(g.col(), 0);
    assert!(g.solved());
}

#[test]
fn move_cursor_clamps_at_edges() {
    let mut g = Game::new(World::empty(2, 3));
    g.apply(Command::MoveCursor(Direction::Up));
    assert_eq!(g.cursor(), (0, 0));
    g.apply(Command::MoveCursor(Direction::Left));
    assert_eq!(g.cursor(), (0, 0));
    g.apply(Command::MoveCursor(Direction::Right));
    assert_eq!(g.cursor(), (0, 1));
    g.apply(Command::MoveCursor(Direction::Right));
    g.apply(Command::MoveCursor(Direction::Right));
    assert_eq!(g.cursor(), (0, 2));
    g.apply(Command::MoveCursor(Direction::Down));
    g.apply(Command::MoveCursor(Direction::Down));
    assert_eq!(g.cursor(), (1, 2));
}

#[test]
fn rotate_cursor_block_refreshes_solved_flag() {
    // one rotation away from solved: both endpoints point up
    let w = World::new_from_blocks(
        1,
        2,
        vec![Block::Endpoint(Direction::Up), Block::Endpoint(Direction::Left)],
    );
    let mut g = Game::new(w);
    assert!(!g.solved());
    g.apply(Command::RotateCursorBlock);
    // the cached flag always equals a fresh solve check of the world
    assert_eq!(g.solved(), g.world().solved());
    assert!(g.solved());
    assert_eq!(tile(g.world(), 0, 0), Block::Endpoint(Direction::Right));
}

#[test]
fn rotate_cursor_block_keeps_flag_fresh_when_unsolving() {
    let mut g = Game::new(World::parse(b"1,2\n><").expect("level should parse"));
    assert!(g.solved());
    g.apply(Command::RotateCursorBlock);
    assert_eq!(g.solved(), g.world().solved());
    assert!(!g.solved());
}

#[test]
fn rotate_block_at_index() {
    let mut g = Game::new(World::empty(2, 2));
    g.apply(Command::ReplaceBlock(1, 1, Block::Endpoint(Direction::Up)));
    g.apply(Command::RotateBlock(1, 1));
    assert_eq!(tile(g.world(), 1, 1), Block::Endpoint(Direction::Right));
    assert_eq!(g.cursor(), (0, 0));
}

#[test]
fn replace_cursor_block() {
    let mut g = Game::new(World::empty(1, 2));
    g.apply(Command::MoveCursor(Direction::Right));
    g.apply(Command::ReplaceCursorBlock(Block::Endpoint(Direction::Left)));
    assert_eq!(tile(g.world(), 0, 1), Block::Endpoint(Direction::Left));
    assert_eq!(tile(g.world(), 0, 0), Block::Empty);
    g.apply(Command::MoveCursor(Direction::Left));
    g.apply(Command::ReplaceCursorBlock(Block::Endpoint(Direction::Right)));
    assert_eq!(g.solved(), g.world().solved());
    assert!(g.solved());
}

#[test]
fn reset_replaces_world_and_recenters_cursor() {
    let mut g = Game::new(World::empty(3, 3));
    g.apply(Command::MoveCursor(Direction::Down));
    g.apply(Command::MoveCursor(Direction::Right));
    assert_eq!(g.cursor(), (1, 1));
    let next = World::parse(b"1,2\n><").expect("level should parse");
    g.apply(Command::Reset(next));
    assert_eq!(g.cursor(), (0, 0));
    assert_eq!(g.world().size(), (1, 2));
    assert!(g.solved());
}

#[test]
fn insert_row_shifts_cursor_down() {
    let mut g = Game::new(World::empty(2, 2));
    g.apply(Command::MoveCursor(Direction::Down));
    assert_eq!(g.cursor(), (1, 0));
    g.apply(Command::InsertRow(0));
    assert_eq!(g.world().height(), 3);
    assert_eq!(g.cursor(), (2, 0));
    g.apply(Command::InsertRow(3));
    assert_eq!(g.world().height(), 4);
    assert_eq!(g.cursor(), (2, 0));
}

#[test]
fn remove_row_clamps_cursor_from_last_row() {
    let mut g = Game::new(World::empty(3, 2));
    g.apply(Command::MoveCursor(Direction::Down));
    g.apply(Command::MoveCursor(Direction::Down));
    assert_eq!(g.cursor(), (2, 0));
    g.apply(Command::RemoveRow(0));
    assert_eq!(g.world().height(), 2);
    assert_eq!(g.cursor(), (1, 0));
}

#[test]
fn remove_row_on_height_one_is_noop() {
    let mut g = Game::new(World::empty(1, 2));
    g.apply(Command::ReplaceBlock(0, 0, Block::Cross));
    g.apply(Command::RemoveRow(0));
    assert_eq!(g.world().height(), 1);
    assert_eq!(g.world().width(), 2);
    assert_eq!(tile(g.world(), 0, 0), Block::Cross);
}

#[test]
fn insert_column_shifts_cursor_right() {
    let mut g = Game::new(World::empty(2, 2));
    g.apply(Command::MoveCursor(Direction::Right));
    assert_eq!(g.cursor(), (0, 1));
    g.apply(Command::InsertColumn(1));
    assert_eq!(g.world().width(), 3);
    assert_eq!(g.cursor(), (0, 2));
}

#[test]
fn remove_column_clamps_cursor_from_last_column() {
    let mut g = Game::new(World::empty(2, 3));
    g.apply(Command::MoveCursor(Direction::Right));
    g.apply(Command::MoveCursor(Direction::Right));
    assert_eq!(g.cursor(), (0, 2));
    g.apply(Command::RemoveColumn(1));
    assert_eq!(g.world().width(), 2);
    assert_eq!(g.cursor(), (0, 1));
}

#[test]
fn remove_column_on_width_one_is_noop() {
    let mut g = Game::new(World::empty(2, 1));
    g.apply(Command::ReplaceBlock(1, 0, Block::Cross));
    g.apply(Command::RemoveColumn(0));
    assert_eq!(g.world().width(), 1);
    assert_eq!(tile(g.world(), 1, 0), Block::Cross);
}

#[test]
fn noop_changes_nothing() {
    let mut g = Game::new(World::empty(2, 2));
    g.apply(Command::MoveCursor(Direction::Down));
    g.apply(Command::Noop);
    assert_eq!(g.cursor(), (1, 0));
    assert_eq!(g.world().size(), (2, 2));
    assert!(!g.solved());
}

#[test]
fn into_inner_hands_the_world_back() {
    let w = World::parse(b"1,2\n><").expect("level should parse");
    let g = Game::new(w);
    let back = g.into_inner();
    assert_eq!(back.size(), (1, 2));
    assert!(back.solved());
}

#[test]
fn default_game_is_single_empty_tile() {
    let g = Game::default();
    assert_eq!(g.cursor(), (0, 0));
    assert_eq!(g.world().size(), (1, 1));
    assert!(!g.solved());
}
