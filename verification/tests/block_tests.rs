use connex::Block;
use connex::Direction;

fn all_directions() -> Vec<Direction> {
    vec![Direction::Up, Direction::Right, Direction::Down, Direction::Left]
}

fn all_blocks() -> Vec<Block> {
    let mut blocks = vec![Block::Empty, Block::Cross];
    for d in all_directions() {
        blocks.push(Block::Endpoint(d));
        blocks.push(Block::Through(d));
        blocks.push(Block::Turn(d));
        blocks.push(Block::Fork(d));
    }
    blocks
}

#[test]
fn direction_turn_cycle() {
    assert_eq!(Direction::Up.turn(), Direction::Right);
    assert_eq!(Direction::Right.turn(), Direction::Down);
    assert_eq!(Direction::Down.turn(), Direction::Left);
    assert_eq!(Direction::Left.turn(), Direction::Up);
    for d in all_directions() {
        assert_eq!(d.turn().turn().turn().turn(), d);
    }
}

#[test]
fn direction_axes_and_opposite() {
    assert!(Direction::Left.horizontal());
    assert!(Direction::Right.horizontal());
    assert!(!Direction::Up.horizontal());
    assert!(Direction::Up.vertical());
    assert!(Direction::Down.vertical());
    assert!(!Direction::Left.vertical());
    assert_eq!(Direction::Up.opposite(), Direction::Down);
    assert_eq!(Direction::Down.opposite(), Direction::Up);
    assert_eq!(Direction::Left.opposite(), Direction::Right);
    assert_eq!(Direction::Right.opposite(), Direction::Left);
}

#[test]
fn block_rotation_four_cycle() {
    for b in all_blocks() {
        assert_eq!(b.turn().turn().turn().turn(), b);
    }
}

#[test]
fn block_rotation_fixed_points() {
    assert_eq!(Block::Empty.turn(), Block::Empty);
    assert_eq!(Block::Cross.turn(), Block::Cross);
    assert_eq!(Block::Endpoint(Direction::Up).turn(), Block::Endpoint(Direction::Right));
    let mut b = Block::Turn(Direction::Left);
    b.turn_me();
    assert_eq!(b, Block::Turn(Direction::Up));
}

#[test]
fn block_open_edges() {
    assert!(!Block::Empty.passable(Direction::Up));
    assert!(Block::Endpoint(Direction::Up).passable(Direction::Up));
    assert!(!Block::Endpoint(Direction::Up).passable(Direction::Down));
    assert!(Block::Through(Direction::Up).passable(Direction::Down));
    assert!(!Block::Through(Direction::Up).passable(Direction::Left));
    assert!(Block::Through(Direction::Left).passable(Direction::Right));
    assert!(Block::Turn(Direction::Up).passable(Direction::Up));
    assert!(Block::Turn(Direction::Up).passable(Direction::Right));
    assert!(!Block::Turn(Direction::Up).passable(Direction::Down));
    assert!(!Block::Fork(Direction::Up).passable(Direction::Up));
    assert!(Block::Fork(Direction::Up).passable(Direction::Left));
    for d in all_directions() {
        assert!(Block::Cross.passable(d));
    }
}

#[test]
fn block_direction_payload() {
    assert_eq!(Block::Empty.direction(), None);
    assert_eq!(Block::Cross.direction(), None);
    assert_eq!(Block::Endpoint(Direction::Left).direction(), Some(Direction::Left));
    assert_eq!(Block::Fork(Direction::Down).direction(), Some(Direction::Down));
}

#[test]
fn fit_is_direction_symmetric() {
    for a in all_blocks() {
        for b in all_blocks() {
            assert_eq!(a.fit(Direction::Right, &b), b.fit(Direction::Left, &a));
            assert_eq!(a.fit(Direction::Down, &b), b.fit(Direction::Up, &a));
        }
    }
}

#[test]
fn fit_examples() {
    let right = Block::Endpoint(Direction::Right);
    let left = Block::Endpoint(Direction::Left);
    assert!(right.fit(Direction::Right, &left));
    assert!(!right.fit(Direction::Right, &Block::Empty));
    assert!(Block::Empty.fit(Direction::Right, &Block::Empty));
}

#[test]
fn tile_codec_is_bijective() {
    let pairs: Vec<(u8, Block)> = vec![
        (b' ', Block::Empty),
        (b'^', Block::Endpoint(Direction::Up)),
        (b'>', Block::Endpoint(Direction::Right)),
        (b'v', Block::Endpoint(Direction::Down)),
        (b'<', Block::Endpoint(Direction::Left)),
        (b'/', Block::Through(Direction::Up)),
        (b'-', Block::Through(Direction::Left)),
        (b'1', Block::Turn(Direction::Up)),
        (b'7', Block::Turn(Direction::Right)),
        (b'9', Block::Turn(Direction::Down)),
        (b'3', Block::Turn(Direction::Left)),
        (b'8', Block::Fork(Direction::Up)),
        (b'6', Block::Fork(Direction::Right)),
        (b'2', Block::Fork(Direction::Down)),
        (b'4', Block::Fork(Direction::Left)),
        (b'5', Block::Cross),
    ];
    for (code, block) in &pairs {
        assert_eq!(Block::parse(*code), Some(*block));
        assert_eq!(block.format(), *code);
    }
    for c in 0u8..=255 {
        match Block::parse(c) {
            Some(b) => assert_eq!(b.format(), c),
            None => assert!(!pairs.iter().any(|(code, _)| *code == c)),
        }
    }
}

#[test]
fn tile_codec_rejects_unknown() {
    assert_eq!(Block::parse(b'x'), None);
    assert_eq!(Block::parse(b'0'), None);
    assert_eq!(Block::parse(b'\n'), None);
}

#[test]
fn direction_mut_reaims_without_changing_kind() {
    let mut b = Block::Turn(Direction::Up);
    if let Some(d) = b.direction_mut() {
        *d = Direction::Left;
    }
    assert_eq!(b, Block::Turn(Direction::Left));

    let mut e = Block::Empty;
    assert!(e.direction_mut().is_none());
    assert_eq!(e, Block::Empty);

    let mut x = Block::Cross;
    assert!(x.direction_mut().is_none());
    assert_eq!(x, Block::Cross);
}
