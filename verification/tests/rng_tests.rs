use connex::Block;
use connex::Direction;
use connex::World;

fn kind_index(b: &Block) -> u8 {
    match b {
        Block::Empty => 0,
        Block::Endpoint(_) => 1,
        Block::Through(_) => 2,
        Block::Turn(_) => 3,
        Block::Fork(_) => 4,
        Block::Cross => 5,
    }
}

#[test]
fn random_direction_is_one_of_four() {
    let mut rng = rand::thread_rng();
    for _ in 0..64 {
        let d = Direction::random(&mut rng);
        assert!(matches!(
            d,
            Direction::Up | Direction::Right | Direction::Down | Direction::Left
        ));
    }
}

#[test]
fn random_block_respects_allow_empty() {
    let mut rng = rand::thread_rng();
    for _ in 0..128 {
        let b = Block::random(&mut rng, false);
        assert_ne!(b, Block::Empty);
    }
    // with empties allowed, every draw is still some block
    for _ in 0..32 {
        let _ = Block::random(&mut rng, true);
    }
}

#[test]
fn block_shuffle_keeps_kind() {
    let mut rng = rand::thread_rng();
    let samples = vec![
        Block::Empty,
        Block::Cross,
        Block::Endpoint(Direction::Up),
        Block::Through(Direction::Left),
        Block::Turn(Direction::Down),
        Block::Fork(Direction::Right),
    ];
    for sample in samples {
        let mut b = sample;
        for _ in 0..16 {
            b.shuffle(&mut rng);
            assert_eq!(kind_index(&b), kind_index(&sample));
        }
    }
    // empty and cross stay exactly as they are
    let mut e = Block::Empty;
    e.shuffle(&mut rng);
    assert_eq!(e, Block::Empty);
    let mut x = Block::Cross;
    x.shuffle(&mut rng);
    assert_eq!(x, Block::Cross);
}

#[test]
fn world_shuffle_keeps_kinds_and_size() {
    let mut rng = rand::thread_rng();
    let w0 = World::parse(b"2,3\n>-<\n159\n").expect("level should parse");
    let mut w = World::parse(b"2,3\n>-<\n159\n").expect("level should parse");
    w.shuffle(&mut rng);
    assert_eq!(w.size(), w0.size());
    for r in 0..2 {
        for c in 0..3 {
            let before = w0.get(r, c).expect("in range");
            let after = w.get(r, c).expect("in range");
            assert_eq!(kind_index(before), kind_index(after));
        }
    }
}
