//! Tiles ([`Block`]) and the four-way [`Direction`] they are oriented by.

use vstd::prelude::*;

verus! {

/// A four-way, compass-like facing.
///
/// A `Direction` names the edge of a tile (which side is open), the axis of a
/// straight pipe, or a cursor movement, depending on where it is used.
#[derive(Debug, Copy, Clone, PartialEq, Eq, Structural)]
pub enum Direction {
    Up,
    Right,
    Down,
    Left,
}

impl Direction {
    /// The direction one clockwise step away: Up -> Right -> Down -> Left -> Up.
    pub open spec fn spec_turn(&self) -> Direction {
        match self {
            Direction::Up => Direction::Right,
            Direction::Right => Direction::Down,
            Direction::Down => Direction::Left,
            Direction::Left => Direction::Up,
        }
    }

    /// Rotate one step clockwise.
    #[verifier::when_used_as_spec(spec_turn)]
    pub fn turn(&self) -> (r: Direction)
        ensures
            r == self.spec_turn(),
    {
        match self {
            Direction::Up => Direction::Right,
            Direction::Right => Direction::Down,
            Direction::Down => Direction::Left,
            Direction::Left => Direction::Up,
        }
    }

    /// Whether the direction lies on the horizontal axis.
    pub open spec fn spec_horizontal(&self) -> bool {
        self == Direction::Left || self == Direction::Right
    }

    /// Whether this is Left or Right.
    #[verifier::when_used_as_spec(spec_horizontal)]
    pub fn horizontal(&self) -> (r: bool)
        ensures
            r == self.spec_horizontal(),
    {
        matches!(self, Direction::Left | Direction::Right)
    }

    /// Whether the direction lies on the vertical axis.
    pub open spec fn spec_vertical(&self) -> bool {
        self == Direction::Up || self == Direction::Down
    }

    /// Whether this is Up or Down.
    #[verifier::when_used_as_spec(spec_vertical)]
    pub fn vertical(&self) -> (r: bool)
        ensures
            r == self.spec_vertical(),
    {
        matches!(self, Direction::Up | Direction::Down)
    }

    /// The direction two clockwise steps away: Up <-> Down, Left <-> Right.
    pub open spec fn spec_opposite(&self) -> Direction {
        match self {
            Direction::Up => Direction::Down,
            Direction::Right => Direction::Left,
            Direction::Down => Direction::Up,
            Direction::Left => Direction::Right,
        }
    }

    /// The opposite direction.
    #[verifier::when_used_as_spec(spec_opposite)]
    pub fn opposite(&self) -> (r: Direction)
        ensures
            r == self.spec_opposite(),
    {
        match self {
            Direction::Up => Direction::Down,
            Direction::Right => Direction::Left,
            Direction::Down => Direction::Up,
            Direction::Left => Direction::Right,
        }
    }
}

/// Turning a direction four times clockwise comes back to the start.
pub proof fn lemma_direction_turn_four_cycle(d: Direction)
    ensures
        d.spec_turn().spec_turn().spec_turn().spec_turn() == d,
{
}


/// One cell's puzzle piece: a pipe shape, most of which carry a facing
/// [`Direction`].
///
/// Only `Endpoint`, `Through`, `Turn` and `Fork` carry a direction; `Empty`
/// and `Cross` never do, and both are fixed points of [`Block::turn`].
#[derive(Debug, Copy, Clone, PartialEq, Eq, Structural)]
pub enum Block {
    /// No pipe at all; no edge is open.
    Empty,
    /// A pipe end: only the stored direction is open.
    Endpoint(Direction),
    /// A straight pipe along the stored direction's axis: the direction and
    /// its opposite are open.
    Through(Direction),
    /// A quarter turn: the stored direction and its clockwise successor are
    /// open.
    Turn(Direction),
    /// A three-way junction: every direction but the stored one is open.
    Fork(Direction),
    /// A four-way junction: all four directions are open.
    Cross,
}

impl Block {
    /// The block one clockwise step away: the stored direction advances one
    /// step; `Empty` and `Cross` stay as they are.
    pub open spec fn spec_turn(&self) -> Block {
        match self {
            Block::Empty => Block::Empty,
            Block::Endpoint(t) => Block::Endpoint(t.spec_turn()),
            Block::Through(t) => Block::Through(t.spec_turn()),
            Block::Turn(t) => Block::Turn(t.spec_turn()),
            Block::Fork(t) => Block::Fork(t.spec_turn()),
            Block::Cross => Block::Cross,
        }
    }

    /// Rotate one step clockwise, returning the rotated block.
    #[verifier::when_used_as_spec(spec_turn)]
    pub fn turn(&self) -> (r: Block)
        ensures
            r == self.spec_turn(),
    {
        match self {
            Block::Empty => Block::Empty,
            Block::Endpoint(t) => Block::Endpoint(t.turn()),
            Block::Through(t) => Block::Through(t.turn()),
            Block::Turn(t) => Block::Turn(t.turn()),
            Block::Fork(t) => Block::Fork(t.turn()),
            Block::Cross => Block::Cross,
        }
    }

    /// Rotate one step clockwise in place.
    pub fn turn_me(&mut self)
        ensures
            *final(self) == old(self).spec_turn(),
    {
        *self = self.turn();
    }

    /// Whether the edge toward `rhs` is open, per the table on the variants.
    pub open spec fn spec_passable(&self, rhs: Direction) -> bool {
        match self {
            Block::Empty => false,
            Block::Endpoint(t) => *t == rhs,
            Block::Through(t) => t.spec_horizontal() == rhs.spec_horizontal(),
            Block::Turn(t) => *t == rhs || t.spec_turn() == rhs,
            Block::Fork(t) => *t != rhs,
            Block::Cross => true,
        }
    }

    /// Whether a pipe connection can pass through this block's edge toward
    /// `rhs`.
    #[verifier::when_used_as_spec(spec_passable)]
    pub fn passable(&self, rhs: Direction) -> (r: bool)
        ensures
            r == self.spec_passable(rhs),
    {
        match self {
            Block::Empty => false,
            Block::Endpoint(t) => *t == rhs,
            Block::Through(t) => t.horizontal() == rhs.horizontal(),
            Block::Turn(t) => *t == rhs || t.turn() == rhs,
            Block::Fork(t) => *t != rhs,
            Block::Cross => true,
        }
    }

    /// The stored direction, for the four variants that carry one.
    pub open spec fn spec_direction(&self) -> Option<Direction> {
        match self {
            Block::Endpoint(t) | Block::Through(t) | Block::Turn(t) | Block::Fork(t) => Some(*t),
            _ => None,
        }
    }

    /// The stored direction: `Some` exactly for `Endpoint`, `Through`, `Turn`
    /// and `Fork`.
    #[verifier::when_used_as_spec(spec_direction)]
    pub fn direction(&self) -> (r: Option<Direction>)
        ensures
            r == self.spec_direction(),
    {
        match self {
            Block::Endpoint(t) | Block::Through(t) | Block::Turn(t) | Block::Fork(t) => Some(*t),
            _ => None,
        }
    }

    /// Two blocks sharing an edge agree on whether that edge is open:
    /// `self`'s side toward `side`, `other`'s side toward the opposite.
    pub open spec fn spec_fit(&self, side: Direction, other: &Block) -> bool {
        self.spec_passable(side) == other.spec_passable(side.spec_opposite())
    }

    /// Whether this block fits `other`, its neighbor toward `side`.
    #[verifier::when_used_as_spec(spec_fit)]
    pub fn fit(&self, side: Direction, other: &Block) -> (r: bool)
        ensures
            r == self.spec_fit(side, other),
    {
        self.passable(side) == other.passable(side.opposite())
    }
}

/// Rotating any block four times clockwise comes back to the start; `Empty`
/// and `Cross` are fixed points of a single rotation already.
pub proof fn lemma_block_turn_four_cycle(b: Block)
    ensures
        b.spec_turn().spec_turn().spec_turn().spec_turn() == b,
        b == Block::Empty ==> b.spec_turn() == b,
        b == Block::Cross ==> b.spec_turn() == b,
{
}

/// `fit` is direction-symmetric: whether `a` fits its neighbor `b` toward
/// `side` is the same judgement as whether `b` fits `a` toward the opposite
/// side. In particular `a.fit(Right, b) == b.fit(Left, a)`.
pub proof fn lemma_fit_symmetric(a: Block, side: Direction, b: Block)
    ensures
        a.spec_fit(side, &b) == b.spec_fit(side.spec_opposite(), &a),
{
}



/// The code byte that stands for `b` in the plain-text level format.
///
/// The codes, as ASCII characters: `' '` Empty; `'^' '>' 'v' '<'` Endpoint
/// Up/Right/Down/Left; `'/'` vertical and `'-'` horizontal Through;
/// `'1' '7' '9' '3'` Turn Up/Right/Down/Left; `'8' '6' '2' '4'` Fork
/// Up/Right/Down/Left; `'5'` Cross.
pub open spec fn spec_format(b: Block) -> u8 {
    match b {
        Block::Empty => 32u8,
        Block::Endpoint(Direction::Up) => 94u8,
        Block::Endpoint(Direction::Right) => 62u8,
        Block::Endpoint(Direction::Down) => 118u8,
        Block::Endpoint(Direction::Left) => 60u8,
        Block::Through(Direction::Up) | Block::Through(Direction::Down) => 47u8,
        Block::Through(Direction::Left) | Block::Through(Direction::Right) => 45u8,
        Block::Turn(Direction::Up) => 49u8,
        Block::Turn(Direction::Right) => 55u8,
        Block::Turn(Direction::Down) => 57u8,
        Block::Turn(Direction::Left) => 51u8,
        Block::Fork(Direction::Up) => 56u8,
        Block::Fork(Direction::Right) => 54u8,
        Block::Fork(Direction::Down) => 50u8,
        Block::Fork(Direction::Left) => 52u8,
        Block::Cross => 53u8,
    }
}

/// The block that the code byte `c` stands for, or `None` when `c` is not a
/// tile code. The vertical straight pipe is written canonically as
/// `Through(Up)` and the horizontal one as `Through(Left)`.
pub open spec fn spec_parse(c: u8) -> Option<Block> {
    match c {
        32u8 => Some(Block::Empty),
        94u8 => Some(Block::Endpoint(Direction::Up)),
        62u8 => Some(Block::Endpoint(Direction::Right)),
        118u8 => Some(Block::Endpoint(Direction::Down)),
        60u8 => Some(Block::Endpoint(Direction::Left)),
        47u8 => Some(Block::Through(Direction::Up)),
        45u8 => Some(Block::Through(Direction::Left)),
        49u8 => Some(Block::Turn(Direction::Up)),
        55u8 => Some(Block::Turn(Direction::Right)),
        57u8 => Some(Block::Turn(Direction::Down)),
        51u8 => Some(Block::Turn(Direction::Left)),
        56u8 => Some(Block::Fork(Direction::Up)),
        54u8 => Some(Block::Fork(Direction::Right)),
        50u8 => Some(Block::Fork(Direction::Down)),
        52u8 => Some(Block::Fork(Direction::Left)),
        53u8 => Some(Block::Cross),
        _ => None,
    }
}

/// A block is canonical when its stored direction is one the codec can write
/// back unchanged: a `Through` block names its axis by `Up` or `Left`.
pub open spec fn canonical(b: Block) -> bool {
    match b {
        Block::Through(t) => t == Direction::Up || t == Direction::Left,
        _ => true,
    }
}

impl Block {
    /// Read one tile code byte; every byte outside the code table is rejected.
    pub fn parse(c: u8) -> (r: Option<Block>)
        ensures
            r == spec_parse(c),
    {
        match c {
            32u8 => Some(Block::Empty),
            94u8 => Some(Block::Endpoint(Direction::Up)),
            62u8 => Some(Block::Endpoint(Direction::Right)),
            118u8 => Some(Block::Endpoint(Direction::Down)),
            60u8 => Some(Block::Endpoint(Direction::Left)),
            47u8 => Some(Block::Through(Direction::Up)),
            45u8 => Some(Block::Through(Direction::Left)),
            49u8 => Some(Block::Turn(Direction::Up)),
            55u8 => Some(Block::Turn(Direction::Right)),
            57u8 => Some(Block::Turn(Direction::Down)),
            51u8 => Some(Block::Turn(Direction::Left)),
            56u8 => Some(Block::Fork(Direction::Up)),
            54u8 => Some(Block::Fork(Direction::Right)),
            50u8 => Some(Block::Fork(Direction::Down)),
            52u8 => Some(Block::Fork(Direction::Left)),
            53u8 => Some(Block::Cross),
            _ => None,
        }
    }

    /// Write this block's tile code byte.
    pub fn format(&self) -> (r: u8)
        ensures
            r == spec_format(*self),
    {
        match self {
            Block::Empty => 32u8,
            Block::Endpoint(Direction::Up) => 94u8,
            Block::Endpoint(Direction::Right) => 62u8,
            Block::Endpoint(Direction::Down) => 118u8,
            Block::Endpoint(Direction::Left) => 60u8,
            Block::Through(Direction::Up) | Block::Through(Direction::Down) => 47u8,
            Block::Through(Direction::Left) | Block::Through(Direction::Right) => 45u8,
            Block::Turn(Direction::Up) => 49u8,
            Block::Turn(Direction::Right) => 55u8,
            Block::Turn(Direction::Down) => 57u8,
            Block::Turn(Direction::Left) => 51u8,
            Block::Fork(Direction::Up) => 56u8,
            Block::Fork(Direction::Right) => 54u8,
            Block::Fork(Direction::Down) => 50u8,
            Block::Fork(Direction::Left) => 52u8,
            Block::Cross => 53u8,
        }
    }
}

/// Parsing a formatted block gives the block back, for canonical blocks; and
/// whatever parses formats back to the byte it came from. Tile codes are
/// printable, so none is a newline or a comma.
pub proof fn lemma_block_codec_bijective(b: Block, c: u8)
    ensures
        canonical(b) ==> spec_parse(spec_format(b)) == Some(b),
        spec_parse(c) is Some ==> {
            &&& spec_format(spec_parse(c)->Some_0) == c
            &&& canonical(spec_parse(c)->Some_0)
        },
        spec_format(b) != 10u8 && spec_format(b) != 44u8,
{
}



/// Two blocks are of the same kind when they are the same variant, whatever
/// direction each carries; for `Empty` and `Cross`, when they are equal.
pub open spec fn same_kind(a: Block, b: Block) -> bool {
    match (a, b) {
        (Block::Empty, Block::Empty) => true,
        (Block::Endpoint(_), Block::Endpoint(_)) => true,
        (Block::Through(_), Block::Through(_)) => true,
        (Block::Turn(_), Block::Turn(_)) => true,
        (Block::Fork(_), Block::Fork(_)) => true,
        (Block::Cross, Block::Cross) => true,
        _ => false,
    }
}


impl Block {
    /// A mutable borrow of the stored direction, for the four variants that
    /// carry one: writing through it re-aims the block without changing its
    /// kind. `Empty` and `Cross` give `None` and stay as they are.
    pub fn direction_mut(&mut self) -> (r: Option<&mut Direction>)
        ensures
            r is Some <==> old(self).spec_direction() is Some,
            r is None ==> *final(self) == *old(self),
            r is Some ==> {
                &&& *r->Some_0 == old(self).spec_direction()->Some_0
                &&& same_kind(*old(self), *final(self))
                &&& final(self).spec_direction() == Some(*final(r->Some_0))
            },
    {
        match self {
            Block::Endpoint(t) => Some(t),
            Block::Through(t) => Some(t),
            Block::Turn(t) => Some(t),
            Block::Fork(t) => Some(t),
            _ => None,
        }
    }
}

} // verus!
