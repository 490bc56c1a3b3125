//! Randomness for shuffling tiles, drawn from the `rand` crate behind
//! trusted wrappers.

use vstd::prelude::*;

use crate::block::Block;
use crate::block::same_kind;
use crate::block::Direction;
use crate::world::World;

verus! {

/// The `rand` crate's lazily seeded thread-local generator, opaque here:
/// callers create one with `rand::thread_rng()` and pass it in.
#[verifier::external_type_specification]
#[verifier::external_body]
pub struct ExThreadRng(rand::rngs::ThreadRng);

/// Relies on `rand::Rng::gen_range` over the range `0..=hi`: the sample lies
/// within that range. Which value comes back is chance, so nothing more is
/// stated.
#[verifier::external_body]
fn gen_upto(rng: &mut rand::rngs::ThreadRng, hi: u8) -> (r: u8)
    ensures
        r <= hi,
{
    rand::Rng::gen_range(rng, 0..=hi)
}

impl Direction {
    /// Draw a direction at random; any of the four can come back.
    pub fn random(rng: &mut rand::rngs::ThreadRng) -> Direction {
        match gen_upto(rng, 3) {
            0 => Direction::Up,
            1 => Direction::Right,
            2 => Direction::Down,
            _ => Direction::Left,
        }
    }
}

impl Block {
    /// Draw a block at random, with a random facing where the kind carries
    /// one. `Empty` can only come back when `allow_empty` is set.
    pub fn random(rng: &mut rand::rngs::ThreadRng, allow_empty: bool) -> (r: Block)
        ensures
            !allow_empty ==> r != Block::Empty,
    {
        let ty_start: u8 = if allow_empty { 0 } else { 1 };
        let ty = ty_start + gen_upto(rng, 5 - ty_start);

        match ty {
            0 => Block::Empty,
            1 => Block::Endpoint(Direction::random(rng)),
            2 => Block::Through(Direction::random(rng)),
            3 => Block::Turn(Direction::random(rng)),
            4 => Block::Fork(Direction::random(rng)),
            _ => Block::Cross,
        }
    }

    /// Re-randomize the stored direction; the kind of block never changes,
    /// so `Empty` and `Cross` stay exactly as they are.
    pub fn shuffle(&mut self, rng: &mut rand::rngs::ThreadRng)
        ensures
            same_kind(*old(self), *final(self)),
    {
        match self {
            Block::Endpoint(_) => {
                *self = Block::Endpoint(Direction::random(rng));
            }
            Block::Through(_) => {
                *self = Block::Through(Direction::random(rng));
            }
            Block::Turn(_) => {
                *self = Block::Turn(Direction::random(rng));
            }
            Block::Fork(_) => {
                *self = Block::Fork(Direction::random(rng));
            }
            _ => (),
        }
    }
}


impl World {
    /// Re-randomize every block's facing in place: each block keeps its kind
    /// and its position, only stored directions change.
    pub fn shuffle(&mut self, rng: &mut rand::rngs::ThreadRng)
        requires
            old(self).wf(),
        ensures
            final(self).wf(),
            final(self).same_dims(old(self)),
            forall|r: int, c: int|
                0 <= r < old(self).height && 0 <= c < old(self).width ==> same_kind(
                    old(self).at(r, c),
                    #[trigger] final(self).at(r, c),
                ),
    {
        let ghost start = *self;
        let height = self.height;
        let width = self.width;
        let mut r: usize = 0;
        while r < height
            invariant
                r <= height,
                self.wf(),
                self.height == height,
                self.width == width,
                start.height == height,
                start.width == width,
                forall|rr: int, cc: int|
                    0 <= rr < r && 0 <= cc < width ==> same_kind(
                        start.at(rr, cc),
                        #[trigger] self.at(rr, cc),
                    ),
                forall|rr: int, cc: int|
                    r <= rr < height && 0 <= cc < width ==> #[trigger] self.at(rr, cc) == start.at(
                        rr,
                        cc,
                    ),
            decreases height - r,
        {
            let mut c: usize = 0;
            while c < width
                invariant
                    r < height,
                    c <= width,
                    self.wf(),
                    self.height == height,
                    self.width == width,
                    start.height == height,
                    start.width == width,
                    forall|rr: int, cc: int|
                        0 <= rr < r && 0 <= cc < width ==> same_kind(
                            start.at(rr, cc),
                            #[trigger] self.at(rr, cc),
                        ),
                    forall|cc: int|
                        0 <= cc < c ==> same_kind(
                            start.at(r as int, cc),
                            #[trigger] self.at(r as int, cc),
                        ),
                    forall|cc: int|
                        c <= cc < width ==> #[trigger] self.at(r as int, cc) == start.at(
                            r as int,
                            cc,
                        ),
                    forall|rr: int, cc: int|
                        r < rr < height && 0 <= cc < width ==> #[trigger] self.at(rr, cc)
                            == start.at(rr, cc),
                decreases width - c,
            {
                let b = self.get_mut(r, c);
                b.shuffle(rng);
                c += 1;
            }
            r += 1;
        }
    }
}

} // verus!
