//! The puzzle grid: a rectangle of [`Block`]s with structural edits and the
//! solve check.

use vstd::prelude::*;

use crate::block::Block;
use crate::block::Direction;

verus! {

/// A rectangular grid of blocks, `height` rows by `width` columns, both at
/// least 1. Row `r`, column `c` counts from the top-left corner.
///
/// Every operation keeps the shape rectangular: each row holds exactly
/// `width` blocks, and there are exactly `height` rows.
#[derive(Debug, Clone)]
pub struct World {
    /// Number of rows, at least 1.
    pub height: usize,
    /// Number of columns, at least 1.
    pub width: usize,
    /// The blocks, one inner vector per row, each of length `width`.
    pub rows: Vec<Vec<Block>>,
}

impl World {
    /// The grid is rectangular: `height` rows of `width` blocks each, both
    /// dimensions at least 1, and the block count fits the machine.
    pub open spec fn wf(&self) -> bool {
        &&& 1 <= self.height
        &&& 1 <= self.width
        &&& self.height * self.width <= usize::MAX
        &&& self.rows@.len() == self.height
        &&& forall|r: int|
            0 <= r < self.height ==> (#[trigger] self.rows@[r])@.len() == self.width
    }

    /// The block at row `r`, column `c`.
    pub open spec fn at(&self, r: int, c: int) -> Block {
        self.rows@[r]@[c]
    }

    /// Both dimensions agree with `other`'s.
    pub open spec fn same_dims(&self, other: &World) -> bool {
        self.height == other.height && self.width == other.width
    }

    /// Create an all-`Empty` grid of the given size.
    pub fn empty(height: usize, width: usize) -> (w: World)
        requires
            1 <= height,
            1 <= width,
            height * width <= usize::MAX,
        ensures
            w.wf(),
            w.height == height,
            w.width == width,
            forall|r: int, c: int|
                0 <= r < height && 0 <= c < width ==> w.at(r, c) == Block::Empty,
    {
        let mut rows: Vec<Vec<Block>> = Vec::new();
        let mut r: usize = 0;
        while r < height
            invariant
                r <= height,
                rows@.len() == r,
                forall|i: int| 0 <= i < r ==> (#[trigger] rows@[i])@.len() == width,
                forall|i: int, c: int|
                    0 <= i < r && 0 <= c < width ==> rows@[i]@[c] == Block::Empty,
            decreases height - r,
        {
            let row: Vec<Block> = vec![Block::Empty; width];
            rows.push(row);
            r += 1;
        }
        World { height, width, rows }
    }

    /// Create a grid by filling each cell with `f(row, col)`.
    pub fn new_with<F: Fn(usize, usize) -> Block>(height: usize, width: usize, f: F) -> (w: World)
        requires
            1 <= height,
            1 <= width,
            height * width <= usize::MAX,
            forall|r: usize, c: usize|
                r < height && c < width ==> #[trigger] call_requires(f, (r, c)),
        ensures
            w.wf(),
            w.height == height,
            w.width == width,
            forall|r: int, c: int|
                0 <= r < height && 0 <= c < width ==> call_ensures(
                    f,
                    (r as usize, c as usize),
                    #[trigger] w.at(r, c),
                ),
    {
        let mut rows: Vec<Vec<Block>> = Vec::new();
        let mut r: usize = 0;
        while r < height
            invariant
                r <= height,
                1 <= width,
                rows@.len() == r,
                forall|rr: usize, cc: usize|
                    rr < height && cc < width ==> #[trigger] call_requires(f, (rr, cc)),
                forall|i: int| 0 <= i < r ==> (#[trigger] rows@[i])@.len() == width,
                forall|i: int, c: int|
                    0 <= i < r && 0 <= c < width ==> call_ensures(
                        f,
                        (i as usize, c as usize),
                        #[trigger] rows@[i]@[c],
                    ),
            decreases height - r,
        {
            let mut row: Vec<Block> = Vec::new();
            let mut c: usize = 0;
            while c < width
                invariant
                    r < height,
                    c <= width,
                    row@.len() == c,
                    forall|rr: usize, cc: usize|
                        rr < height && cc < width ==> #[trigger] call_requires(f, (rr, cc)),
                    forall|j: int|
                        0 <= j < c ==> call_ensures(f, (r, j as usize), #[trigger] row@[j]),
                decreases width - c,
            {
                let b = f(r, c);
                row.push(b);
                c += 1;
            }
            rows.push(row);
            r += 1;
        }
        World { height, width, rows }
    }

    /// The size of the grid as `(height, width)`.
    pub fn size(&self) -> (s: (usize, usize))
        ensures
            s.0 == self.height,
            s.1 == self.width,
    {
        (self.height, self.width)
    }

    /// Number of rows.
    pub fn height(&self) -> (h: usize)
        ensures
            h == self.height,
    {
        self.height
    }

    /// Number of columns.
    pub fn width(&self) -> (w: usize)
        ensures
            w == self.width,
    {
        self.width
    }

    /// The block at `(row, col)`, or `None` when either index is out of
    /// range.
    pub fn get(&self, row: usize, col: usize) -> (r: Option<&Block>)
        requires
            self.wf(),
        ensures
            r is Some <==> row < self.height && col < self.width,
            r is Some ==> *r->Some_0 == self.at(row as int, col as int),
    {
        if row < self.height && col < self.width {
            Some(&self.rows[row][col])
        } else {
            None
        }
    }

    /// A mutable borrow of the block at `(row, col)`; the caller must stay
    /// within bounds. Everything but that one block is left unchanged.
    pub fn get_mut(&mut self, row: usize, col: usize) -> (b: &mut Block)
        requires
            old(self).wf(),
            row < old(self).height,
            col < old(self).width,
        ensures
            *b == old(self).at(row as int, col as int),
            final(self).wf(),
            final(self).same_dims(old(self)),
            final(self).at(row as int, col as int) == *final(b),
            forall|r: int, c: int|
                0 <= r < old(self).height && 0 <= c < old(self).width && !(r == row && c == col)
                    ==> final(self).at(r, c) == old(self).at(r, c),
    {
        &mut self.rows[row][col]
    }
}


/// `post` is `pre` with the block at `(r, c)` rotated one step clockwise and
/// nothing else changed.
pub open spec fn rotate_rel(pre: World, post: World, r: int, c: int) -> bool {
    &&& post.same_dims(&pre)
    &&& post.at(r, c) == pre.at(r, c).spec_turn()
    &&& forall|rr: int, cc: int|
        0 <= rr < pre.height && 0 <= cc < pre.width && !(rr == r && cc == c)
            ==> post.at(rr, cc) == pre.at(rr, cc)
}

/// `post` is `pre` with the block at `(r, c)` replaced by `b` and nothing
/// else changed.
pub open spec fn replace_rel(pre: World, post: World, r: int, c: int, b: Block) -> bool {
    &&& post.same_dims(&pre)
    &&& post.at(r, c) == b
    &&& forall|rr: int, cc: int|
        0 <= rr < pre.height && 0 <= cc < pre.width && !(rr == r && cc == c)
            ==> post.at(rr, cc) == pre.at(rr, cc)
}

/// `post` is `pre` with one all-`Empty` row inserted before row `index`:
/// earlier rows keep their place, the rest shift down by one.
pub open spec fn insert_row_rel(pre: World, post: World, index: int) -> bool {
    &&& post.height == pre.height + 1
    &&& post.width == pre.width
    &&& forall|c: int| 0 <= c < pre.width ==> post.at(index, c) == Block::Empty
    &&& forall|r: int, c: int|
        0 <= r < index && 0 <= c < pre.width ==> post.at(r, c) == pre.at(r, c)
    &&& forall|r: int, c: int|
        index <= r < pre.height && 0 <= c < pre.width ==> post.at(r + 1, c) == pre.at(r, c)
}

/// `post` is `pre` with row `index` removed: later rows shift up by one. On
/// a grid of height 1 nothing changes: the last row never goes.
pub open spec fn remove_row_rel(pre: World, post: World, index: int) -> bool {
    if pre.height == 1 {
        post == pre
    } else {
        &&& post.height == pre.height - 1
        &&& post.width == pre.width
        &&& forall|r: int, c: int|
            0 <= r < index && 0 <= c < pre.width ==> post.at(r, c) == pre.at(r, c)
        &&& forall|r: int, c: int|
            index <= r < pre.height - 1 && 0 <= c < pre.width ==> post.at(r, c) == pre.at(
                r + 1,
                c,
            )
    }
}

/// `post` is `pre` with one all-`Empty` column inserted before column
/// `index`: earlier columns keep their place, the rest shift right by one.
pub open spec fn insert_column_rel(pre: World, post: World, index: int) -> bool {
    &&& post.height == pre.height
    &&& post.width == pre.width + 1
    &&& forall|r: int| 0 <= r < pre.height ==> post.at(r, index) == Block::Empty
    &&& forall|r: int, c: int|
        0 <= r < pre.height && 0 <= c < index ==> post.at(r, c) == pre.at(r, c)
    &&& forall|r: int, c: int|
        0 <= r < pre.height && index <= c < pre.width ==> post.at(r, c + 1) == pre.at(r, c)
}

/// `post` is `pre` with column `index` removed: later columns shift left by
/// one. On a grid of width 1 nothing changes: the last column never goes.
pub open spec fn remove_column_rel(pre: World, post: World, index: int) -> bool {
    if pre.width == 1 {
        post == pre
    } else {
        &&& post.height == pre.height
        &&& post.width == pre.width - 1
        &&& forall|r: int, c: int|
            0 <= r < pre.height && 0 <= c < index ==> post.at(r, c) == pre.at(r, c)
        &&& forall|r: int, c: int|
            0 <= r < pre.height && index <= c < pre.width - 1 ==> post.at(r, c) == pre.at(
                r,
                c + 1,
            )
    }
}

/// An all-`Empty` grid is never solved, whatever its size.
pub proof fn lemma_all_empty_not_solved(w: World)
    requires
        w.wf(),
        forall|r: int, c: int|
            0 <= r < w.height && 0 <= c < w.width ==> #[trigger] w.at(r, c) == Block::Empty,
    ensures
        !w.spec_solved(),
{
    assert(!w.any_filled());
}

/// Indices in a row-major walk grow with the cell's position: an earlier
/// cell (by row, then column) has a smaller flat index.
proof fn lemma_row_major_lt(r1: int, c1: int, r2: int, c2: int, w: int)
    requires
        0 <= r1,
        0 <= c1 < w,
        0 <= c2,
        r1 < r2 || (r1 == r2 && c1 < c2),
    ensures
        r1 * w + c1 < r2 * w + c2,
{
    assert(r1 * w + c1 < r2 * w + c2) by (nonlinear_arith)
        requires
            0 <= r1,
            0 <= c1 < w,
            0 <= c2,
            r1 < r2 || (r1 == r2 && c1 < c2),
    ;
}

/// A cell's flat row-major index lies below the total block count.
proof fn lemma_row_major_bound(r: int, c: int, h: int, w: int)
    requires
        0 <= r < h,
        0 <= c < w,
    ensures
        0 <= r * w + c < h * w,
{
    assert(0 <= r * w + c < h * w) by (nonlinear_arith)
        requires
            0 <= r < h,
            0 <= c < w,
    ;
}

impl Default for World {
    /// The smallest grid: a single `Empty` block.
    fn default() -> (w: World)
        ensures
            w.wf(),
            w.height == 1,
            w.width == 1,
            w.at(0, 0) == Block::Empty,
    {
        World::empty(1, 1)
    }
}

impl World {
    /// Create a grid of the given size from a flat, row-major block vector,
    /// whose length must be exactly `height * width`.
    pub fn new_from_blocks(height: usize, width: usize, blocks: Vec<Block>) -> (w: World)
        requires
            1 <= height,
            1 <= width,
            height * width <= usize::MAX,
            blocks@.len() == height * width,
        ensures
            w.wf(),
            w.height == height,
            w.width == width,
            forall|r: int, c: int|
                0 <= r < height && 0 <= c < width ==> #[trigger] w.at(r, c) == blocks@[r * width
                    + c],
    {
        let mut rows: Vec<Vec<Block>> = Vec::new();
        let mut r: usize = 0;
        let mut i: usize = 0;
        while r < height
            invariant
                r <= height,
                1 <= width,
                height * width <= usize::MAX,
                blocks@.len() == height * width,
                i == r * width,
                i <= height * width,
                rows@.len() == r,
                forall|rr: int| 0 <= rr < r ==> (#[trigger] rows@[rr])@.len() == width,
                forall|rr: int, cc: int|
                    0 <= rr < r && 0 <= cc < width ==> #[trigger] rows@[rr]@[cc] == blocks@[rr
                        * width + cc],
            decreases height - r,
        {
            let mut row: Vec<Block> = Vec::new();
            let mut c: usize = 0;
            while c < width
                invariant
                    r < height,
                    c <= width,
                    1 <= width,
                    height * width <= usize::MAX,
                    blocks@.len() == height * width,
                    i == r * width + c,
                    row@.len() == c,
                    forall|cc: int|
                        0 <= cc < c ==> #[trigger] row@[cc] == blocks@[r * width + cc],
                decreases width - c,
            {
                proof {
                    lemma_row_major_bound(r as int, c as int, height as int, width as int);
                }
                row.push(blocks[i]);
                i += 1;
                c += 1;
            }
            rows.push(row);
            r += 1;
            proof {
                assert(r * width == (r - 1) * width + width) by (nonlinear_arith);
                assert(r * width <= height * width) by (nonlinear_arith)
                    requires
                        0 <= r <= height,
                        0 <= width,
                ;
            }
        }
        World { height, width, rows }
    }

    /// Hand the blocks back as one flat, row-major vector.
    pub fn into_inner(self) -> (blocks: Vec<Block>)
        requires
            self.wf(),
        ensures
            blocks@.len() == self.height * self.width,
            forall|r: int, c: int|
                0 <= r < self.height && 0 <= c < self.width ==> blocks@[r * self.width + c]
                    == #[trigger] self.at(r, c),
    {
        let height = self.height;
        let width = self.width;
        let mut blocks: Vec<Block> = Vec::new();
        let mut r: usize = 0;
        while r < height
            invariant
                r <= height,
                1 <= width,
                self.wf(),
                height == self.height,
                width == self.width,
                blocks@.len() == r * width,
                forall|rr: int, cc: int|
                    0 <= rr < r && 0 <= cc < width ==> blocks@[rr * width + cc]
                        == #[trigger] self.at(rr, cc),
            decreases height - r,
        {
            let mut c: usize = 0;
            while c < width
                invariant
                    r < height,
                    c <= width,
                    1 <= width,
                    self.wf(),
                    height == self.height,
                    width == self.width,
                    blocks@.len() == r * width + c,
                    forall|rr: int, cc: int|
                        0 <= rr < r && 0 <= cc < width ==> blocks@[rr * width + cc]
                            == #[trigger] self.at(rr, cc),
                    forall|cc: int|
                        0 <= cc < c ==> blocks@[r * width + cc] == #[trigger] self.at(r as int, cc),
                decreases width - c,
            {
                proof {
                    lemma_row_major_bound(r as int, c as int, height as int, width as int);
                }
                let b = self.rows[r][c];
                let ghost pre = blocks@;
                blocks.push(b);
                proof {
                    assert forall|rr: int, cc: int|
                        0 <= rr < r && 0 <= cc < width implies blocks@[rr * width + cc]
                        == #[trigger] self.at(rr, cc) by {
                        lemma_row_major_lt(rr, cc, r as int, c as int, width as int);
                        assert(pre[rr * width + cc] == self.at(rr, cc));
                    }
                    assert forall|cc: int|
                        0 <= cc <= c implies blocks@[r * width + cc] == #[trigger] self.at(
                        r as int,
                        cc,
                    ) by {
                        if cc < c {
                            lemma_row_major_lt(r as int, cc, r as int, c as int, width as int);
                            assert(pre[r * width + cc] == self.at(r as int, cc));
                        } else {
                            assert(r * width + c == pre.len());
                        }
                    }
                }
                c += 1;
            }
            r += 1;
            proof {
                assert(r * width == (r - 1) * width + width) by (nonlinear_arith);
            }
        }
        blocks
    }

    /// Insert an all-`Empty` row before row `index`; rows at or past `index`
    /// shift down by one and the height grows by one.
    pub fn insert_row(&mut self, index: usize)
        requires
            old(self).wf(),
            index <= old(self).height,
            (old(self).height + 1) * old(self).width <= usize::MAX,
        ensures
            final(self).wf(),
            insert_row_rel(*old(self), *final(self), index as int),
    {
        proof {
            let h = self.height as int;
            let w = self.width as int;
            assert(h + 1 <= (h + 1) * w) by (nonlinear_arith)
                requires
                    1 <= w,
                    0 <= h,
            ;
        }
        let row: Vec<Block> = vec![Block::Empty; self.width];
        self.rows.insert(index, row);
        self.height = self.height + 1;
    }

    /// Remove row `index`; rows below shift up and the height shrinks by
    /// one. On a grid of height 1 this is a no-op: the last row never goes.
    pub fn remove_row(&mut self, index: usize)
        requires
            old(self).wf(),
            index < old(self).height,
        ensures
            final(self).wf(),
            remove_row_rel(*old(self), *final(self), index as int),
    {
        if self.height > 1 {
            let _ = self.rows.remove(index);
            self.height = self.height - 1;
            proof {
                let h0 = old(self).height as int;
                let h = self.height as int;
                let w = self.width as int;
                assert(h * w <= h0 * w) by (nonlinear_arith)
                    requires
                        0 <= h <= h0,
                        0 <= w,
                ;
            }
        }
    }

    /// Insert an all-`Empty` column before column `index`; columns at or
    /// past `index` shift right by one and the width grows by one.
    pub fn insert_column(&mut self, index: usize)
        requires
            old(self).wf(),
            index <= old(self).width,
            old(self).height * (old(self).width + 1) <= usize::MAX,
        ensures
            final(self).wf(),
            insert_column_rel(*old(self), *final(self), index as int),
    {
        proof {
            let h = self.height as int;
            let w = self.width as int;
            assert(w + 1 <= h * (w + 1)) by (nonlinear_arith)
                requires
                    1 <= h,
                    0 <= w,
            ;
        }
        let ghost start = *self;
        let height = self.height;
        let mut r: usize = 0;
        while r < height
            invariant
                r <= height,
                height == self.height,
                self.height == start.height,
                self.width == start.width,
                start.wf(),
                index <= start.width,
                self.rows@.len() == start.rows@.len(),
                forall|rr: int|
                    0 <= rr < r ==> (#[trigger] self.rows@[rr])@ == start.rows@[rr]@.insert(
                        index as int,
                        Block::Empty,
                    ),
                forall|rr: int| r <= rr < height ==> self.rows@[rr] == start.rows@[rr],
            decreases height - r,
        {
            proof {
                assert(self.rows@[r as int] == start.rows@[r as int]);
                assert((start.rows@[r as int])@.len() == start.width);
            }
            let row = &mut self.rows[r];
            row.insert(index, Block::Empty);
            r += 1;
        }
        self.width = self.width + 1;
    }

    /// Remove column `index`; columns right of it shift left and the width
    /// shrinks by one. On a grid of width 1 this is a no-op: the last
    /// column never goes.
    pub fn remove_column(&mut self, index: usize)
        requires
            old(self).wf(),
            index < old(self).width,
        ensures
            final(self).wf(),
            remove_column_rel(*old(self), *final(self), index as int),
    {
        if self.width > 1 {
            let ghost start = *self;
            let height = self.height;
            let mut r: usize = 0;
            while r < height
                invariant
                    r <= height,
                    height == self.height,
                    self.height == start.height,
                    self.width == start.width,
                    start.wf(),
                    index < start.width,
                    1 < start.width,
                    self.rows@.len() == start.rows@.len(),
                    forall|rr: int|
                        0 <= rr < r ==> (#[trigger] self.rows@[rr])@ == start.rows@[rr]@.remove(
                            index as int,
                        ),
                    forall|rr: int| r <= rr < height ==> self.rows@[rr] == start.rows@[rr],
                decreases height - r,
            {
                proof {
                    assert(self.rows@[r as int] == start.rows@[r as int]);
                    assert((start.rows@[r as int])@.len() == start.width);
                }
                let row = &mut self.rows[r];
                let _ = row.remove(index);
                r += 1;
            }
            self.width = self.width - 1;
            proof {
                let w0 = old(self).width as int;
                let h = self.height as int;
                let w = self.width as int;
                assert(h * w <= h * w0) by (nonlinear_arith)
                    requires
                        0 <= w <= w0,
                        0 <= h,
                ;
            }
        }
    }

    /// Rotate the block at `(row, col)` one step clockwise.
    pub fn rotate(&mut self, row: usize, col: usize)
        requires
            old(self).wf(),
            row < old(self).height,
            col < old(self).width,
        ensures
            final(self).wf(),
            rotate_rel(*old(self), *final(self), row as int, col as int),
    {
        let b = self.get_mut(row, col);
        b.turn_me();
    }
}



impl World {
    /// The local constraint at cell `(r, c)`: no edge opens off-grid, and the
    /// cell fits its right and its down neighbor where those exist. Checking
    /// only right and down per cell covers every internal edge exactly once.
    pub open spec fn cell_ok(&self, r: int, c: int) -> bool {
        &&& !(r == 0 && self.at(r, c).spec_passable(Direction::Up))
        &&& !(r == self.height - 1 && self.at(r, c).spec_passable(Direction::Down))
        &&& !(c == 0 && self.at(r, c).spec_passable(Direction::Left))
        &&& !(c == self.width - 1 && self.at(r, c).spec_passable(Direction::Right))
        &&& (c + 1 < self.width ==> self.at(r, c).spec_fit(Direction::Right, &self.at(r, c + 1)))
        &&& (r + 1 < self.height ==> self.at(r, c).spec_fit(Direction::Down, &self.at(r + 1, c)))
    }

    /// Every cell's local constraint holds.
    pub open spec fn all_fit(&self) -> bool {
        forall|r: int, c: int|
            0 <= r < self.height && 0 <= c < self.width ==> #[trigger] self.cell_ok(r, c)
    }

    /// At least one block is not `Empty`.
    pub open spec fn any_filled(&self) -> bool {
        exists|r: int, c: int|
            0 <= r < self.height && 0 <= c < self.width && #[trigger] self.at(r, c)
                != Block::Empty
    }

    /// The grid counts as solved when every local constraint holds and at
    /// least one block is not `Empty`: the pipes form closed, internally
    /// consistent networks with no open end at the boundary.
    pub open spec fn spec_solved(&self) -> bool {
        self.all_fit() && self.any_filled()
    }

    /// Check the local constraint at `(row, col)`.
    fn check_block_fit_with_right_down(&self, row: usize, col: usize) -> (r: bool)
        requires
            self.wf(),
            row < self.height,
            col < self.width,
        ensures
            r == self.cell_ok(row as int, col as int),
    {
        let block = &self.rows[row][col];

        if row == 0 && block.passable(Direction::Up)
            || row == self.height - 1 && block.passable(Direction::Down)
            || col == 0 && block.passable(Direction::Left)
            || col == self.width - 1 && block.passable(Direction::Right) {
            return false;
        }

        let next_col = col + 1;
        if next_col < self.width {
            let right = &self.rows[row][next_col];
            if !block.fit(Direction::Right, right) {
                return false;
            }
        }

        let next_row = row + 1;
        if next_row < self.height {
            let down = &self.rows[next_row][col];
            if !block.fit(Direction::Down, down) {
                return false;
            }
        }

        true
    }

    /// Decide whether the grid is solved; true exactly when every cell's
    /// local constraint holds and some block is non-`Empty`.
    pub fn solved(&self) -> (r: bool)
        requires
            self.wf(),
        ensures
            r == self.spec_solved(),
    {
        let height = self.height;
        let width = self.width;
        let mut filled = false;
        let mut row: usize = 0;
        while row < height
            invariant
                row <= height,
                self.wf(),
                height == self.height,
                width == self.width,
                forall|rr: int, cc: int|
                    0 <= rr < row && 0 <= cc < width ==> #[trigger] self.cell_ok(rr, cc),
                filled <==> exists|rr: int, cc: int|
                    0 <= rr < row && 0 <= cc < width && #[trigger] self.at(rr, cc) != Block::Empty,
            decreases height - row,
        {
            let mut col: usize = 0;
            while col < width
                invariant
                    row < height,
                    col <= width,
                    self.wf(),
                    height == self.height,
                    width == self.width,
                    forall|rr: int, cc: int|
                        0 <= rr < row && 0 <= cc < width ==> #[trigger] self.cell_ok(rr, cc),
                    forall|cc: int| 0 <= cc < col ==> #[trigger] self.cell_ok(row as int, cc),
                    filled <==> exists|rr: int, cc: int|
                        (0 <= rr < row && 0 <= cc < width || rr == row && 0 <= cc < col)
                            && #[trigger] self.at(rr, cc) != Block::Empty,
                decreases width - col,
            {
                if !self.check_block_fit_with_right_down(row, col) {
                    assert(!self.cell_ok(row as int, col as int));
                    return false;
                }
                let b = &self.rows[row][col];
                if !matches!(b, Block::Empty) {
                    filled = true;
                }
                col += 1;
            }
            row += 1;
        }
        filled
    }
}

} // verus!
