//! A command-driven reducer over a [`World`], a cursor and a cached solved
//! flag.

use vstd::prelude::*;

use crate::block::Block;
use crate::block::Direction;
use crate::world::insert_column_rel;
use crate::world::insert_row_rel;
use crate::world::remove_column_rel;
use crate::world::remove_row_rel;
use crate::world::replace_rel;
use crate::world::rotate_rel;
use crate::world::World;

verus! {

/// A game control command, applied through [`Game::apply`].
#[derive(Debug, Clone)]
pub enum Command {
    /// Do nothing.
    Noop,
    /// Replace the game world wholesale and put the cursor back at (0, 0);
    /// used to switch or restart a level.
    Reset(World),
    /// Move the cursor one block toward the given direction, stopping at the
    /// grid edge.
    MoveCursor(Direction),
    /// Rotate the block under the cursor one step clockwise.
    RotateCursorBlock,
    /// Rotate the block at the given (row, col) one step clockwise.
    RotateBlock(usize, usize),
    /// Replace the block under the cursor.
    ReplaceCursorBlock(Block),
    /// Replace the block at the given (row, col).
    ReplaceBlock(usize, usize, Block),
    /// Insert a row of empty blocks before the given row index.
    InsertRow(usize),
    /// Insert a column of empty blocks before the given column index.
    InsertColumn(usize),
    /// Remove the row at the given index; removing the last row is a no-op.
    RemoveRow(usize),
    /// Remove the column at the given index; removing the last column is a
    /// no-op.
    RemoveColumn(usize),
}

/// A playable session: one grid, a cursor that always stays within bounds,
/// and a solved flag that is recomputed after every mutating command, so it
/// is never stale between commands.
#[derive(Debug, Clone)]
pub struct Game {
    /// The grid being played.
    pub world: World,
    /// Cursor row, always below the grid height.
    pub row: usize,
    /// Cursor column, always below the grid width.
    pub col: usize,
    /// Cached result of the last solve check of `world`.
    pub solved: bool,
}

impl Game {
    /// The game invariant: the grid is well formed, the cursor is in bounds,
    /// and the cached flag agrees with a fresh solve check of the grid.
    pub open spec fn wf(&self) -> bool {
        &&& self.world.wf()
        &&& self.row < self.world.height
        &&& self.col < self.world.width
        &&& self.solved == self.world.spec_solved()
    }

    /// Create a new game over `world`, with the cursor at (0, 0).
    pub fn new(world: World) -> (g: Game)
        requires
            world.wf(),
        ensures
            g.wf(),
            g.world == world,
            g.row == 0,
            g.col == 0,
    {
        Game { solved: world.solved(), col: 0, row: 0, world }
    }

    /// The cursor as `(row, col)`.
    pub fn cursor(&self) -> (r: (usize, usize))
        ensures
            r.0 == self.row,
            r.1 == self.col,
    {
        (self.row, self.col)
    }

    /// Cursor column.
    pub fn col(&self) -> (c: usize)
        ensures
            c == self.col,
    {
        self.col
    }

    /// Cursor row.
    pub fn row(&self) -> (r: usize)
        ensures
            r == self.row,
    {
        self.row
    }

    /// The cached solved flag; for a well-formed game it equals what a fresh
    /// solve check of the grid returns.
    pub fn solved(&self) -> (r: bool)
        ensures
            r == self.solved,
            self.wf() ==> r == self.world.spec_solved(),
    {
        self.solved
    }

    /// Borrow the game world.
    pub fn world(&self) -> (w: &World)
        ensures
            *w == self.world,
    {
        &self.world
    }

    /// Give the game world up.
    pub fn into_inner(self) -> (w: World)
        ensures
            w == self.world,
    {
        self.world
    }

    /// What `apply` asks of a command: addressed cells lie in the grid,
    /// insertion indices lie at or within the edges, a replacement world is
    /// well formed, and a grown grid still fits the machine. Removing a row
    /// or column needs a valid index only when the grid can shrink.
    pub open spec fn valid_command(&self, command: Command) -> bool {
        match command {
            Command::Noop => true,
            Command::Reset(w) => w.wf(),
            Command::MoveCursor(_) => true,
            Command::RotateCursorBlock => true,
            Command::RotateBlock(r, c) => r < self.world.height && c < self.world.width,
            Command::ReplaceCursorBlock(_) => true,
            Command::ReplaceBlock(r, c, _) => r < self.world.height && c < self.world.width,
            Command::InsertRow(i) => i <= self.world.height && (self.world.height + 1)
                * self.world.width <= usize::MAX,
            Command::InsertColumn(i) => i <= self.world.width && self.world.height
                * (self.world.width + 1) <= usize::MAX,
            Command::RemoveRow(i) => self.world.height > 1 ==> i < self.world.height,
            Command::RemoveColumn(i) => self.world.width > 1 ==> i < self.world.width,
        }
    }

    /// Where the cursor lands when moved one step toward `d`: it stops at
    /// the grid edge, with no wraparound.
    pub open spec fn spec_moved_cursor(&self, d: Direction) -> (int, int) {
        match d {
            Direction::Up => (
                if self.row > 0 {
                    self.row - 1
                } else {
                    self.row as int
                },
                self.col as int,
            ),
            Direction::Right => (
                self.row as int,
                if self.col + 1 < self.world.width {
                    self.col + 1
                } else {
                    self.col as int
                },
            ),
            Direction::Down => (
                if self.row + 1 < self.world.height {
                    self.row + 1
                } else {
                    self.row as int
                },
                self.col as int,
            ),
            Direction::Left => (
                self.row as int,
                if self.col > 0 {
                    self.col - 1
                } else {
                    self.col as int
                },
            ),
        }
    }

    fn reset(&mut self, world: World)
        requires
            world.wf(),
        ensures
            final(self).wf(),
            final(self).world == world,
            final(self).row == 0,
            final(self).col == 0,
    {
        self.col = 0;
        self.row = 0;
        self.solved = world.solved();
        self.world = world;
    }

    fn move_cursor(&mut self, dir: Direction)
        requires
            old(self).wf(),
        ensures
            final(self).wf(),
            final(self).world == old(self).world,
            final(self).solved == old(self).solved,
            (final(self).row as int, final(self).col as int) == old(self).spec_moved_cursor(dir),
    {
        match dir {
            Direction::Up => {
                if self.row > 0 {
                    self.row = self.row - 1;
                }
            }
            Direction::Right => {
                if self.col < self.world.width() - 1 {
                    self.col = self.col + 1;
                }
            }
            Direction::Down => {
                if self.row < self.world.height() - 1 {
                    self.row = self.row + 1;
                }
            }
            Direction::Left => {
                if self.col > 0 {
                    self.col = self.col - 1;
                }
            }
        }
    }

    fn rotate_block(&mut self, row: usize, col: usize)
        requires
            old(self).wf(),
            row < old(self).world.height,
            col < old(self).world.width,
        ensures
            final(self).wf(),
            final(self).row == old(self).row,
            final(self).col == old(self).col,
            rotate_rel(old(self).world, final(self).world, row as int, col as int),
    {
        self.world.rotate(row, col);
        self.solved = self.world.solved();
    }

    fn replace_block(&mut self, row: usize, col: usize, block: Block)
        requires
            old(self).wf(),
            row < old(self).world.height,
            col < old(self).world.width,
        ensures
            final(self).wf(),
            final(self).row == old(self).row,
            final(self).col == old(self).col,
            replace_rel(old(self).world, final(self).world, row as int, col as int, block),
    {
        let b = self.world.get_mut(row, col);
        *b = block;
        self.solved = self.world.solved();
    }

    fn insert_row(&mut self, index: usize)
        requires
            old(self).wf(),
            index <= old(self).world.height,
            (old(self).world.height + 1) * old(self).world.width <= usize::MAX,
        ensures
            final(self).wf(),
            final(self).col == old(self).col,
            insert_row_rel(old(self).world, final(self).world, index as int),
            final(self).row == if old(self).row >= index {
                old(self).row + 1
            } else {
                old(self).row as int
            },
    {
        self.world.insert_row(index);
        self.solved = self.world.solved();
        if self.row >= index {
            self.row = self.row + 1;
        }
    }

    fn remove_row(&mut self, index: usize)
        requires
            old(self).wf(),
            old(self).world.height > 1 ==> index < old(self).world.height,
        ensures
            final(self).wf(),
            final(self).col == old(self).col,
            old(self).world.height == 1 ==> *final(self) == *old(self),
            old(self).world.height > 1 ==> remove_row_rel(
                old(self).world,
                final(self).world,
                index as int,
            ),
            old(self).world.height > 1 ==> final(self).row == if old(self).row == old(
                self,
            ).world.height - 1 {
                old(self).row - 1
            } else {
                old(self).row as int
            },
    {
        if self.world.height() > 1 {
            self.world.remove_row(index);
            self.solved = self.world.solved();
            if self.row == self.world.height() {
                self.row = self.row - 1;
            }
        }
    }

    fn insert_column(&mut self, index: usize)
        requires
            old(self).wf(),
            index <= old(self).world.width,
            old(self).world.height * (old(self).world.width + 1) <= usize::MAX,
        ensures
            final(self).wf(),
            final(self).row == old(self).row,
            insert_column_rel(old(self).world, final(self).world, index as int),
            final(self).col == if old(self).col >= index {
                old(self).col + 1
            } else {
                old(self).col as int
            },
    {
        self.world.insert_column(index);
        self.solved = self.world.solved();
        if self.col >= index {
            self.col = self.col + 1;
        }
    }

    fn remove_column(&mut self, index: usize)
        requires
            old(self).wf(),
            old(self).world.width > 1 ==> index < old(self).world.width,
        ensures
            final(self).wf(),
            final(self).row == old(self).row,
            old(self).world.width == 1 ==> *final(self) == *old(self),
            old(self).world.width > 1 ==> remove_column_rel(
                old(self).world,
                final(self).world,
                index as int,
            ),
            old(self).world.width > 1 ==> final(self).col == if old(self).col == old(
                self,
            ).world.width - 1 {
                old(self).col - 1
            } else {
                old(self).col as int
            },
    {
        if self.world.width() > 1 {
            self.world.remove_column(index);
            self.solved = self.world.solved();
            if self.col == self.world.width() {
                self.col = self.col - 1;
            }
        }
    }

    /// Apply one command. Every mutating command recomputes the solved flag
    /// from the new grid before returning, so callers never need a separate
    /// solve check; the cursor is clamped or shifted so it stays in bounds.
    pub fn apply(&mut self, command: Command)
        requires
            old(self).wf(),
            old(self).valid_command(command),
        ensures
            final(self).wf(),
            match command {
                Command::Noop => *final(self) == *old(self),
                Command::Reset(w) => {
                    &&& final(self).world == w
                    &&& final(self).row == 0
                    &&& final(self).col == 0
                },
                Command::MoveCursor(d) => {
                    &&& final(self).world == old(self).world
                    &&& (final(self).row as int, final(self).col as int) == old(
                        self,
                    ).spec_moved_cursor(d)
                },
                Command::RotateCursorBlock => {
                    &&& final(self).row == old(self).row
                    &&& final(self).col == old(self).col
                    &&& rotate_rel(
                        old(self).world,
                        final(self).world,
                        old(self).row as int,
                        old(self).col as int,
                    )
                },
                Command::RotateBlock(r, c) => {
                    &&& final(self).row == old(self).row
                    &&& final(self).col == old(self).col
                    &&& rotate_rel(old(self).world, final(self).world, r as int, c as int)
                },
                Command::ReplaceCursorBlock(b) => {
                    &&& final(self).row == old(self).row
                    &&& final(self).col == old(self).col
                    &&& replace_rel(
                        old(self).world,
                        final(self).world,
                        old(self).row as int,
                        old(self).col as int,
                        b,
                    )
                },
                Command::ReplaceBlock(r, c, b) => {
                    &&& final(self).row == old(self).row
                    &&& final(self).col == old(self).col
                    &&& replace_rel(old(self).world, final(self).world, r as int, c as int, b)
                },
                Command::InsertRow(i) => {
                    &&& final(self).col == old(self).col
                    &&& insert_row_rel(old(self).world, final(self).world, i as int)
                    &&& final(self).row == if old(self).row >= i {
                        old(self).row + 1
                    } else {
                        old(self).row as int
                    }
                },
                Command::InsertColumn(i) => {
                    &&& final(self).row == old(self).row
                    &&& insert_column_rel(old(self).world, final(self).world, i as int)
                    &&& final(self).col == if old(self).col >= i {
                        old(self).col + 1
                    } else {
                        old(self).col as int
                    }
                },
                Command::RemoveRow(i) => {
                    &&& final(self).col == old(self).col
                    &&& old(self).world.height == 1 ==> *final(self) == *old(self)
                    &&& old(self).world.height > 1 ==> remove_row_rel(
                        old(self).world,
                        final(self).world,
                        i as int,
                    )
                    &&& old(self).world.height > 1 ==> final(self).row == if old(self).row == old(
                        self,
                    ).world.height - 1 {
                        old(self).row - 1
                    } else {
                        old(self).row as int
                    }
                },
                Command::RemoveColumn(i) => {
                    &&& final(self).row == old(self).row
                    &&& old(self).world.width == 1 ==> *final(self) == *old(self)
                    &&& old(self).world.width > 1 ==> remove_column_rel(
                        old(self).world,
                        final(self).world,
                        i as int,
                    )
                    &&& old(self).world.width > 1 ==> final(self).col == if old(self).col == old(
                        self,
                    ).world.width - 1 {
                        old(self).col - 1
                    } else {
                        old(self).col as int
                    }
                },
            },
    {
        match command {
            Command::Noop => (),
            Command::Reset(world) => self.reset(world),
            Command::MoveCursor(dir) => self.move_cursor(dir),
            Command::RotateCursorBlock => {
                let row = self.row;
                let col = self.col;
                self.rotate_block(row, col);
            }
            Command::RotateBlock(row, col) => self.rotate_block(row, col),
            Command::ReplaceCursorBlock(block) => {
                let row = self.row;
                let col = self.col;
                self.replace_block(row, col, block);
            }
            Command::ReplaceBlock(row, col, block) => self.replace_block(row, col, block),
            Command::InsertRow(index) => self.insert_row(index),
            Command::InsertColumn(index) => self.insert_column(index),
            Command::RemoveRow(index) => self.remove_row(index),
            Command::RemoveColumn(index) => self.remove_column(index),
        }
    }
}

impl Default for Game {
    /// A game over the smallest all-`Empty` grid.
    fn default() -> (g: Game)
        ensures
            g.wf(),
            g.world.height == 1,
            g.world.width == 1,
            g.world.at(0, 0) == Block::Empty,
            g.row == 0,
            g.col == 0,
    {
        Game::new(World::default())
    }
}

/// The cached solved flag is never stale: for any well-formed game it equals
/// what a fresh solve check of its grid returns, in particular right after
/// any `apply`.
pub proof fn lemma_cached_solved_accurate(g: &Game)
    requires
        g.wf(),
    ensures
        g.solved == g.world.spec_solved(),
{
}

} // verus!
