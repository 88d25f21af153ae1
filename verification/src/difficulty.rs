use vstd::prelude::*;

use crate::grid_size::GridSize;

verus! {

/// A difficulty preset: a board size and a mine count.
///
/// `Custom` is not validated: its mine count may exceed the board's
/// capacity, and the reveal pass tolerates that by placing fewer mines.
#[derive(Clone, Copy, Debug, PartialEq, Eq, Structural)]
pub enum Difficulty {
    Beginner,
    Intermediate,
    Expert,
    Custom { size: GridSize, mines: usize },
}

impl Difficulty {
    pub open spec fn spec_size(self) -> GridSize {
        match self {
            Difficulty::Beginner => GridSize { columns: 8, rows: 8 },
            Difficulty::Intermediate => GridSize { columns: 16, rows: 16 },
            Difficulty::Expert => GridSize { columns: 32, rows: 16 },
            Difficulty::Custom { size, mines } => size,
        }
    }

    pub open spec fn spec_mines(self) -> usize {
        match self {
            Difficulty::Beginner => 10,
            Difficulty::Intermediate => 40,
            Difficulty::Expert => 100,
            Difficulty::Custom { size, mines } => mines,
        }
    }

    /// A difficulty is well formed when its board size is: the presets are
    /// by construction, a `Custom` value must bring a well-formed size.
    pub open spec fn wf(self) -> bool {
        self.spec_size().wf()
    }

    /// The board size this difficulty asks for.
    pub fn size(&self) -> (r: GridSize)
        ensures
            r == self.spec_size(),
    {
        match self {
            Difficulty::Beginner => GridSize::new(8, 8),
            Difficulty::Intermediate => GridSize::new(16, 16),
            Difficulty::Expert => GridSize::new(32, 16),
            Difficulty::Custom { size, mines: _ } => *size,
        }
    }

    /// The number of mines the reveal pass will try to place.
    pub fn mines(&self) -> (r: usize)
        ensures
            r == self.spec_mines(),
    {
        match self {
            Difficulty::Beginner => 10,
            Difficulty::Intermediate => 40,
            Difficulty::Expert => 100,
            Difficulty::Custom { size: _, mines } => *mines,
        }
    }

    /// Replace the active difficulty wholesale; there is no partial mutation.
    pub fn change(&mut self, new_value: Difficulty)
        ensures
            *final(self) == new_value,
    {
        *self = new_value;
    }
}

impl Default for Difficulty {
    /// A fresh game starts at `Beginner`.
    fn default() -> (r: Difficulty)
        ensures
            r == Difficulty::Beginner,
    {
        Difficulty::Beginner
    }
}

} // verus!
