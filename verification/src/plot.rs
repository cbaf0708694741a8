//! Row/column positions on the terminal grid.

use vstd::prelude::*;
use vstd::std_specs::convert::FromSpecImpl;
use vstd::std_specs::ops::{AddSpecImpl, SubSpecImpl};

verus! {

/// A position or a dimension on the terminal grid, in cells.
#[derive(Clone, Copy, Debug, PartialEq, Eq, Structural)]
pub struct Plot {
    pub row: usize,
    pub col: usize,
}

impl Plot {
    /// The plot at `row` and `col`.
    pub fn new(row: usize, col: usize) -> (p: Self)
        ensures
            p == (Plot { row, col }),
    {
        Self { row, col }
    }

    /// The plot with rows and columns exchanged.
    pub fn transpose(self) -> (p: Self)
        ensures
            p == (Plot { row: self.col, col: self.row }),
    {
        Self { row: self.col, col: self.row }
    }

    /// The number of cells of a grid with this dimension.
    pub open spec fn area(self) -> int {
        self.row * self.col
    }
}

impl Default for Plot {
    fn default() -> (p: Self)
        ensures
            p == (Plot { row: 0, col: 0 }),
    {
        Self { row: 0, col: 0 }
    }
}

impl From<(usize, usize)> for Plot {
    fn from(value: (usize, usize)) -> (p: Self) {
        Self { row: value.0, col: value.1 }
    }
}

impl FromSpecImpl<(usize, usize)> for Plot {
    open spec fn obeys_from_spec() -> bool {
        true
    }

    open spec fn from_spec(value: (usize, usize)) -> Self {
        Plot { row: value.0, col: value.1 }
    }
}

impl From<(u16, u16)> for Plot {
    fn from(value: (u16, u16)) -> (p: Self) {
        Self { row: value.0 as usize, col: value.1 as usize }
    }
}

impl FromSpecImpl<(u16, u16)> for Plot {
    open spec fn obeys_from_spec() -> bool {
        true
    }

    open spec fn from_spec(value: (u16, u16)) -> Self {
        Plot { row: value.0 as usize, col: value.1 as usize }
    }
}

impl From<Plot> for (usize, usize) {
    fn from(value: Plot) -> (p: Self) {
        (value.row, value.col)
    }
}

impl FromSpecImpl<Plot> for (usize, usize) {
    open spec fn obeys_from_spec() -> bool {
        true
    }

    open spec fn from_spec(value: Plot) -> Self {
        (value.row, value.col)
    }
}

impl core::ops::Add for Plot {
    type Output = Plot;

    /// Component-wise sum. The sum of neither component may leave `usize`.
    fn add(self, rhs: Plot) -> (p: Plot) {
        Plot { row: self.row + rhs.row, col: self.col + rhs.col }
    }
}

impl AddSpecImpl for Plot {
    open spec fn obeys_add_spec() -> bool {
        true
    }

    open spec fn add_req(self, rhs: Plot) -> bool {
        self.row + rhs.row <= usize::MAX && self.col + rhs.col <= usize::MAX
    }

    open spec fn add_spec(self, rhs: Plot) -> Plot {
        Plot { row: (self.row + rhs.row) as usize, col: (self.col + rhs.col) as usize }
    }
}

impl core::ops::Sub for Plot {
    type Output = Plot;

    /// Component-wise difference. Neither component of `rhs` may exceed
    /// that of `self`: coordinates are never negative.
    fn sub(self, rhs: Plot) -> (p: Plot) {
        Plot { row: self.row - rhs.row, col: self.col - rhs.col }
    }
}

impl SubSpecImpl for Plot {
    open spec fn obeys_sub_spec() -> bool {
        true
    }

    open spec fn sub_req(self, rhs: Plot) -> bool {
        rhs.row <= self.row && rhs.col <= self.col
    }

    open spec fn sub_spec(self, rhs: Plot) -> Plot {
        Plot { row: (self.row - rhs.row) as usize, col: (self.col - rhs.col) as usize }
    }
}

/// A position in sixteen-bit coordinates, as a terminal gives it.
#[derive(Clone, Copy, Debug, PartialEq, Eq, Structural)]
pub struct GridPos {
    pub row: u16,
    pub col: u16,
}

impl GridPos {
    /// The position with rows and columns exchanged.
    pub fn transpose(self) -> (p: Self)
        ensures
            p == (GridPos { row: self.col, col: self.row }),
    {
        Self { row: self.col, col: self.row }
    }
}

impl From<(u16, u16)> for GridPos {
    fn from(value: (u16, u16)) -> (p: Self) {
        Self { row: value.0, col: value.1 }
    }
}

impl FromSpecImpl<(u16, u16)> for GridPos {
    open spec fn obeys_from_spec() -> bool {
        true
    }

    open spec fn from_spec(value: (u16, u16)) -> Self {
        GridPos { row: value.0, col: value.1 }
    }
}

impl From<GridPos> for (u16, u16) {
    fn from(value: GridPos) -> (p: Self) {
        (value.row, value.col)
    }
}

impl FromSpecImpl<GridPos> for (u16, u16) {
    open spec fn obeys_from_spec() -> bool {
        true
    }

    open spec fn from_spec(value: GridPos) -> Self {
        (value.row, value.col)
    }
}

impl core::ops::Add for GridPos {
    type Output = GridPos;

    /// Component-wise sum. The sum of neither component may leave `u16`.
    fn add(self, rhs: GridPos) -> (p: GridPos) {
        GridPos { row: self.row + rhs.row, col: self.col + rhs.col }
    }
}

impl AddSpecImpl for GridPos {
    open spec fn obeys_add_spec() -> bool {
        true
    }

    open spec fn add_req(self, rhs: GridPos) -> bool {
        self.row + rhs.row <= u16::MAX && self.col + rhs.col <= u16::MAX
    }

    open spec fn add_spec(self, rhs: GridPos) -> GridPos {
        GridPos { row: (self.row + rhs.row) as u16, col: (self.col + rhs.col) as u16 }
    }
}

} // verus!
