use vstd::prelude::*;

verus! {

/// The state of one position of the grid.
///
/// The classic rule only distinguishes `Dead` from `Alive`; the war rule
/// also reads the strength, whose sign is the cell's team.
#[derive(Debug, Clone, Copy, PartialEq, Eq, Structural)]
pub enum Cell {
    Dead,
    Alive(i8),
}

impl Default for Cell {
    fn default() -> (r: Cell)
        ensures
            r == Cell::Dead,
    {
        Cell::Dead
    }
}

impl Cell {
    /// What a cell adds to a war-rule total: its strength when alive, else 0.
    pub open spec fn strength(self) -> int {
        match self {
            Cell::Alive(v) => v as int,
            Cell::Dead => 0,
        }
    }

    pub fn is_dead(&self) -> (r: bool)
        ensures
            r == (*self is Dead),
    {
        match self {
            Cell::Dead => true,
            _ => false,
        }
    }

    pub fn is_alive(&self) -> (r: bool)
        ensures
            r == (*self is Alive),
    {
        !self.is_dead()
    }

    /// The strength of a living cell, or `None` for a dead one.
    pub fn as_option(&self) -> (r: Option<&i8>)
        ensures
            r == (match *self {
                Cell::Alive(v) => Some(&v),
                Cell::Dead => None,
            }),
    {
        match self {
            Cell::Alive(value) => Some(value),
            _ => None,
        }
    }
}

} // verus!
