//! Cells of the grid.

use vstd::prelude::*;
use crate::dir::Dir;

verus! {

/// A cell of the grid. `invalid` marks a cell that a move could not reach.
#[derive(Copy, Clone, Debug, PartialEq, Eq, Structural)]
pub struct Pos {
    pub x: u32,
    pub y: u32,
    pub invalid: bool,
}

impl Pos {
    /// The cell `amount` units away in direction `dir`.
    ///
    /// Towards the top and the left a cell can be reached only while the
    /// coordinate stays above zero; towards the bottom and the right only
    /// while it fits the coordinate's type. A cell that cannot be reached is
    /// the starting cell flagged invalid. The flag of the starting cell
    /// itself is not carried over.
    pub open spec fn spec_moved(&self, amount: u32, dir: Dir) -> Pos {
        match dir {
            Dir::Up => if self.y > amount {
                Pos { x: self.x, y: (self.y - amount) as u32, invalid: false }
            } else {
                Pos { x: self.x, y: self.y, invalid: true }
            },
            Dir::Down => if self.y + amount <= u32::MAX {
                Pos { x: self.x, y: (self.y + amount) as u32, invalid: false }
            } else {
                Pos { x: self.x, y: self.y, invalid: true }
            },
            Dir::Left => if self.x > amount {
                Pos { x: (self.x - amount) as u32, y: self.y, invalid: false }
            } else {
                Pos { x: self.x, y: self.y, invalid: true }
            },
            Dir::Right => if self.x + amount <= u32::MAX {
                Pos { x: (self.x + amount) as u32, y: self.y, invalid: false }
            } else {
                Pos { x: self.x, y: self.y, invalid: true }
            },
            Dir::Still => Pos { x: self.x, y: self.y, invalid: false },
        }
    }

    /// Two cells hit each other when their coordinates agree; the flag plays
    /// no part.
    pub open spec fn spec_does_hit(&self, pos: Pos) -> bool {
        self.x == pos.x && self.y == pos.y
    }

    /// The origin, flagged invalid.
    pub open spec fn spec_nil() -> Pos {
        Pos { x: 0, y: 0, invalid: true }
    }

    /// A new position moved `amount` units in the given direction.
    #[verifier::when_used_as_spec(spec_moved)]
    pub fn moved(&self, amount: u32, dir: Dir) -> (r: Pos)
        ensures
            r == self.spec_moved(amount, dir),
    {
        let mut x: u32 = self.x;
        let mut y: u32 = self.y;
        let mut invalid = false;
        match dir {
            Dir::Up => {
                if self.y > amount {
                    y = y - amount;
                } else {
                    invalid = true;
                }
            },
            Dir::Down => {
                match y.checked_add(amount) {
                    Some(v) => {
                        y = v;
                    },
                    None => {
                        invalid = true;
                    },
                }
            },
            Dir::Left => {
                if self.x > amount {
                    x = x - amount;
                } else {
                    invalid = true;
                }
            },
            Dir::Right => {
                match x.checked_add(amount) {
                    Some(v) => {
                        x = v;
                    },
                    None => {
                        invalid = true;
                    },
                }
            },
            Dir::Still => {},
        }
        Pos { x, y, invalid }
    }

    /// Whether this cell and `pos` have the same coordinates.
    #[verifier::when_used_as_spec(spec_does_hit)]
    pub fn does_hit(&self, pos: Pos) -> (r: bool)
        ensures
            r == self.spec_does_hit(pos),
    {
        self.x == pos.x && self.y == pos.y
    }

    /// The placeholder cell of an entity that has not been placed yet.
    #[verifier::when_used_as_spec(spec_nil)]
    pub fn nil() -> (r: Pos)
        ensures
            r == Pos::spec_nil(),
    {
        Pos { x: 0, y: 0, invalid: true }
    }
}

} // verus!
