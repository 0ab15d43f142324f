//! Directions on the grid and their wire codes.

use vstd::prelude::*;

verus! {

/// A direction of travel. `Still` means no travel at all.
#[derive(Copy, Clone, PartialEq, Eq, Debug, Structural)]
pub enum Dir {
    Still,
    Up,
    Down,
    Left,
    Right,
}

impl Dir {
    /// The direction that a wire code stands for, where the code is one of
    /// the five that exist.
    pub open spec fn spec_decode(n: u8) -> Option<Dir> {
        if n == 0 {
            Some(Dir::Still)
        } else if n == 1 {
            Some(Dir::Up)
        } else if n == 2 {
            Some(Dir::Down)
        } else if n == 3 {
            Some(Dir::Left)
        } else if n == 4 {
            Some(Dir::Right)
        } else {
            None
        }
    }

    /// The reverse direction; standing still is its own reverse.
    pub open spec fn spec_opposite(&self) -> Dir {
        match self {
            Dir::Up => Dir::Down,
            Dir::Down => Dir::Up,
            Dir::Left => Dir::Right,
            Dir::Right => Dir::Left,
            Dir::Still => Dir::Still,
        }
    }

    /// Up or down.
    pub open spec fn spec_is_vertical(&self) -> bool {
        *self == Dir::Up || *self == Dir::Down
    }

    /// Left or right.
    pub open spec fn spec_is_horizontal(&self) -> bool {
        *self == Dir::Left || *self == Dir::Right
    }

    /// The wire code of the direction.
    pub open spec fn spec_as_num(&self) -> u8 {
        match self {
            Dir::Still => 0,
            Dir::Up => 1,
            Dir::Down => 2,
            Dir::Left => 3,
            Dir::Right => 4,
        }
    }

    /// Decodes a wire code, or gives `None` for a byte that is no direction.
    pub fn try_from_num(n: u8) -> (r: Option<Dir>)
        ensures
            r == Dir::spec_decode(n),
            r.is_some() <==> n < 5,
    {
        if n == 0 {
            Some(Dir::Still)
        } else if n == 1 {
            Some(Dir::Up)
        } else if n == 2 {
            Some(Dir::Down)
        } else if n == 3 {
            Some(Dir::Left)
        } else if n == 4 {
            Some(Dir::Right)
        } else {
            None
        }
    }

    /// Decodes a wire code that is known to be a direction.
    pub fn from_num(n: u8) -> (r: Dir)
        requires
            n < 5,
        ensures
            Dir::spec_decode(n) == Some(r),
            r.spec_as_num() == n,
    {
        match Dir::try_from_num(n) {
            Some(d) => d,
            None => Dir::Still,
        }
    }

    /// The reverse direction; standing still is its own reverse.
    #[verifier::when_used_as_spec(spec_opposite)]
    pub fn opposite(&self) -> (r: Dir)
        ensures
            r == self.spec_opposite(),
    {
        match self {
            Dir::Up => Dir::Down,
            Dir::Down => Dir::Up,
            Dir::Left => Dir::Right,
            Dir::Right => Dir::Left,
            Dir::Still => Dir::Still,
        }
    }

    /// Whether the direction is up or down.
    #[verifier::when_used_as_spec(spec_is_vertical)]
    pub fn is_vertical(&self) -> (r: bool)
        ensures
            r == self.spec_is_vertical(),
    {
        matches!(self, Dir::Up | Dir::Down)
    }

    /// Whether the direction is left or right.
    #[verifier::when_used_as_spec(spec_is_horizontal)]
    pub fn _is_horizontal(&self) -> (r: bool)
        ensures
            r == self.spec_is_horizontal(),
    {
        matches!(self, Dir::Left | Dir::Right)
    }

    /// The wire code of this direction.
    #[verifier::when_used_as_spec(spec_as_num)]
    pub fn as_num(&self) -> (r: u8)
        ensures
            r == self.spec_as_num(),
            r < 5,
    {
        match self {
            Dir::Still => 0,
            Dir::Up => 1,
            Dir::Down => 2,
            Dir::Left => 3,
            Dir::Right => 4,
        }
    }

    /// The name of the direction, as shown to a person.
    pub fn label(&self) -> (r: String)
        ensures
            r@ == self.spec_label(),
    {
        match self {
            Dir::Still => "None".to_string(),
            Dir::Up => "Up".to_string(),
            Dir::Down => "Down".to_string(),
            Dir::Left => "Left".to_string(),
            Dir::Right => "Right".to_string(),
        }
    }

    /// The name of the direction.
    pub open spec fn spec_label(&self) -> Seq<char> {
        match self {
            Dir::Still => "None"@,
            Dir::Up => "Up"@,
            Dir::Down => "Down"@,
            Dir::Left => "Left"@,
            Dir::Right => "Right"@,
        }
    }
}

/// Reversing twice gives the direction back.
pub proof fn lemma_opposite_involution(d: Dir)
    ensures
        d.spec_opposite().spec_opposite() == d,
        d.spec_opposite().spec_is_vertical() == d.spec_is_vertical(),
        d.spec_opposite() == Dir::Still <==> d == Dir::Still,
{
}

/// A direction and its wire code determine each other.
pub proof fn lemma_dir_code_round_trip(d: Dir, n: u8)
    ensures
        Dir::spec_decode(d.spec_as_num()) == Some(d),
        Dir::spec_decode(n) == Some(d) ==> d.spec_as_num() == n,
{
}

} // verus!
