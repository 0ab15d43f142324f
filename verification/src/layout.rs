//! Where things go on the screen, and the words that go there. Drawing
//! itself is left to the program.

use vstd::prelude::*;
use vstd::string::StringExecFns;
use crate::dir::Dir;
use crate::pos::Pos;
use crate::text::{decimal, decimal_string};
use crate::world::{Sprite, SpriteModel, PLAYER_LIVES};

verus! {

impl SpriteModel {
    /// The texture of an entity that travels in direction `dir`: the
    /// vertical one for up and down, the horizontal one otherwise.
    pub open spec fn texture(self, dir: Dir) -> Seq<char> {
        if dir.spec_is_vertical() {
            self.texture_vertical
        } else {
            self.texture_horizontal
        }
    }
}

impl Sprite {
    /// The texture to draw an entity with that travels in direction `dir`.
    pub fn texture(&self, dir: Dir) -> (t: &String)
        ensures
            t@ == self@.texture(dir),
    {
        if dir.is_vertical() {
            &self.texture_vertical
        } else {
            &self.texture_horizontal
        }
    }
}

impl Pos {
    /// The cell in words: column and row, with a warning before a cell
    /// that is flagged invalid.
    pub open spec fn spec_label(&self) -> Seq<char> {
        let place = decimal(self.x as nat) + ","@ + decimal(self.y as nat);
        if self.invalid {
            "INVALID "@ + place
        } else {
            place
        }
    }

    /// The cell in words.
    pub fn label(&self) -> (s: String)
        ensures
            s@ == self.spec_label(),
    {
        let mut s = if self.invalid {
            String::from_str("INVALID ")
        } else {
            String::new()
        };
        let ghost head = s@;
        s.append(decimal_string(self.x as u64).as_str());
        s.append(",");
        s.append(decimal_string(self.y as u64).as_str());
        proof {
            let place = decimal(self.x as nat) + ","@ + decimal(self.y as nat);
            assert(s@ =~= head + place);
            assert(Seq::<char>::empty() + place =~= place);
        }
        s
    }
}

/// The status of a player as the top line of the screen shows it.
pub open spec fn status_line_spec(player: u8, lives: u32, energy: u32) -> Seq<char> {
    "Player "@ + decimal(player as nat) + ": "@ + decimal(lives as nat) + " / "@ + decimal(PLAYER_LIVES as nat)
        + ". Energy: "@ + decimal(energy as nat)
}

/// The status of a player: the lives it has left of those it began with,
/// and its energy.
pub fn status_line(player: u8, lives: u32, energy: u32) -> (s: String)
    ensures
        s@ == status_line_spec(player, lives, energy),
{
    let mut s = String::from_str("Player ");
    s.append(decimal_string(player as u64).as_str());
    s.append(": ");
    s.append(decimal_string(lives as u64).as_str());
    s.append(" / ");
    s.append(decimal_string(PLAYER_LIVES as u64).as_str());
    s.append(". Energy: ");
    s.append(decimal_string(energy as u64).as_str());
    assert(s@ =~= status_line_spec(player, lives, energy));
    s
}

/// Where something of the given length begins that has its middle at
/// `middle`, if that is on the screen.
pub open spec fn centred_spec(middle: u16, len: usize) -> Option<u16> {
    if len / 2 <= middle {
        Some((middle - len / 2) as u16)
    } else {
        None
    }
}

/// Where to begin a text of `len` characters, or a block of `len` lines,
/// so that its middle comes to lie at `middle`; `None` where it would
/// begin before the edge of the screen.
pub fn centred(middle: u16, len: usize) -> (r: Option<u16>)
    ensures
        r == centred_spec(middle, len),
{
    let half = len / 2;
    if half <= middle as usize {
        Some(middle - half as u16)
    } else {
        None
    }
}

/// The rows of the top and of the bottom border on a screen of `height`
/// rows; `None` on a screen too low to have both.
pub fn border_rows(height: u16) -> (r: Option<(u16, u16)>)
    ensures
        r == if height >= 2 {
            Some((1u16, (height - 2) as u16))
        } else {
            None
        },
{
    if height >= 2 {
        Some((1, height - 2))
    } else {
        None
    }
}

} // verus!
