//! The simple program that plays the game: it walks towards its opponent
//! and fires at it.

use vstd::prelude::*;
use crate::dir::Dir;
use crate::game::InputEvent;
use crate::protocol::{command_bytes, encode_command, EntityState, Player};

verus! {

/// Tosses a coin.
///
/// Calls `rand::random`, which draws a `bool` from the thread's random
/// number generator. Nothing is claimed of the outcome.
#[verifier::external_body]
fn toss() -> (heads: bool) {
    rand::random()
}

/// The direction to take of the two wished for, given how the coin fell:
/// where one of the two is no direction the other one, else the first on
/// heads and the second on tails.
pub open spec fn pick_dir_spec(d1: Dir, d2: Dir, heads: bool) -> Dir {
    if d1 == Dir::Still {
        d2
    } else if d2 == Dir::Still || heads {
        d1
    } else {
        d2
    }
}

/// Picks one of two directions by a coin that has been tossed.
pub fn pick_dir(d1: Dir, d2: Dir, heads: bool) -> (r: Dir)
    ensures
        r == pick_dir_spec(d1, d2, heads),
{
    if d1 == Dir::Still {
        d2
    } else if d2 == Dir::Still || heads {
        d1
    } else {
        d2
    }
}

/// Picks one of two directions: if either is no direction the other one,
/// otherwise one of the two at random.
pub fn choose_dir(d1: Dir, d2: Dir) -> (r: Dir)
    ensures
        r == pick_dir_spec(d1, d2, true) || r == pick_dir_spec(d1, d2, false),
        d1 == Dir::Still ==> r == d2,
        d2 == Dir::Still ==> r == d1,
{
    if d1 == Dir::Still {
        d2
    } else if d2 == Dir::Still {
        d1
    } else {
        pick_dir(d1, d2, toss())
    }
}

/// The way from column `from` to column `to`.
pub open spec fn across(from: u32, to: u32) -> Dir {
    if from < to {
        Dir::Right
    } else if from > to {
        Dir::Left
    } else {
        Dir::Still
    }
}

/// The way from row `from` to row `to`; rows count from the top.
pub open spec fn along(from: u32, to: u32) -> Dir {
    if from < to {
        Dir::Down
    } else if from > to {
        Dir::Up
    } else {
        Dir::Still
    }
}

/// What the program knows of the round: which seat it has, and where it
/// and its opponent were last seen.
#[derive(Copy, Clone, Debug)]
pub struct Bot {
    pub player: Player,
    pub opponent: Player,
    pub my_pos: (u32, u32),
    pub op_pos: (u32, u32),
}

impl Bot {
    /// What the program knows after it has seen the state of one entity.
    pub open spec fn observed(self, es: EntityState) -> Bot {
        if es.id == self.player.spec_id() {
            Bot { my_pos: (es.x, es.y), ..self }
        } else if es.id == self.opponent.spec_id() {
            Bot { op_pos: (es.x, es.y), ..self }
        } else {
            self
        }
    }

    /// The two directions that lead to the opponent: across and along.
    pub open spec fn spec_wishes(&self) -> (Dir, Dir) {
        (across(self.my_pos.0, self.op_pos.0), along(self.my_pos.1, self.op_pos.1))
    }

    /// A program in the seat of `player` that has seen nothing yet.
    pub fn new(player: Player) -> (bot: Bot)
        ensures
            bot == (Bot { player, opponent: bot.opponent, my_pos: (0u32, 0u32), op_pos: (0u32, 0u32) }),
            bot.opponent != player,
    {
        Bot { player, opponent: player.opponent(), my_pos: (0, 0), op_pos: (0, 0) }
    }

    /// Takes note of the state of one entity: of its own place, of its
    /// opponent's, and of nothing else.
    pub fn observe(&mut self, es: &EntityState)
        ensures
            *final(self) == old(self).observed(*es),
    {
        if es.is_player(self.player) {
            self.my_pos = es.pos();
        } else if es.is_player(self.opponent) {
            self.op_pos = es.pos();
        }
    }

    /// The two directions that lead to the opponent.
    #[verifier::when_used_as_spec(spec_wishes)]
    pub fn wishes(&self) -> (r: (Dir, Dir))
        ensures
            r == self.spec_wishes(),
    {
        let horizontal = if self.my_pos.0 < self.op_pos.0 {
            Dir::Right
        } else if self.my_pos.0 > self.op_pos.0 {
            Dir::Left
        } else {
            Dir::Still
        };
        let vertical = if self.my_pos.1 < self.op_pos.1 {
            Dir::Down
        } else if self.my_pos.1 > self.op_pos.1 {
            Dir::Up
        } else {
            Dir::Still
        };
        (horizontal, vertical)
    }

    /// The direction to go and fire in next: one of the two that lead to
    /// the opponent, or none when the program stands on it.
    pub fn aim(&self) -> (r: Dir)
        ensures
            r == self.spec_wishes().0 || r == self.spec_wishes().1,
            self.spec_wishes().0 == Dir::Still ==> r == self.spec_wishes().1,
            self.spec_wishes().1 == Dir::Still ==> r == self.spec_wishes().0,
    {
        let (horizontal, vertical) = self.wishes();
        choose_dir(horizontal, vertical)
    }
}

/// The command to send next, and whether the one after it is a move.
///
/// With a direction to go in, the program moves and fires in turn. Without
/// one it sends nothing, and its turn stays as it is.
pub open spec fn next_command_spec(target: Dir, is_move: bool) -> (Option<Seq<u8>>, bool) {
    if target == Dir::Still {
        (None, is_move)
    } else if is_move {
        (Some(command_bytes(InputEvent::Move { entity_id: 0, dir: target })), false)
    } else {
        (Some(command_bytes(InputEvent::Fire { entity_id: 0, dir: target })), true)
    }
}

/// The command to send next, and whether the one after it is a move.
pub fn next_command(target: Dir, is_move: bool) -> (r: (Option<Vec<u8>>, bool))
    ensures
        r.1 == next_command_spec(target, is_move).1,
        match r.0 {
            Some(bytes) => next_command_spec(target, is_move).0 == Some(bytes@),
            None => next_command_spec(target, is_move).0.is_none(),
        },
{
    if target == Dir::Still {
        (None, is_move)
    } else if is_move {
        (Some(encode_command(InputEvent::Move { entity_id: 0, dir: target })), false)
    } else {
        (Some(encode_command(InputEvent::Fire { entity_id: 0, dir: target })), true)
    }
}

} // verus!
