//! What a round decides: how an input event changes the world, how a round
//! begins and how it is scored.

use vstd::prelude::*;
use vstd::string::StringExecFns;
use crate::dir::Dir;
use crate::factory::{missile_row, new_missile, new_ray, ray_row};
use crate::pos::Pos;
use crate::setup::{both_players_standing, to_start_positions};
use crate::systems::{pipeline, pipeline_spec, systems_after_all, tick, world_after_all, System};
use crate::weapon::Weapon;
use crate::world::{lemma_push_row, lemma_rows_kept, World, WorldModel, ENERGY_MISSILE, ENERGY_RAY};

verus! {

/// What a player, or the program that plays for one, asks for. Players are
/// numbered 1 and 2.
#[derive(Copy, Clone, PartialEq, Eq, Debug, Structural)]
pub enum InputEvent {
    Move { entity_id: u8, dir: Dir },
    Fire { entity_id: u8, dir: Dir },
    ToggleShield { entity_id: u8 },
    ChangeWeapon { entity_id: u8 },
    Quit,
}

impl WorldModel {
    /// The entity that plays for player number `entity_id`, if that is the
    /// number of a player.
    pub open spec fn player_entity(self, entity_id: u8) -> Option<int> {
        if entity_id == 1 {
            Some(self.player1 as int)
        } else if entity_id == 2 {
            Some(self.player2 as int)
        } else {
            None
        }
    }

    /// The direction an entity travels in after it was steered towards
    /// `dir` while travelling in direction `cur`: steering against the
    /// direction of travel stops the entity.
    pub open spec fn steer(cur: Dir, dir: Dir) -> Dir {
        if cur.spec_opposite() == dir {
            Dir::Still
        } else {
            dir
        }
    }

    /// The world after entity `id` was steered towards `dir`.
    pub open spec fn steered(self, id: int, dir: Dir) -> WorldModel {
        WorldModel {
            velocity: self.velocity.update(id, (self.velocity[id].0, Self::steer(self.velocity[id].1, dir))),
            ..self
        }
    }

    /// The world after entity `id` raised or lowered its shield.
    pub open spec fn shield_toggled(self, id: int) -> WorldModel {
        WorldModel { shield: self.shield.update(id, !self.shield[id]), ..self }
    }

    /// The world after entity `id` switched to its next weapon.
    pub open spec fn weapon_changed(self, id: int) -> WorldModel {
        WorldModel {
            active_weapon: self.active_weapon.update(
                id,
                match self.active_weapon[id] {
                    Some(weapon) => Some(weapon.spec_next()),
                    None => None,
                },
            ),
            ..self
        }
    }

    /// The world after entity `id` has paid `cost` units of energy.
    pub open spec fn spent(self, id: int, cost: u32) -> WorldModel {
        WorldModel { energy: self.energy.update(id, (self.energy[id] - cost) as u32), ..self }
    }

    /// The cell that a shot of entity `id` in direction `dir` starts from:
    /// the entity's first cell, or the cell ahead of it when the entity
    /// fires the way it travels.
    pub open spec fn muzzle(self, id: int, dir: Dir) -> Pos {
        if dir == self.velocity[id].1 {
            self.position[id][0].spec_moved(1, dir)
        } else {
            self.position[id][0]
        }
    }

    /// Entity `id` can fire in direction `dir`: there is a direction, and a
    /// shot fired ahead starts on the board.
    pub open spec fn can_fire(self, id: int, dir: Dir) -> bool {
        dir != Dir::Still && (dir == self.velocity[id].1 ==> self.on_board(self.muzzle(id, dir)))
    }

    /// The world after entity `id` fired in direction `dir`.
    ///
    /// The weapon in hand is fired if the entity has more energy than it
    /// takes; the energy is paid whether or not the projectile found room.
    pub open spec fn fired(self, id: int, dir: Dir) -> WorldModel {
        if !self.can_fire(id, dir) {
            self
        } else {
            match self.active_weapon[id] {
                Some(Weapon::Missile) => if self.energy[id] > ENERGY_MISSILE {
                    self.with_missile(self.muzzle(id, dir), dir, self.sprite[id].color_idx).spent(
                        id,
                        ENERGY_MISSILE,
                    )
                } else {
                    self
                },
                Some(Weapon::Ray) => if self.energy[id] > ENERGY_RAY {
                    self.with_ray(self.muzzle(id, dir), dir, self.sprite[id].color_idx).spent(id, ENERGY_RAY)
                } else {
                    self
                },
                None => self,
            }
        }
    }

    /// The world after an input event. An event for a player that does not
    /// exist changes nothing, and neither does the wish to quit.
    pub open spec fn after_event(self, ev: InputEvent) -> WorldModel {
        match ev {
            InputEvent::Quit => self,
            InputEvent::Move { entity_id, dir } => match self.player_entity(entity_id) {
                Some(id) => self.steered(id, dir),
                None => self,
            },
            InputEvent::ToggleShield { entity_id } => match self.player_entity(entity_id) {
                Some(id) => self.shield_toggled(id),
                None => self,
            },
            InputEvent::ChangeWeapon { entity_id } => match self.player_entity(entity_id) {
                Some(id) => self.weapon_changed(id),
                None => self,
            },
            InputEvent::Fire { entity_id, dir } => match self.player_entity(entity_id) {
                Some(id) => self.fired(id, dir),
                None => self,
            },
        }
    }

    /// The world with both players alive again.
    pub open spec fn revived(self) -> WorldModel {
        WorldModel {
            alive: self.alive.update(self.player1 as int, true).update(self.player2 as int, true),
            ..self
        }
    }

    /// The world after a round was scored: a player that is not alive has
    /// lost a life.
    pub open spec fn scored(self) -> WorldModel {
        WorldModel {
            p1_lives: if self.alive[self.player1 as int] {
                self.p1_lives
            } else {
                (self.p1_lives - 1) as u32
            },
            p2_lives: if self.alive[self.player2 as int] {
                self.p2_lives
            } else {
                (self.p2_lives - 1) as u32
            },
            ..self
        }
    }

    /// The name of whoever was hit in the round: the one player that is not
    /// alive, both of them joined by `and`, or the second player where both
    /// are alive.
    pub open spec fn hit_names(self) -> Seq<char> {
        let one = self.name[self.player1 as int];
        let two = self.name[self.player2 as int];
        if !self.alive[self.player1 as int] && !self.alive[self.player2 as int] {
            one + " and "@ + two
        } else if !self.alive[self.player1 as int] {
            one
        } else {
            two
        }
    }

    /// The name of the winner of the match: the second player when the
    /// first has no life left, else the first.
    pub open spec fn winner_name(self) -> Seq<char> {
        if self.p1_lives == 0 {
            self.name[self.player2 as int]
        } else {
            self.name[self.player1 as int]
        }
    }
}

/// The entity that plays for player number `entity_id`.
fn player_entity(w: &World, entity_id: u8) -> (r: Option<usize>)
    requires
        w@.wf(),
    ensures
        match r {
            Some(id) => w@.player_entity(entity_id) == Some(id as int) && w@.is_player(id as int),
            None => w@.player_entity(entity_id).is_none(),
        },
{
    if entity_id == 1 {
        Some(w.player1)
    } else if entity_id == 2 {
        Some(w.player2)
    } else {
        None
    }
}

/// Lets entity `id` pay `cost` units of energy.
fn spend(w: &mut World, id: usize, cost: u32)
    requires
        old(w)@.wf(),
        id < old(w)@.len(),
        old(w)@.energy[id as int] >= cost,
    ensures
        final(w)@ == old(w)@.spent(id as int, cost),
        final(w)@.wf(),
        old(w)@.placed() ==> final(w)@.placed(),
{
    let ghost before = w@;
    let e = w.energy[id];
    w.energy.set(id, e - cost);
    proof {
        assert(w@ =~~= before.spent(id as int, cost));
        lemma_rows_kept(before, w@);
    }
}

/// Fires the weapon that player entity `id` has in hand.
fn fire(w: &mut World, id: usize, dir: Dir)
    requires
        old(w)@.wf(),
        old(w)@.is_player(id as int),
    ensures
        final(w)@ == old(w)@.fired(id as int, dir),
        final(w)@.wf(),
        old(w)@.placed() ==> final(w)@.placed(),
{
    let ghost before = w@;
    if dir == Dir::Still {
        return ;
    }
    let mut pos = w.position[id][0];
    if dir == w.velocity[id].1 {
        pos = pos.moved(1, dir);
        if !w.is_on_board(pos) {
            return ;
        }
    }
    let e = w.energy[id];
    let color_idx = w.sprite[id].color_idx;
    match w.active_weapon[id] {
        Some(Weapon::Missile) => {
            if e > ENERGY_MISSILE {
                new_missile(w, pos, dir, color_idx);
                proof {
                    lemma_push_row(before, missile_row(before, pos, dir, color_idx));
                    assert(w@.row(id as int) == before.row(id as int));
                }
                spend(w, id, ENERGY_MISSILE);
            }
        },
        Some(Weapon::Ray) => {
            if e > ENERGY_RAY {
                new_ray(w, pos, dir, color_idx);
                proof {
                    lemma_push_row(before, ray_row(before, pos, dir, color_idx));
                    assert(w@.row(id as int) == before.row(id as int));
                }
                spend(w, id, ENERGY_RAY);
            }
        },
        None => {},
    }
}

/// Applies one input event to the world and tells whether it asks to quit.
///
/// A move steers the player, and steering against the direction of travel
/// stops it. A shot that has no direction, or that would start off the
/// board when fired ahead, changes nothing, nor does a shot for which the
/// player has too little energy. An event for a player number other than 1
/// and 2 changes nothing.
pub fn handle_event(w: &mut World, ev: InputEvent) -> (quit: bool)
    requires
        old(w)@.wf(),
    ensures
        quit == (ev == InputEvent::Quit),
        final(w)@ == old(w)@.after_event(ev),
        final(w)@.wf(),
        final(w)@.p1_lives == old(w)@.p1_lives,
        final(w)@.p2_lives == old(w)@.p2_lives,
        old(w)@.placed() ==> final(w)@.placed(),
{
    let ghost before = w@;
    match ev {
        InputEvent::Quit => {
            return true;
        },
        InputEvent::Move { entity_id, dir } => {
            if let Some(id) = player_entity(w, entity_id) {
                let (speed, cur) = w.velocity[id];
                let next = if cur.opposite() == dir {
                    Dir::Still
                } else {
                    dir
                };
                w.velocity.set(id, (speed, next));
                proof {
                    assert(w@ =~~= before.steered(id as int, dir));
                    lemma_rows_kept(before, w@);
                }
            }
        },
        InputEvent::ToggleShield { entity_id } => {
            if let Some(id) = player_entity(w, entity_id) {
                let up = w.shield[id];
                w.shield.set(id, !up);
                proof {
                    assert(w@ =~~= before.shield_toggled(id as int));
                    lemma_rows_kept(before, w@);
                }
            }
        },
        InputEvent::ChangeWeapon { entity_id } => {
            if let Some(id) = player_entity(w, entity_id) {
                if let Some(weapon) = w.active_weapon[id] {
                    let mut weapon = weapon;
                    weapon.next();
                    w.active_weapon.set(id, Some(weapon));
                }
                proof {
                    assert(w@ =~~= before.weapon_changed(id as int));
                    lemma_rows_kept(before, w@);
                }
            }
        },
        InputEvent::Fire { entity_id, dir } => {
            if let Some(id) = player_entity(w, entity_id) {
                fire(w, id, dir);
            }
        },
    }
    false
}

/// Begins a round: both players are alive again and stand on their
/// starting cells, and the systems are those of a new round.
pub fn start_round(w: &mut World) -> (systems: Vec<System>)
    requires
        old(w)@.wf(),
    ensures
        final(w)@ == old(w)@.revived().at_start(),
        final(w)@.wf(),
        old(w)@.placed() ==> final(w)@.placed(),
        systems@ == pipeline_spec(),
{
    let ghost before = w@;
    let first = w.player1;
    let second = w.player2;
    w.alive.set(first, true);
    w.alive.set(second, true);
    proof {
        assert(w@ =~~= before.revived());
        lemma_rows_kept(before, w@);
    }
    to_start_positions(w);
    pipeline()
}

/// Scores a round that has ended: each player that is not alive loses a
/// life.
pub fn end_round(w: &mut World)
    requires
        old(w)@.wf(),
        old(w)@.p1_lives > 0,
        old(w)@.p2_lives > 0,
    ensures
        final(w)@ == old(w)@.scored(),
        final(w)@.wf(),
        old(w)@.placed() ==> final(w)@.placed(),
{
    let ghost before = w@;
    if !w.alive[w.player1] {
        w.p1_lives = w.p1_lives - 1;
    }
    if !w.alive[w.player2] {
        w.p2_lives = w.p2_lives - 1;
    }
    proof {
        assert(w@ =~~= before.scored());
        lemma_rows_kept(before, w@);
    }
}

/// The line that tells who was hit in the round.
pub fn hit_banner(w: &World) -> (line: String)
    requires
        w@.wf(),
    ensures
        line@ == w@.hit_names() + " hit!"@,
{
    let first_up = w.alive[w.player1];
    let second_up = w.alive[w.player2];
    let mut line = if !first_up && !second_up {
        let mut s = w.name[w.player1].clone();
        s.append(" and ");
        s.append(w.name[w.player2].as_str());
        s
    } else if !first_up {
        w.name[w.player1].clone()
    } else {
        w.name[w.player2].clone()
    };
    assert(line@ =~= w@.hit_names());
    line.append(" hit!");
    line
}

/// The line that tells who has won the match.
pub fn winner_banner(w: &World) -> (line: String)
    requires
        w@.wf(),
    ensures
        line@ == w@.winner_name() + " wins!"@,
{
    let mut line = if w.p1_lives == 0 {
        w.name[w.player2].clone()
    } else {
        w.name[w.player1].clone()
    };
    line.append(" wins!");
    line
}

impl WorldModel {
    /// Both players are alive in this round.
    pub open spec fn both_standing(self) -> bool {
        self.alive[self.player1 as int] && self.alive[self.player2 as int]
    }

    /// The world after the events of `evs` from the `from`-th on, in
    /// their order and up to the first that asks to quit, and whether one
    /// of them did.
    pub open spec fn after_events(self, evs: Seq<InputEvent>, from: nat) -> (WorldModel, bool)
        decreases evs.len() - from,
    {
        if from >= evs.len() {
            (self, false)
        } else if evs[from as int] == InputEvent::Quit {
            (self, true)
        } else {
            self.after_event(evs[from as int]).after_events(evs, from + 1)
        }
    }

    /// The round from the `from`-th tick on: while both players stand, the
    /// events that came in before the tick are applied and then every
    /// system takes its step. The round ends when an event asks to quit,
    /// when a player has fallen, or when no input is left. Gives the
    /// world at the end of the round and whether it ended by a wish to
    /// quit.
    pub open spec fn played(self, systems: Seq<System>, input: Seq<Seq<InputEvent>>, from: nat) -> (
        WorldModel,
        bool,
    )
        decreases input.len() - from,
    {
        if from >= input.len() || !self.both_standing() {
            (self, false)
        } else {
            let (heard, quit) = self.after_events(input[from as int], 0);
            if quit {
                (heard, true)
            } else {
                world_after_all(systems, heard).played(systems_after_all(systems), input, from + 1)
            }
        }
    }

    /// A whole round: it begins with both players alive on their starting
    /// cells and with the systems of a new round, is played on the given
    /// input, and is scored at its end.
    pub open spec fn round(self, input: Seq<Seq<InputEvent>>) -> (WorldModel, bool) {
        let (end, quit) = self.revived().at_start().played(pipeline_spec(), input, 0);
        (end.scored(), quit)
    }
}

/// The input of a round as the events of each tick.
pub open spec fn batches(input: Seq<Vec<InputEvent>>) -> Seq<Seq<InputEvent>> {
    Seq::new(input.len(), |t: int| input[t]@)
}

/// Applies the events that came in before a tick, in their order, and
/// stops at the first that asks to quit. Tells whether one did.
pub fn handle_events(w: &mut World, evs: &Vec<InputEvent>) -> (quit: bool)
    requires
        old(w)@.wf(),
    ensures
        (final(w)@, quit) == old(w)@.after_events(evs@, 0),
        final(w)@.wf(),
        final(w)@.p1_lives == old(w)@.p1_lives,
        final(w)@.p2_lives == old(w)@.p2_lives,
        old(w)@.placed() ==> final(w)@.placed(),
{
    let ghost before = w@;
    let n = evs.len();
    let mut i: usize = 0;
    while i < n
        invariant
            n == evs@.len(),
            0 <= i <= n,
            before == old(w)@,
            w@.wf(),
            w@.p1_lives == before.p1_lives,
            w@.p2_lives == before.p2_lives,
            before.placed() ==> w@.placed(),
            w@.after_events(evs@, i as nat) == before.after_events(evs@, 0),
        decreases n - i,
    {
        if handle_event(w, evs[i]) {
            return true;
        }
        i += 1;
    }
    false
}

/// Plays one round on the input given: `input[t]` holds the events that
/// came in before tick `t`. Returns whether the round ended by a wish to
/// quit.
///
/// The round ends at the first wish to quit, as soon as a player has
/// fallen, or when the input is used up. Each player that is not alive at
/// the end loses a life.
pub fn game_loop(w: &mut World, input: &Vec<Vec<InputEvent>>) -> (is_quit: bool)
    requires
        old(w)@.wf(),
        old(w)@.p1_lives > 0,
        old(w)@.p2_lives > 0,
    ensures
        (final(w)@, is_quit) == old(w)@.round(batches(input@)),
        final(w)@.wf(),
{
    let ghost before = w@;
    let ghost all = batches(input@);
    let mut systems = start_round(w);
    let ghost begun = w@;
    let n = input.len();
    let mut t: usize = 0;
    while t < n && both_players_standing(w)
        invariant
            n == input@.len(),
            all == batches(input@),
            before == old(w)@,
            begun == before.revived().at_start(),
            0 <= t <= n,
            w@.wf(),
            w@.p1_lives > 0,
            w@.p2_lives > 0,
            w@.played(systems@, all, t as nat) == begun.played(pipeline_spec(), all, 0),
        decreases n - t,
    {
        assert(all[t as int] == input@[t as int]@);
        if handle_events(w, &input[t]) {
            end_round(w);
            return true;
        }
        tick(&mut systems, w);
        t += 1;
    }
    end_round(w);
    false
}

} // verus!
