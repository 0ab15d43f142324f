//! A duel in the open: one player fires a missile along a free row at the
//! other, who stands still. What is proved here joins the systems and the
//! round into one statement: the missile arrives, the player that stood
//! in its way falls, and the round takes one life from that player alone.

use vstd::prelude::*;
use crate::dir::Dir;
use crate::factory::{missile_fits, missile_row};
use crate::game::InputEvent;
use crate::laws::lemma_keeps_board;
use crate::pos::Pos;
use crate::setup::{lemma_bars_keep_scalars, lemma_bars_rows, lemma_restarted, lemma_with_bars};
use crate::systems::{
    lemma_all_keep_scalars, lemma_first_hit_unique, lemma_same_board, lemma_step_consistent,
    pipeline_spec, systems_after_all, world_after_all, System,
};
use crate::world::{
    lemma_push_keeps_board, lemma_push_row, lemma_rows_kept, Lifetime, WorldModel, ENERGY_MISSILE,
};

verus! {

/// The cell in column `x` of row `y`.
pub open spec fn cell(x: int, y: u32) -> Pos {
    Pos { x: x as u32, y, invalid: false }
}

/// The five systems in their order, with the energy reload in the given
/// phase.
pub open spec fn systems_in_phase(phase: u32) -> Seq<System> {
    seq![System::Move, System::Lifetime, System::Collision, System::EnergyReload(phase), System::Explode]
}

impl WorldModel {
    /// The id of the entity that was made last.
    pub open spec fn last_id(self) -> int {
        self.len() - 1
    }

    /// Entity `i` stands still on the cell in column `x` of row `y`.
    pub open spec fn stands(self, i: int, x: u32, y: u32) -> bool {
        self.position[i] == seq![cell(x as int, y)] && self.velocity[i] == (1u8, Dir::Still)
    }

    /// Every entity between the players and the one made last is an
    /// obstacle with a single cell.
    pub open spec fn walled(self) -> bool {
        forall|i: int|
            2 <= i < self.last_id() ==> #[trigger] self.lifetime[i] == Lifetime::Solid && self.position[i].len()
                == 1
    }

    /// Row `y` is free from column `ax` to column `bx`.
    pub open spec fn lane(self, ax: u32, bx: u32, y: u32) -> bool {
        forall|x: u32| ax <= x <= bx ==> #[trigger] self.free(x, y)
    }

    /// The stage of a duel: the players are the first two entities and
    /// stand on row `y`, the first in column `ax` and the second, without
    /// a shield, in column `bx`; the row is free between them; the entity
    /// made last is a missile that flies to the right, without shield and
    /// without bounce; and all else is obstacles.
    pub open spec fn duel(self, ax: u32, bx: u32, y: u32) -> bool {
        let n = self.last_id();
        &&& self.wf()
        &&& self.len() >= 3
        &&& self.player1 == 0
        &&& self.player2 == 1
        &&& ax < bx
        &&& self.walled()
        &&& self.lane(ax, bx, y)
        &&& self.stands(0, ax, y)
        &&& self.stands(1, bx, y)
        &&& !self.shield[1]
        &&& !self.shield[n]
        &&& !self.bounce[n]
        &&& self.velocity[n] == (2u8, Dir::Right)
        &&& self.position[n].len() == 2
        &&& self.lifetime[n] is Temporary
    }

    /// A duel in which both players are alive and the missile flies: its
    /// cells are those in columns `cx` and `cx + 1`, it has `r` ticks
    /// left and has not begun to explode.
    pub open spec fn flying(self, ax: u32, bx: u32, y: u32, cx: int, r: u32) -> bool {
        let n = self.last_id();
        &&& self.duel(ax, bx, y)
        &&& self.alive[0]
        &&& self.alive[1]
        &&& self.alive[n]
        &&& self.explode[n] == (true, false)
        &&& self.lifetime[n] == Lifetime::Temporary(r)
        &&& self.position[n] == seq![cell(cx, y), cell(cx + 1, y)]
        &&& ax <= cx
        &&& cx + 2 <= bx
    }

    /// A duel that has been decided: the first player is alive, the
    /// second has fallen, and the missile is gone.
    pub open spec fn decided(self) -> bool {
        &&& self.len() >= 3
        &&& self.player1 == 0
        &&& self.player2 == 1
        &&& self.alive[0]
        &&& !self.alive[1]
        &&& !self.alive[self.last_id()]
    }
}

/// A run of the five systems is each of them in turn.
proof fn lemma_tick_unfolds(m: WorldModel, phase: u32)
    ensures
        world_after_all(systems_in_phase(phase), m) == System::Explode.world_after(
            System::EnergyReload(phase).world_after(m.after_move().after_lifetime().after_collision()),
        ),
        systems_after_all(systems_in_phase(phase)) == systems_in_phase(((phase + 1) % 5) as u32),
{
    let all = systems_in_phase(phase);
    let run4 = all.drop_last();
    let run3 = run4.drop_last();
    let run2 = run3.drop_last();
    let run1 = run2.drop_last();
    let run0 = run1.drop_last();
    assert(run0.len() == 0);
    assert(world_after_all(run0, m) == m);
    assert(run1.last() == System::Move && run2.last() == System::Lifetime && run3.last() == System::Collision);
    assert(run4.last() == System::EnergyReload(phase) && all.last() == System::Explode);
    assert(world_after_all(run1, m) == System::Move.world_after(m));
    assert(world_after_all(run2, m) == System::Lifetime.world_after(world_after_all(run1, m)));
    assert(world_after_all(run3, m) == System::Collision.world_after(world_after_all(run2, m)));
    assert(world_after_all(run4, m) == System::EnergyReload(phase).world_after(world_after_all(run3, m)));
    assert(systems_after_all(all) =~= systems_in_phase(((phase + 1) % 5) as u32));
}

/// A system that moves no obstacle keeps the stage of a duel, as far as
/// the obstacles and the free row go.
proof fn lemma_stage_kept(m: WorldModel, a: WorldModel, ax: u32, bx: u32, y: u32)
    requires
        m.consistent(),
        a.consistent(),
        a.same_obstacles(m),
        m.walled(),
        m.lane(ax, bx, y),
        forall|i: int| 0 <= i < m.len() && m.lifetime[i] == Lifetime::Solid ==> a.lifetime[i] == Lifetime::Solid,
    ensures
        a.walled(),
        a.lane(ax, bx, y),
{
    assert forall|i: int| 2 <= i < a.last_id() implies #[trigger] a.lifetime[i] == Lifetime::Solid
        && a.position[i].len() == 1 by {
        assert(m.lifetime[i] == Lifetime::Solid);
        assert(a.same_obstacle(m, i));
    }
    assert forall|x: u32| ax <= x <= bx implies #[trigger] a.free(x, y) by {
        assert(m.free(x, y));
        lemma_same_board(a, m, x, y);
    }
}

/// No obstacle stands on a free cell, so no obstacle of a duel shares a
/// cell with an entity all of whose cells are free.
proof fn lemma_wall_apart(m: WorldModel, i: int, j: int)
    requires
        m.aligned(),
        0 <= i < m.len(),
        2 <= j < m.last_id(),
        m.walled(),
        forall|k: int| 0 <= k < m.position[i].len() ==> m.free((#[trigger] m.position[i][k]).x, m.position[i][k].y),
    ensures
        !m.touch(i, j),
        !m.touch(j, i),
{
    assert(m.lifetime[j] == Lifetime::Solid && m.position[j].len() == 1);
    assert forall|a: int, b: int|
        0 <= a < m.position[i].len() && 0 <= b < m.position[j].len() implies !(#[trigger] m.position[i][a]).spec_does_hit(
        #[trigger] m.position[j][b],
    ) by {
        let c = m.position[i][a];
        assert(m.free(c.x, c.y));
        if c.spec_does_hit(m.position[j][b]) {
            assert(m.blocks(j, c.x, c.y));
        }
    }
    assert forall|a: int, b: int|
        0 <= a < m.position[j].len() && 0 <= b < m.position[i].len() implies !(#[trigger] m.position[j][a]).spec_does_hit(
        #[trigger] m.position[i][b],
    ) by {
        let c = m.position[i][b];
        assert(m.free(c.x, c.y));
        if m.position[j][a].spec_does_hit(c) {
            assert(m.blocks(j, c.x, c.y));
        }
    }
}

/// The move system in a duel: the players stay where they stand, and the
/// missile goes two columns on. Its first cell always gets there; its
/// second does unless the cell that it would come to is not free, in
/// which case it stays behind.
proof fn lemma_duel_move(m: WorldModel, ax: u32, bx: u32, y: u32, cx: int, r: u32)
    requires
        m.flying(ax, bx, y, cx, r),
    ensures
        ({
            let a = m.after_move();
            let n = m.last_id();
            &&& a.duel(ax, bx, y)
            &&& a.len() == m.len()
            &&& a.alive[0] && a.alive[1] && a.alive[n]
            &&& a.explode[n] == (true, false)
            &&& a.lifetime[n] == Lifetime::Temporary(r)
            &&& a.position[n][0] == cell(cx + 2, y)
            &&& a.position[n][1].y == y
            &&& cx + 3 <= bx ==> a.position[n][1] == cell(cx + 3, y)
            &&& a.position[n][1].x == cx + 1 || (a.position[n][1].x == cx + 3 && a.free((cx + 3) as u32, y))
        }),
{
    reveal_with_fuel(WorldModel::walk, 3);
    let a = m.after_move();
    let n = m.last_id();
    lemma_step_consistent(System::Move, m);
    assert(m.free(ax, y) && m.free(bx, y));
    assert(m.free(cx as u32, y));
    assert(m.free((cx + 1) as u32, y));
    assert(m.free((cx + 2) as u32, y));
    // the players
    assert(m.walk_of(0, m.position[0][0]) == Some(cell(ax as int, y)));
    assert(m.walk_of(1, m.position[1][0]) == Some(cell(bx as int, y)));
    assert(!m.stuck(0) && !m.stuck(1));
    assert(a.position[0] =~= m.position[0]);
    assert(a.position[1] =~= m.position[1]);
    // the missile
    let front = m.position[n][0];
    let back = m.position[n][1];
    assert(front == cell(cx, y) && back == cell(cx + 1, y));
    assert(front.spec_moved(1, Dir::Right) == cell(cx + 1, y));
    assert(cell(cx + 1, y).spec_moved(1, Dir::Right) == cell(cx + 2, y));
    assert(cell(cx + 2, y).spec_moved(1, Dir::Right) == cell(cx + 3, y));
    assert(m.walk_of(n, front) == Some(cell(cx + 2, y)));
    assert(!m.stuck(n));
    assert(a.position[n] == m.moved_cells(n));
    assert(a.position[n][0] == m.step_cell(n, front));
    assert(a.position[n][1] == m.step_cell(n, back));
    if cx + 3 <= bx {
        assert(m.free((cx + 3) as u32, y));
    }
    lemma_same_board(a, m, (cx + 3) as u32, y);
    lemma_stage_kept(m, a, ax, bx, y);
}

/// The lifetime system in a duel: the missile has one tick less, and
/// nothing else changes for the players and the missile.
proof fn lemma_duel_lifetime(m: WorldModel, ax: u32, bx: u32, y: u32, r: u32)
    requires
        m.duel(ax, bx, y),
        m.alive[0] && m.alive[1] && m.alive[m.last_id()],
        m.lifetime[m.last_id()] == Lifetime::Temporary(r),
        r > 1,
    ensures
        ({
            let a = m.after_lifetime();
            let n = m.last_id();
            &&& a.duel(ax, bx, y)
            &&& a == (WorldModel { alive: a.alive, lifetime: a.lifetime, ..m })
            &&& a.len() == m.len()
            &&& a.alive[0] && a.alive[1] && a.alive[n]
            &&& a.lifetime[n] == Lifetime::Temporary((r - 1) as u32)
        }),
{
    let a = m.after_lifetime();
    lemma_step_consistent(System::Lifetime, m);
    assert(m.is_player(0) && m.is_player(1));
    assert forall|i: int| 0 <= i < m.len() && m.lifetime[i] == Lifetime::Solid implies a.lifetime[i]
        == Lifetime::Solid by {
        assert(a.lifetime[i] == m.aged_lifetime(i));
    }
    lemma_stage_kept(m, a, ax, bx, y);
}

/// The last two systems in a duel: the energy reload raises no shield,
/// and nothing explodes while the missile has more ticks left than the
/// explode system waits for. Players and missile stay as they are.
proof fn lemma_duel_rest(m: WorldModel, phase: u32, ax: u32, bx: u32, y: u32)
    requires
        m.duel(ax, bx, y),
    ensures
        ({
            let a = System::Explode.world_after(System::EnergyReload(phase).world_after(m));
            let n = m.last_id();
            &&& a.len() == m.len()
            &&& a.wf()
            &&& a.alive == m.alive
            &&& a.lifetime == m.lifetime
            &&& a.player1 == m.player1 && a.player2 == m.player2
            &&& !m.explodes(n) ==> a.duel(ax, bx, y) && a.position[n] == m.position[n] && a.explode[n]
                == m.explode[n]
        }),
{
    let e = System::EnergyReload(phase).world_after(m);
    let a = System::Explode.world_after(e);
    let n = m.last_id();
    lemma_step_consistent(System::EnergyReload(phase), m);
    lemma_step_consistent(System::Explode, e);
    assert(m.is_player(0) && m.is_player(1));
    assert(e.is_player(0) && e.is_player(1));
    assert(!e.explodes(0) && !e.explodes(1));
    assert(a.alive =~= m.alive);
    assert(a.lifetime =~= m.lifetime);
    if !m.explodes(n) {
        assert(!e.explodes(n));
        assert forall|i: int| 0 <= i < m.len() && m.lifetime[i] == Lifetime::Solid implies e.lifetime[i]
            == Lifetime::Solid by {}
        lemma_stage_kept(m, e, ax, bx, y);
        assert forall|i: int| 0 <= i < e.len() && e.lifetime[i] == Lifetime::Solid implies a.lifetime[i]
            == Lifetime::Solid by {}
        lemma_stage_kept(e, a, ax, bx, y);
        assert(a.shield[1] == e.shield[1] && a.shield[n] == e.shield[n]);
        assert(e.shield[1] == m.pays_shield(1) || e.shield[1] == m.shield[1]);
        assert(e.shield[n] == m.pays_shield(n) || e.shield[n] == m.shield[n]);
    }
}

/// In a duel neither player shares a cell with the other or with an
/// obstacle.
proof fn lemma_players_apart(m: WorldModel, ax: u32, bx: u32, y: u32, j: int)
    requires
        m.duel(ax, bx, y),
        1 <= j < m.last_id(),
    ensures
        !m.touch(0, j),
        j >= 2 ==> !m.touch(1, j),
{
    assert(m.free(ax, y) && m.free(bx, y));
    if j == 1 {
        assert forall|a: int, b: int|
            0 <= a < m.position[0].len() && 0 <= b < m.position[1].len() implies !(#[trigger] m.position[0][a]).spec_does_hit(
            #[trigger] m.position[1][b],
        ) by {}
    } else {
        lemma_wall_apart(m, 0, j);
        lemma_wall_apart(m, 1, j);
    }
}

/// The collision system in a duel while the missile is on its way: with
/// the missile between the players nothing touches a player or the
/// missile, and all three stay alive.
proof fn lemma_duel_no_hit(m: WorldModel, ax: u32, bx: u32, y: u32, c: int)
    requires
        m.duel(ax, bx, y),
        m.alive[0] && m.alive[1] && m.alive[m.last_id()],
        m.position[m.last_id()] == seq![cell(c, y), cell(c + 1, y)],
        ax < c,
        c + 1 < bx,
    ensures
        ({
            let a = m.after_collision();
            let n = m.last_id();
            &&& a == (WorldModel { alive: a.alive, ..m })
            &&& a.len() == m.len()
            &&& a.duel(ax, bx, y)
            &&& a.alive[0] && a.alive[1] && a.alive[n]
        }),
{
    let a = m.after_collision();
    let n = m.last_id();
    lemma_step_consistent(System::Collision, m);
    assert(m.free(c as u32, y) && m.free((c + 1) as u32, y));
    assert forall|i: int, j: int|
        0 <= i < j < m.len() && (i == 0 || i == 1 || j == n) implies !#[trigger] m.hits(i, j) by {
        if j == n {
            if i >= 2 {
                lemma_wall_apart(m, n, i);
            } else {
                assert forall|p: int, q: int|
                    0 <= p < m.position[i].len() && 0 <= q < m.position[n].len() implies !(
                #[trigger] m.position[i][p]).spec_does_hit(#[trigger] m.position[n][q]) by {}
            }
        } else {
            lemma_players_apart(m, ax, bx, y, j);
        }
    }
    if exists|i: int, j: int| m.is_first_hit(i, j) {
        let (i, j) = choose|i: int, j: int| m.is_first_hit(i, j);
        lemma_first_hit_unique(m, i, j);
        assert(m.hits(i, j));
        assert(i != 0 && i != 1 && j != n);
    }
    lemma_stage_kept(m, a, ax, bx, y);
}

/// The collision system in a duel when the missile has arrived: its
/// first cell is the cell of the second player, the two are the first
/// pair to share a cell, and both die. The first player lives.
proof fn lemma_duel_hit(m: WorldModel, ax: u32, bx: u32, y: u32)
    requires
        m.duel(ax, bx, y),
        m.alive[0] && m.alive[1] && m.alive[m.last_id()],
        m.position[m.last_id()][0] == cell(bx as int, y),
        m.position[m.last_id()][1].y == y,
        m.position[m.last_id()][1].x == bx - 1 || (m.position[m.last_id()][1].x == bx + 1 && m.free(
            (bx + 1) as u32,
            y,
        )),
        ax + 1 < bx,
    ensures
        ({
            let a = m.after_collision();
            let n = m.last_id();
            &&& a == (WorldModel { alive: a.alive, ..m })
            &&& a.len() == m.len()
            &&& a.alive[0]
            &&& !a.alive[1]
            &&& !a.alive[n]
        }),
{
    let n = m.last_id();
    assert(m.position[1][0].spec_does_hit(m.position[n][0]));
    assert(m.touch(1, n));
    assert(m.hits(1, n));
    assert forall|i: int, j: int|
        0 <= i < j < m.len() && WorldModel::pair_before(i, j, 1, n) implies !#[trigger] m.hits(i, j) by {
        if j == n {
            assert(i == 0);
            assert forall|p: int, q: int|
                0 <= p < m.position[0].len() && 0 <= q < m.position[n].len() implies !(
            #[trigger] m.position[0][p]).spec_does_hit(#[trigger] m.position[n][q]) by {}
        } else {
            lemma_players_apart(m, ax, bx, y, j);
        }
    }
    assert(m.is_first_hit(1, n));
    lemma_first_hit_unique(m, 1, n);
}

/// A tick of flight: while the missile has an empty column between it
/// and the second player after its move, and more ticks left than the
/// explode system waits for, a tick takes it two columns on and costs it
/// one tick of its life. Nobody falls.
pub proof fn lemma_flight_tick(m: WorldModel, phase: u32, ax: u32, bx: u32, y: u32, cx: int, r: u32)
    requires
        m.flying(ax, bx, y, cx, r),
        cx + 4 <= bx,
        r >= 4,
    ensures
        world_after_all(systems_in_phase(phase), m).flying(ax, bx, y, cx + 2, (r - 1) as u32),
        world_after_all(systems_in_phase(phase), m).len() == m.len(),
{
    lemma_tick_unfolds(m, phase);
    let n = m.last_id();
    let a = m.after_move();
    lemma_duel_move(m, ax, bx, y, cx, r);
    assert(a.position[n] =~= seq![cell(cx + 2, y), cell(cx + 3, y)]);
    let l = a.after_lifetime();
    lemma_duel_lifetime(a, ax, bx, y, r);
    let c = l.after_collision();
    lemma_duel_no_hit(l, ax, bx, y, cx + 2);
    assert(!c.explodes(n));
    lemma_duel_rest(c, phase, ax, bx, y);
}

/// The tick of the impact: when the missile is two columns short of the
/// second player and has more than one tick left, the tick brings it
/// onto that player. The player falls and the missile is gone; the first
/// player lives.
pub proof fn lemma_impact_tick(m: WorldModel, phase: u32, ax: u32, bx: u32, y: u32, cx: int, r: u32)
    requires
        m.flying(ax, bx, y, cx, r),
        cx + 2 == bx,
        r >= 2,
    ensures
        world_after_all(systems_in_phase(phase), m).decided(),
        world_after_all(systems_in_phase(phase), m).wf(),
        world_after_all(systems_in_phase(phase), m).len() == m.len(),
{
    lemma_tick_unfolds(m, phase);
    let n = m.last_id();
    let a = m.after_move();
    lemma_duel_move(m, ax, bx, y, cx, r);
    let l = a.after_lifetime();
    lemma_duel_lifetime(a, ax, bx, y, r);
    lemma_same_board(l, a, (bx + 1) as u32, y);
    let c = l.after_collision();
    lemma_duel_hit(l, ax, bx, y);
    lemma_step_consistent(System::Collision, l);
    lemma_step_consistent(System::EnergyReload(phase), c);
    lemma_step_consistent(System::Explode, System::EnergyReload(phase).world_after(c));
    let e = System::EnergyReload(phase).world_after(c);
    let f = System::Explode.world_after(e);
    assert(f.alive =~= c.alive);
    lemma_all_keep_scalars(systems_in_phase(phase), m);
}

/// No event comes in from tick `from` on.
pub open spec fn quiet_from(input: Seq<Seq<InputEvent>>, from: nat) -> bool {
    forall|t: int| from <= t < input.len() ==> (#[trigger] input[t]).len() == 0
}

/// The rest of a duel: with no more input, with ticks enough for the way
/// and with a missile that has life enough for it, the round goes on
/// until the missile arrives, and ends there, decided, and not by a wish
/// to quit. Nobody has lost a life yet.
pub proof fn lemma_duel_played(
    m: WorldModel,
    phase: u32,
    input: Seq<Seq<InputEvent>>,
    t: nat,
    ax: u32,
    bx: u32,
    y: u32,
    cx: int,
    r: u32,
)
    requires
        m.flying(ax, bx, y, cx, r),
        (bx - cx) % 2 == 0,
        2 * r >= (bx - cx) + 4,
        quiet_from(input, t),
        2 * t + (bx - cx) <= 2 * input.len(),
    ensures
        !m.played(systems_in_phase(phase), input, t).1,
        m.played(systems_in_phase(phase), input, t).0.decided(),
        m.played(systems_in_phase(phase), input, t).0.wf(),
        m.played(systems_in_phase(phase), input, t).0.len() == m.len(),
        m.played(systems_in_phase(phase), input, t).0.p1_lives == m.p1_lives,
        m.played(systems_in_phase(phase), input, t).0.p2_lives == m.p2_lives,
    decreases bx - cx,
{
    let systems = systems_in_phase(phase);
    let next = world_after_all(systems, m);
    let after = ((phase + 1) % 5) as u32;
    lemma_tick_unfolds(m, phase);
    lemma_all_keep_scalars(systems, m);
    assert(m.both_standing());
    assert(input[t as int].len() == 0);
    assert(m.after_events(input[t as int], 0) == (m, false));
    assert(m.played(systems, input, t) == next.played(systems_in_phase(after), input, t + 1));
    if cx + 2 == bx {
        lemma_impact_tick(m, phase, ax, bx, y, cx, r);
        assert(!next.both_standing());
    } else {
        lemma_flight_tick(m, phase, ax, bx, y, cx, r);
        lemma_duel_played(next, after, input, t + 1, ax, bx, y, cx + 2, (r - 1) as u32);
    }
}

impl WorldModel {
    /// The board suits a duel at the start of a round: it has room for
    /// both players, and the row on which they start is no row of the
    /// wall.
    pub open spec fn open_field(self) -> bool {
        &&& self.width >= 5
        &&& self.height >= 5
        &&& (self.height / 2 < self.height / 3 || self.height / 2 >= (self.height / 3) * 2)
    }
}

/// The first shot of a round on an open field: when the first player
/// fires to the right at the start of a round, the duel is on. The
/// missile begins on the cell of the player that fired it.
pub proof fn lemma_duel_begins(m: WorldModel)
    requires
        m.open_field(),
    ensures
        ({
            let start = m.restarted().revived().at_start();
            let shot = start.after_event(InputEvent::Fire { entity_id: 1, dir: Dir::Right });
            &&& start.wf()
            &&& start.both_standing()
            &&& shot.len() == start.len() + 1
            &&& shot.p1_lives == m.p1_lives
            &&& shot.p2_lives == m.p2_lives
            &&& shot.flying(
                m.width / 4,
                ((m.width / 4) * 3) as u32,
                m.height / 2,
                (m.width / 4) as int,
                m.missile_range_horizontal,
            )
        }),
{
    let r = m.restarted();
    lemma_restarted(m);
    let two = m.cleared().with_players();
    let wx = two.width / 2;
    let from = two.height / 3;
    let to = ((two.height / 3) * 2) as u32;
    lemma_with_bars(two, wx, from, to);
    lemma_bars_keep_scalars(two, wx, from, to);
    let start = r.revived().at_start();
    lemma_rows_kept(r, start);
    let ax = m.width / 4;
    let bx = ((m.width / 4) * 3) as u32;
    let y = m.height / 2;
    assert(r.row(0).position.len() == 1 && r.row(1).position.len() == 1);
    assert(start.position[0] =~= seq![cell(ax as int, y)]);
    assert(start.position[1] =~= seq![cell(bx as int, y)]);
    assert forall|i: int| 2 <= i < start.len() implies #[trigger] start.lifetime[i] == Lifetime::Solid
        && start.position[i].len() == 1 && start.position[i][0].x == wx && start.position[i][0].y
        != y by {
        lemma_bars_rows(two, wx, from, to, i);
        assert(start.keeps_row(r, i));
        assert(start.position[i] == r.position[i]);
    }
    assert forall|x: u32| ax <= x <= bx implies #[trigger] start.free(x, y) by {
        if start.blocked(x, y) {
            let j = choose|j: int| 0 <= j < start.len() && #[trigger] start.blocks(j, x, y);
            if j >= 2 {
                assert(start.lifetime[j] == Lifetime::Solid);
            }
        }
    }
    let color = start.sprite[0].color_idx;
    let from_cell = cell(ax as int, y);
    let row = missile_row(start, from_cell, Dir::Right, color);
    assert(from_cell.spec_moved(1, Dir::Right) == cell(ax + 1, y));
    assert(start.free((ax + 1) as u32, y));
    assert(missile_fits(start, from_cell, Dir::Right));
    assert(start.muzzle(0, Dir::Right) == from_cell);
    assert(start.can_fire(0, Dir::Right));
    let pushed = start.push(row);
    lemma_push_row(start, row);
    let shot = pushed.spent(0, ENERGY_MISSILE);
    assert(start.row(0).energy == r.row(0).energy);
    assert(shot == start.after_event(InputEvent::Fire { entity_id: 1, dir: Dir::Right }));
    lemma_rows_kept(pushed, shot);
    let n = shot.last_id();
    assert(n == start.len());
    assert(pushed.row(n) == row);
    assert(pushed.row(0) == start.row(0) && pushed.row(1) == start.row(1));
    assert forall|i: int| 2 <= i < shot.last_id() implies #[trigger] shot.lifetime[i] == Lifetime::Solid
        && shot.position[i].len() == 1 by {
        assert(pushed.row(i) == start.row(i));
        assert(start.lifetime[i] == Lifetime::Solid);
    }
    assert forall|x: u32| ax <= x <= bx implies #[trigger] shot.free(x, y) by {
        assert(start.free(x, y));
        lemma_push_keeps_board(start, row, x, y);
        lemma_keeps_board(pushed, shot, x, y);
    }
    assert(shot.position[n] =~= seq![cell(ax as int, y), cell(ax + 1, y)]);
}

/// The duel as a whole. On an open field, at the start of a round, the
/// first player fires one missile to the right at the second, who stands
/// still without a shield; nothing else comes in, the missile has range
/// enough for the way, and the input lasts for the ticks of the flight.
/// Then the round does not end by a wish to quit: it ends when the
/// missile arrives. The second player has fallen and the missile is
/// gone, the first player is alive, and the round has taken exactly one
/// life from the second player and none from the first.
pub proof fn lemma_duel_round(m: WorldModel, input: Seq<Seq<InputEvent>>)
    requires
        m.open_field(),
        m.missile_range_horizontal >= m.width / 4 + 2,
        m.p1_lives > 0,
        m.p2_lives > 0,
        input.len() >= m.width / 4,
        input[0] == seq![InputEvent::Fire { entity_id: 1, dir: Dir::Right }],
        quiet_from(input, 1),
    ensures
        ({
            let (end, quit) = m.restarted().round(input);
            &&& !quit
            &&& end.player1 == 0
            &&& end.player2 == 1
            &&& end.alive[0]
            &&& !end.alive[1]
            &&& !end.alive[end.len() - 1]
            &&& end.len() == m.restarted().len() + 1
            &&& end.p1_lives == m.p1_lives
            &&& end.p2_lives == m.p2_lives - 1
        }),
{
    let r = m.restarted();
    lemma_restarted(m);
    let start = r.revived().at_start();
    lemma_duel_begins(m);
    let fire = InputEvent::Fire { entity_id: 1, dir: Dir::Right };
    let shot = start.after_event(fire);
    let ax = m.width / 4;
    let bx = ((m.width / 4) * 3) as u32;
    let y = m.height / 2;
    let range = m.missile_range_horizontal;
    // the first tick hears the shot
    assert(input[0].len() == 1 && input[0][0] == fire);
    assert(shot.after_events(input[0], 1) == (shot, false));
    assert(start.after_events(input[0], 0) == (shot, false));
    let first = pipeline_spec();
    assert(first =~= systems_in_phase(0));
    lemma_tick_unfolds(shot, 0);
    lemma_all_keep_scalars(first, shot);
    let next = world_after_all(first, shot);
    assert(start.played(first, input, 0) == next.played(systems_in_phase(1), input, 1));
    if ax + 2 == bx {
        lemma_impact_tick(shot, 0, ax, bx, y, ax as int, range);
        assert(!next.both_standing());
        assert(next.played(systems_in_phase(1), input, 1) == (next, false));
    } else {
        lemma_flight_tick(shot, 0, ax, bx, y, ax as int, range);
        lemma_duel_played(next, 1, input, 1, ax, bx, y, ax + 2, (range - 1) as u32);
    }
}

} // verus!
