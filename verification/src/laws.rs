//! What holds of the game as a whole, proved from the definitions of its
//! parts.

use vstd::prelude::*;
use crate::dir::Dir;
use crate::factory::{bar_row, dist_to_edge, missile_fits, missile_row, ray_line, ray_row};
use crate::game::InputEvent;
use crate::pos::Pos;
use crate::setup::{lemma_bars_rows, lemma_restarted};
use crate::systems::{
    lemma_all_consistent, lemma_blast_cells, lemma_first_hit_unique, lemma_same_board,
    lemma_step_consistent, pipeline_spec, world_after_all, System,
};
use crate::world::{
    lemma_push_keeps_board, lemma_push_row, lemma_rows_kept, Lifetime, Row, WorldModel, ENERGY_MISSILE, ENERGY_RAY,
    ENERGY_SHIELD,
};

verus! {

impl WorldModel {
    /// Every cell of entity `i` has the coordinates of a free cell of the
    /// board. The flag of a cell is left aside: a cell that could not move
    /// is flagged and stays where it was.
    pub open spec fn contained_at(self, i: int) -> bool {
        forall|k: int|
            0 <= k < self.position[i].len() ==> self.free(
                (#[trigger] self.position[i][k]).x,
                self.position[i][k].y,
            )
    }

    /// Entity `i` is one whose cells must lie on the board: it is alive, it
    /// is not exploding, and it is no obstacle, whose own cell is never
    /// free.
    pub open spec fn must_be_contained(self, i: int) -> bool {
        self.alive[i] && !self.explode[i].1 && self.lifetime[i] != Lifetime::Solid
    }

    /// Every living entity that is neither exploding nor an obstacle has
    /// all its cells on free cells of the board.
    pub open spec fn contained(self) -> bool {
        forall|i: int| 0 <= i < self.len() && #[trigger] self.must_be_contained(i) ==> self.contained_at(i)
    }
}

/// Alignment, one system at a time: a system leaves one slot for each
/// entity in every component, and neither adds an entity nor takes one
/// away.
pub proof fn lemma_step_aligned(s: System, m: WorldModel)
    requires
        m.aligned(),
    ensures
        s.world_after(m).aligned(),
        s.world_after(m).len() == m.len(),
{
}

/// Alignment over a tick: whatever systems run, and in whatever order,
/// every component keeps one slot for each entity.
pub proof fn lemma_tick_aligned(systems: Seq<System>, m: WorldModel)
    requires
        m.aligned(),
    ensures
        world_after_all(systems, m).aligned(),
        world_after_all(systems, m).len() == m.len(),
    decreases systems.len(),
{
    if systems.len() > 0 {
        lemma_tick_aligned(systems.drop_last(), m);
        lemma_step_aligned(systems.last(), world_after_all(systems.drop_last(), m));
    }
}

/// Alignment when a player acts: an input event leaves one slot for each
/// entity in every component, and adds one entity at most.
pub proof fn lemma_event_aligned(m: WorldModel, ev: InputEvent)
    requires
        m.aligned(),
        m.player1 < m.len(),
        m.player2 < m.len(),
    ensures
        m.after_event(ev).aligned(),
        m.len() <= m.after_event(ev).len() <= m.len() + 1,
{
}

/// The number of cells of an entity is fixed when the entity is made: no
/// system changes it but the explode system, and that one only for the
/// entity that it turns into an explosion.
pub proof fn lemma_cells_keep_count(s: System, m: WorldModel, i: int)
    requires
        m.aligned(),
        0 <= i < m.len(),
    ensures
        s.world_after(m).position[i].len() == m.position[i].len() || (s == System::Explode && m.explodes(i)),
{
    match s {
        System::Collision => {
            if exists|a: int, b: int| m.is_first_hit(a, b) {
                let (a, b) = choose|a: int, b: int| m.is_first_hit(a, b);
                lemma_first_hit_unique(m, a, b);
            }
        },
        _ => {},
    }
}

/// A walk of at least one step ends on the board.
pub proof fn lemma_walk_ends_on_board(m: WorldModel, p: Pos, dir: Dir, n: nat)
    requires
        n > 0,
        m.walk(p, dir, n).is_some(),
    ensures
        m.on_board(m.walk(p, dir, n).unwrap()),
    decreases n,
{
    let q = p.spec_moved(1, dir);
    if n > 1 {
        lemma_walk_ends_on_board(m, q, dir, (n - 1) as nat);
    } else {
        assert(m.walk(q, dir, 0) == Some(q));
    }
}

/// A ray is a straight line: it begins on the cell it starts from, each
/// further cell is one step on from the cell before it and is on the
/// board, and there are no more cells than the ray may take.
pub proof fn lemma_ray_on_board(m: WorldModel, p: Pos, dir: Dir, n: nat)
    ensures
        forall|k: int|
            1 <= k < ray_line(m, p, dir, n).len() ==> m.on_board(#[trigger] ray_line(m, p, dir, n)[k])
                && ray_line(m, p, dir, n)[k] == ray_line(m, p, dir, n)[k - 1].spec_moved(1, dir),
        ray_line(m, p, dir, n).len() > 0 ==> ray_line(m, p, dir, n)[0] == p,
        ray_line(m, p, dir, n).len() <= n,
        n > 0 ==> ray_line(m, p, dir, n).len() > 0,
    decreases n,
{
    if n > 0 {
        let q = p.spec_moved(1, dir);
        if m.on_board(q) {
            lemma_ray_on_board(m, q, dir, (n - 1) as nat);
            let rest = ray_line(m, q, dir, (n - 1) as nat);
            let line = ray_line(m, p, dir, n);
            assert forall|k: int| 1 <= k < line.len() implies m.on_board(#[trigger] line[k]) && line[k]
                == line[k - 1].spec_moved(1, dir) by {
                assert(line[k] == rest[k - 1]);
                if k > 1 {
                    assert(m.on_board(rest[k - 1]));
                    assert(line[k - 1] == rest[k - 2]);
                }
            }
        }
    }
}

/// Board containment, one system at a time: a system leaves every living
/// entity that is neither exploding nor an obstacle on free cells, if they
/// all were before.
pub proof fn lemma_step_contained(s: System, m: WorldModel)
    requires
        m.consistent(),
        m.contained(),
    ensures
        s.world_after(m).contained(),
{
    let a = s.world_after(m);
    lemma_step_consistent(s, m);
    assert forall|i: int| 0 <= i < a.len() && #[trigger] a.must_be_contained(i) implies a.contained_at(i) by {
        lemma_stays_alive(s, m, i);
        assert(m.row_ok(i));
        assert(a.same_obstacle(m, i));
        match s {
            System::Move => {
                assert(m.must_be_contained(i));
                assert forall|k: int| 0 <= k < a.position[i].len() implies a.free(
                    (#[trigger] a.position[i][k]).x,
                    a.position[i][k].y,
                ) by {
                    let c = m.position[i][k];
                    let d = a.position[i][k];
                    assert(m.free(c.x, c.y));
                    if m.moves(i) {
                        assert(d == m.step_cell(i, c));
                        if m.walk_of(i, c).is_some() {
                            lemma_walk_ends_on_board(m, c, m.velocity[i].1, m.velocity[i].0 as nat);
                        }
                    }
                    lemma_same_board(a, m, d.x, d.y);
                }
            },
            System::Explode => {
                assert(a.explode[i] == m.exploded_flags(i));
                assert(!m.explodes(i));
                assert(m.must_be_contained(i));
                assert forall|k: int| 0 <= k < a.position[i].len() implies a.free(
                    (#[trigger] a.position[i][k]).x,
                    a.position[i][k].y,
                ) by {
                    let c = m.position[i][k];
                    assert(m.free(c.x, c.y));
                    lemma_same_board(a, m, c.x, c.y);
                }
            },
            _ => {
                assert(m.must_be_contained(i));
                assert(a.position[i] == m.position[i]);
                assert forall|k: int| 0 <= k < a.position[i].len() implies a.free(
                    (#[trigger] a.position[i][k]).x,
                    a.position[i][k].y,
                ) by {
                    let c = m.position[i][k];
                    assert(m.free(c.x, c.y));
                    lemma_same_board(a, m, c.x, c.y);
                }
            },
        }
    }
}

/// Board containment over a tick: whatever systems run, and in whatever
/// order, living entities that are neither exploding nor obstacles stay on
/// free cells.
pub proof fn lemma_tick_contained(systems: Seq<System>, m: WorldModel)
    requires
        m.consistent(),
        m.contained(),
    ensures
        world_after_all(systems, m).contained(),
    decreases systems.len(),
{
    if systems.len() > 0 {
        lemma_tick_contained(systems.drop_last(), m);
        lemma_all_consistent(systems.drop_last(), m);
        lemma_step_contained(systems.last(), world_after_all(systems.drop_last(), m));
    }
}

/// No system brings an entity back to life, and no system but the lifetime
/// system changes how long an entity has left; the lifetime system leaves
/// the dead as they are.
pub proof fn lemma_stays_alive(s: System, m: WorldModel, i: int)
    requires
        m.aligned(),
        0 <= i < m.len(),
    ensures
        s.world_after(m).alive[i] ==> m.alive[i],
        s != System::Lifetime ==> s.world_after(m).lifetime[i] == m.lifetime[i],
        !m.alive[i] ==> s.world_after(m).lifetime[i] == m.lifetime[i],
        !s.world_after(m).explode[i].1 ==> !m.explode[i].1,
{
    match s {
        System::Collision => {
            if exists|a: int, b: int| m.is_first_hit(a, b) {
                let (a, b) = choose|a: int, b: int| m.is_first_hit(a, b);
                lemma_first_hit_unique(m, a, b);
            }
        },
        _ => {},
    }
}

/// No input event brings an entity back to life, kills one, or changes
/// how long one has left.
pub proof fn lemma_event_keeps_alive(m: WorldModel, ev: InputEvent, i: int)
    requires
        m.aligned(),
        m.player1 < m.len(),
        m.player2 < m.len(),
        0 <= i < m.len(),
    ensures
        m.after_event(ev).alive[i] == m.alive[i],
        m.after_event(ev).lifetime[i] == m.lifetime[i],
{
}

/// Bounce: an entity that bounces and none of whose cells can make its
/// walk turns to the opposite direction, keeps its speed, stays alive, and
/// has every cell on the coordinates it had.
pub proof fn lemma_bounce(m: WorldModel, i: int)
    requires
        m.aligned(),
        0 <= i < m.len(),
        m.moves(i),
        m.bounce[i],
        m.stuck(i),
    ensures
        m.after_move().velocity[i] == (m.velocity[i].0, m.velocity[i].1.spec_opposite()),
        m.after_move().alive[i],
        m.after_move().position[i].len() == m.position[i].len(),
        forall|k: int|
            0 <= k < m.position[i].len() ==> (#[trigger] m.after_move().position[i][k]).spec_does_hit(
                m.position[i][k],
            ),
{
    assert forall|k: int| 0 <= k < m.position[i].len() implies (#[trigger] m.after_move().position[i][k]).spec_does_hit(
        m.position[i][k],
    ) by {
        assert(m.walk_of(i, m.position[i][k]).is_none());
    }
}

/// An entity that does not bounce and none of whose cells can make its
/// walk dies.
pub proof fn lemma_no_bounce(m: WorldModel, i: int)
    requires
        m.aligned(),
        0 <= i < m.len(),
        m.moves(i),
        !m.bounce[i],
        m.stuck(i),
    ensures
        !m.after_move().alive[i],
        m.after_move().velocity[i] == m.velocity[i],
{
}

/// Lifetime: a living entity with `n` ticks left has `n - 1` left after the
/// lifetime system, and is alive after it exactly if that is more than
/// none.
pub proof fn lemma_lifetime_counts_down(m: WorldModel, i: int, n: u32)
    requires
        m.aligned(),
        0 <= i < m.len(),
        m.alive[i],
        m.lifetime[i] == Lifetime::Temporary(n),
        n > 0,
    ensures
        m.after_lifetime().lifetime[i] == Lifetime::Temporary((n - 1) as u32),
        m.after_lifetime().alive[i] <==> n - 1 > 0,
{
}

/// Lifetime over a tick: of an entity with `n` ticks left a tick takes one
/// tick or, where the entity was dead or died before its turn, none; an
/// entity that is alive after the tick has lost exactly one and has some
/// left; and an entity that was not alive is not alive after it.
pub proof fn lemma_tick_lifetime(m: WorldModel, i: int, n: u32)
    requires
        m.consistent(),
        0 <= i < m.len(),
        m.lifetime[i] == Lifetime::Temporary(n),
    ensures
        ({
            let after = world_after_all(pipeline_spec(), m);
            &&& after.lifetime[i] == Lifetime::Temporary(n) || (n > 0 && after.lifetime[i]
                == Lifetime::Temporary((n - 1) as u32))
            &&& after.alive[i] ==> m.alive[i] && n > 1 && after.lifetime[i] == Lifetime::Temporary(
                (n - 1) as u32,
            )
        }),
{
    let all = pipeline_spec();
    let run4 = all.drop_last();
    let run3 = run4.drop_last();
    let run2 = run3.drop_last();
    let run1 = run2.drop_last();
    let run0 = run1.drop_last();
    let m0 = world_after_all(run0, m);
    assert(run0.len() == 0);
    assert(m0 == m);
    let m1 = world_after_all(run1, m);
    let m2 = world_after_all(run2, m);
    let m3 = world_after_all(run3, m);
    let m4 = world_after_all(run4, m);
    let m5 = world_after_all(all, m);
    assert(run1.last() == System::Move && run2.last() == System::Lifetime && run3.last() == System::Collision);
    assert(run4.last() == System::EnergyReload(0) && all.last() == System::Explode);
    assert(m1 == System::Move.world_after(m0));
    assert(m2 == System::Lifetime.world_after(m1));
    assert(m3 == System::Collision.world_after(m2));
    assert(m4 == System::EnergyReload(0).world_after(m3));
    assert(m5 == System::Explode.world_after(m4));
    lemma_all_consistent(run1, m);
    lemma_all_consistent(run2, m);
    lemma_all_consistent(run3, m);
    lemma_all_consistent(run4, m);
    lemma_stays_alive(System::Move, m0, i);
    lemma_stays_alive(System::Lifetime, m1, i);
    lemma_stays_alive(System::Collision, m2, i);
    lemma_stays_alive(System::EnergyReload(0), m3, i);
    lemma_stays_alive(System::Explode, m4, i);
    assert(m2.lifetime[i] == m1.aged_lifetime(i));
    assert(m2.alive[i] == m1.aged_alive(i));
}

/// Collision: of the first pair of living entities that share a cell each
/// one dies exactly if its shield is down. So where neither is shielded
/// both die in the same pass, and where one is shielded only the other
/// dies. Nobody else is touched.
pub proof fn lemma_collision_symmetry(m: WorldModel, a: int, b: int)
    requires
        m.aligned(),
        m.is_first_hit(a, b),
    ensures
        m.after_collision().alive[a] == m.shield[a],
        m.after_collision().alive[b] == m.shield[b],
        forall|i: int| 0 <= i < m.len() && i != a && i != b ==> m.after_collision().alive[i] == m.alive[i],
{
    lemma_first_hit_unique(m, a, b);
}

/// Two entities share a cell whichever of the two is asked first.
pub proof fn lemma_touch_symmetric(m: WorldModel, i: int, j: int)
    ensures
        m.touch(i, j) == m.touch(j, i),
        m.hits(i, j) == m.hits(j, i),
{
    if m.touch(i, j) {
        let (a, b) = choose|a: int, b: int|
            0 <= a < m.position[i].len() && 0 <= b < m.position[j].len() && (
            #[trigger] m.position[i][a]).spec_does_hit(#[trigger] m.position[j][b]);
        assert(m.position[j][b].spec_does_hit(m.position[i][a]));
    }
    if m.touch(j, i) {
        let (a, b) = choose|a: int, b: int|
            0 <= a < m.position[j].len() && 0 <= b < m.position[i].len() && (
            #[trigger] m.position[j][a]).spec_does_hit(#[trigger] m.position[i][b]);
        assert(m.position[i][b].spec_does_hit(m.position[j][a]));
    }
}

/// Shield economy: an entity whose shield is up and whose energy is below
/// the upkeep of a shield has its shield down after the energy system, and
/// has gained its unit of energy and paid nothing.
pub proof fn lemma_shield_economy(m: WorldModel, i: int)
    requires
        m.aligned(),
        0 <= i < m.len(),
        m.shield[i],
        m.energy[i] < ENERGY_SHIELD,
    ensures
        !m.after_energy().shield[i],
        m.after_energy().energy[i] == m.energy[i] + 1,
        !System::EnergyReload(0).world_after(m).shield[i],
        System::EnergyReload(0).world_after(m).energy[i] == m.energy[i] + 1,
{
}

/// An entity that can pay for its shield pays the upkeep out of what it
/// has after the reload, and keeps the shield up; a shield that is down
/// stays down.
pub proof fn lemma_shield_paid(m: WorldModel, i: int)
    requires
        m.aligned(),
        0 <= i < m.len(),
    ensures
        m.after_energy().shield[i] ==> m.shield[i],
        m.after_energy().shield[i] ==> m.after_energy().energy[i] == WorldModel::reloaded(m.energy[i])
            - ENERGY_SHIELD,
        !m.shield[i] ==> m.after_energy().energy[i] == WorldModel::reloaded(m.energy[i]),
{
}

/// Board containment when a player acts: while both players are alive an
/// input event leaves living entities that are neither exploding nor
/// obstacles on free cells, if they all were before.
pub proof fn lemma_event_contained(m: WorldModel, ev: InputEvent)
    requires
        m.wf(),
        m.contained(),
        m.alive[m.player1 as int],
        m.alive[m.player2 as int],
    ensures
        m.after_event(ev).contained(),
{
    let a = m.after_event(ev);
    match ev {
        InputEvent::Fire { entity_id, dir } => {
            if let Some(id) = m.player_entity(entity_id) {
                lemma_fired_contained(m, id, dir);
            }
        },
        _ => {
            assert(a.len() == m.len() ==> a.position == m.position);
            assert forall|i: int| 0 <= i < a.len() && #[trigger] a.must_be_contained(i) implies a.contained_at(
                i,
            ) by {
                assert(m.must_be_contained(i));
                assert forall|k: int| 0 <= k < a.position[i].len() implies a.free(
                    (#[trigger] a.position[i][k]).x,
                    a.position[i][k].y,
                ) by {
                    let c = m.position[i][k];
                    assert(m.free(c.x, c.y));
                    lemma_keeps_board(m, a, c.x, c.y);
                }
            }
        },
    }
}

/// Worlds that differ in nothing that makes a cell free agree on which
/// cells are free.
pub proof fn lemma_keeps_board(m: WorldModel, a: WorldModel, x: u32, y: u32)
    requires
        a.width == m.width,
        a.height == m.height,
        a.lifetime == m.lifetime,
        a.position == m.position,
        a.alive.len() == m.alive.len(),
    ensures
        a.free(x, y) == m.free(x, y),
{
    if m.blocked(x, y) {
        let i = choose|i: int| 0 <= i < m.len() && #[trigger] m.blocks(i, x, y);
        assert(a.blocks(i, x, y));
    }
    if a.blocked(x, y) {
        let i = choose|i: int| 0 <= i < a.len() && #[trigger] a.blocks(i, x, y);
        assert(m.blocks(i, x, y));
    }
}

/// Board containment when an entity is made: adding a row whose cells are
/// free, and that is no obstacle, keeps the entities on the board.
pub proof fn lemma_push_contained(m: WorldModel, r: Row)
    requires
        m.aligned(),
        m.contained(),
        r.lifetime != Lifetime::Solid,
        forall|k: int| 0 <= k < r.position.len() ==> m.free((#[trigger] r.position[k]).x, r.position[k].y),
    ensures
        m.push(r).contained(),
{
    let a = m.push(r);
    lemma_push_row(m, r);
    assert forall|i: int| 0 <= i < a.len() && #[trigger] a.must_be_contained(i) implies a.contained_at(i) by {
        assert forall|k: int| 0 <= k < a.position[i].len() implies a.free(
            (#[trigger] a.position[i][k]).x,
            a.position[i][k].y,
        ) by {
            let c = a.position[i][k];
            lemma_push_keeps_board(m, r, c.x, c.y);
            if i < m.len() {
                assert(a.row(i) == m.row(i));
                assert(m.must_be_contained(i));
                assert(m.free(m.position[i][k].x, m.position[i][k].y));
            } else {
                assert(a.row(i) == r);
                assert(m.free(r.position[k].x, r.position[k].y));
            }
        }
    }
}

/// Paying energy moves nobody.
proof fn lemma_spent_contained(m: WorldModel, id: int, cost: u32)
    requires
        m.aligned(),
        m.contained(),
        0 <= id < m.len(),
    ensures
        m.spent(id, cost).contained(),
{
    let a = m.spent(id, cost);
    assert forall|i: int| 0 <= i < a.len() && #[trigger] a.must_be_contained(i) implies a.contained_at(i) by {
        assert(m.must_be_contained(i));
        assert forall|k: int| 0 <= k < a.position[i].len() implies a.free(
            (#[trigger] a.position[i][k]).x,
            a.position[i][k].y,
        ) by {
            let c = m.position[i][k];
            assert(m.free(c.x, c.y));
            lemma_keeps_board(m, a, c.x, c.y);
        }
    }
}

/// A shot of a living player keeps the entities on the board.
pub proof fn lemma_fired_contained(m: WorldModel, id: int, dir: Dir)
    requires
        m.wf(),
        m.contained(),
        m.is_player(id),
        m.alive[id],
    ensures
        m.fired(id, dir).contained(),
{
    if m.can_fire(id, dir) {
        let start = m.muzzle(id, dir);
        let color = m.sprite[id].color_idx;
        assert(m.must_be_contained(id));
        assert(m.free(m.position[id][0].x, m.position[id][0].y));
        assert(m.free(start.x, start.y));
        let missile = missile_row(m, start, dir, color);
        let ray = ray_row(m, start, dir, color);
        if missile_fits(m, start, dir) {
            assert forall|k: int| 0 <= k < missile.position.len() implies m.free(
                (#[trigger] missile.position[k]).x,
                missile.position[k].y,
            ) by {}
            lemma_push_contained(m, missile);
            lemma_push_row(m, missile);
            lemma_spent_contained(m.push(missile), id, ENERGY_MISSILE);
        } else {
            lemma_spent_contained(m, id, ENERGY_MISSILE);
        }
        assert forall|k: int| 0 <= k < ray.position.len() implies m.free(
            (#[trigger] ray.position[k]).x,
            ray.position[k].y,
        ) by {
            lemma_ray_on_board(m, start, dir, dist_to_edge(m, start, dir));
        }
        lemma_push_contained(m, ray);
        lemma_push_row(m, ray);
        lemma_spent_contained(m.push(ray), id, ENERGY_RAY);
    }
}

/// Board containment at the start of a round: on a board of at least eight
/// columns and five rows both players start on free cells, so that every
/// living entity that is neither exploding nor an obstacle is on the board
/// when the first tick begins.
pub proof fn lemma_round_start_contained(m: WorldModel)
    requires
        m.width >= 8,
        m.height >= 5,
    ensures
        m.restarted().revived().at_start().wf(),
        m.restarted().revived().at_start().contained(),
{
    let r = m.restarted();
    lemma_restarted(m);
    let two = m.cleared().with_players();
    let x = two.width / 2;
    let from = two.height / 3;
    let to = ((two.height / 3) * 2) as u32;
    assert(r == two.with_bars(x, from, to));
    assert(two.len() == 2);
    assert(two.aligned());
    let v = r.revived();
    let s = v.at_start();
    let one = v.put(v.player1 as int, v.start_1());
    assert(s == one.put(one.player2 as int, one.start_2()));
    assert(s.len() == r.len());
    lemma_rows_kept(r, s);
    assert forall|i: int| 0 <= i < s.len() && #[trigger] s.must_be_contained(i) implies s.contained_at(i) by {
        lemma_bars_rows(two, x, from, to, i);
        assert(s.lifetime[i] == r.lifetime[i]);
        assert(i < 2);
        assert(r.row(i) == two.row(i));
        assert(r.position[i].len() == 1);
        assert forall|k: int| 0 <= k < s.position[i].len() implies s.free(
            (#[trigger] s.position[i][k]).x,
            s.position[i][k].y,
        ) by {
            let c = s.position[i][k];
            assert(k == 0);
            assert(c == s.start_1() || c == s.start_2());
            assert(s.in_interior(c.x, c.y));
            assert(c.x != x);
            if s.blocked(c.x, c.y) {
                let j = choose|j: int| 0 <= j < s.len() && #[trigger] s.blocks(j, c.x, c.y);
                lemma_bars_rows(two, x, from, to, j);
                assert(s.lifetime[j] == r.lifetime[j]);
                if j < 2 {
                    assert(r.row(j) == two.row(j));
                } else {
                    assert(s.position[j] == r.position[j]);
                }
            }
        }
    }
}

impl WorldModel {
    /// Every entity that is yet to explode has its first cell on the
    /// coordinates of a free cell, so that its explosion will not be empty.
    pub open spec fn armed_on_board(self) -> bool {
        forall|i: int|
            0 <= i < self.len() && (#[trigger] self.explode[i]).0 && !self.explode[i].1 ==> self.free(
                self.position[i][0].x,
                self.position[i][0].y,
            )
    }
}

/// An explosion on a free cell covers that cell, and so is not empty.
pub proof fn lemma_blast_covers_centre(m: WorldModel, p: Pos)
    requires
        m.free(p.x, p.y),
    ensures
        m.blast(p).contains(Pos { x: p.x, y: p.y, invalid: false }),
        m.blast(p).len() > 0,
{
    lemma_blast_cells(m, p);
    let c = Pos { x: p.x, y: p.y, invalid: false };
    assert(m.blast(p).contains(c));
    let at = choose|at: int| 0 <= at < m.blast(p).len() && m.blast(p)[at] == c;
}

/// A system leaves no entity without a cell: if every entity has a cell
/// and those that are yet to explode stand on free cells, the same holds
/// after the system has taken its step. A snapshot can then be taken after
/// every tick.
pub proof fn lemma_step_keeps_cells(s: System, m: WorldModel)
    requires
        m.consistent(),
        m.placed(),
        m.armed_on_board(),
    ensures
        s.world_after(m).placed(),
        s.world_after(m).armed_on_board(),
{
    let a = s.world_after(m);
    lemma_step_consistent(s, m);
    assert forall|i: int| 0 <= i < a.position.len() implies (#[trigger] a.position[i]).len() > 0 by {
        lemma_step_keeps_cells_of(s, m, i);
    }
    assert forall|i: int| 0 <= i < a.len() && (#[trigger] a.explode[i]).0 && !a.explode[i].1 implies a.free(
        a.position[i][0].x,
        a.position[i][0].y,
    ) by {
        lemma_step_keeps_cells_of(s, m, i);
    }
}

/// What [`lemma_step_keeps_cells`] says, of a single entity.
proof fn lemma_step_keeps_cells_of(s: System, m: WorldModel, i: int)
    requires
        m.consistent(),
        m.placed(),
        m.armed_on_board(),
        0 <= i < m.len(),
    ensures
        s.world_after(m).position[i].len() > 0,
        s.world_after(m).explode[i].0 && !s.world_after(m).explode[i].1 ==> s.world_after(m).free(
            s.world_after(m).position[i][0].x,
            s.world_after(m).position[i][0].y,
        ),
{
    let a = s.world_after(m);
    lemma_step_consistent(s, m);
    assert(m.position[i].len() > 0);
    assert(m.row_ok(i));
    lemma_stays_alive(s, m, i);
    let c = m.position[i][0];
    let armed = m.explode[i].0 && !m.explode[i].1;
    if armed {
        assert(m.free(c.x, c.y));
    }
    match s {
        System::Move => {
            let d = a.position[i][0];
            assert(a.explode[i] == m.explode[i]);
            assert(a.position[i] == m.move_position(i));
            if m.moves(i) {
                assert(d == m.step_cell(i, c));
                if m.walk_of(i, c).is_some() {
                    lemma_walk_ends_on_board(m, c, m.velocity[i].1, m.velocity[i].0 as nat);
                }
            }
            lemma_same_board(a, m, d.x, d.y);
        },
        System::Explode => {
            assert(a.explode[i] == m.exploded_flags(i));
            assert(a.position[i] == m.exploded_position(i));
            if m.explodes(i) {
                lemma_blast_covers_centre(m, c);
            } else {
                lemma_same_board(a, m, c.x, c.y);
            }
        },
        System::Collision => {
            if exists|x: int, y: int| m.is_first_hit(x, y) {
                let (x, y) = choose|x: int, y: int| m.is_first_hit(x, y);
                lemma_first_hit_unique(m, x, y);
            }
            assert(a.position == m.position && a.explode == m.explode);
            lemma_same_board(a, m, c.x, c.y);
        },
        _ => {
            assert(a.position[i] == m.position[i] && a.explode[i] == m.explode[i]);
            lemma_same_board(a, m, c.x, c.y);
        },
    }
}

/// No tick leaves an entity without a cell, under the same conditions.
pub proof fn lemma_tick_keeps_cells(systems: Seq<System>, m: WorldModel)
    requires
        m.consistent(),
        m.placed(),
        m.armed_on_board(),
    ensures
        world_after_all(systems, m).placed(),
        world_after_all(systems, m).armed_on_board(),
    decreases systems.len(),
{
    if systems.len() > 0 {
        lemma_tick_keeps_cells(systems.drop_last(), m);
        lemma_all_consistent(systems.drop_last(), m);
        lemma_step_keeps_cells(systems.last(), world_after_all(systems.drop_last(), m));
    }
}

/// A round begins with a cell for every entity and with nothing that is
/// yet to explode.
pub proof fn lemma_round_start_cells(m: WorldModel)
    ensures
        m.restarted().revived().at_start().placed(),
        m.restarted().revived().at_start().armed_on_board(),
{
    let r = m.restarted();
    lemma_restarted(m);
    let s = r.revived().at_start();
    lemma_rows_kept(r, s);
    let two = m.cleared().with_players();
    let x = two.width / 2;
    let from = two.height / 3;
    let to = ((two.height / 3) * 2) as u32;
    assert forall|i: int| 0 <= i < s.len() && (#[trigger] s.explode[i]).0 && !s.explode[i].1 implies s.free(
        s.position[i][0].x,
        s.position[i][0].y,
    ) by {
        lemma_bars_rows(two, x, from, to, i);
        assert(s.keeps_row(r, i));
        if i < 2 {
            assert(r.row(i) == two.row(i));
        } else {
            lemma_bar_never_explodes(two, x, from, to, i);
        }
    }
}

/// No obstacle of the wall is due to explode.
proof fn lemma_bar_never_explodes(m: WorldModel, x: u32, from: u32, to: u32, i: int)
    requires
        m.aligned(),
        m.len() <= i < m.with_bars(x, from, to).len(),
    ensures
        !m.with_bars(x, from, to).explode[i].0,
    decreases to - from,
{
    if from < to {
        let row = bar_row(m, Pos { x, y: from, invalid: false }, Dir::Up);
        lemma_push_row(m, row);
        if i == m.len() {
            lemma_bars_rows(m.push(row), x, (from + 1) as u32, to, i);
            assert(m.push(row).row(i) == row);
        } else {
            lemma_bar_never_explodes(m.push(row), x, (from + 1) as u32, to, i);
        }
    }
}

/// When a player acts while both players are alive and on the board,
/// every entity that is yet to explode still stands on a free cell: a
/// missile begins on the cell of the player that fires it, or on the free
/// cell ahead.
pub proof fn lemma_event_keeps_armed(m: WorldModel, ev: InputEvent)
    requires
        m.wf(),
        m.contained(),
        m.armed_on_board(),
        m.alive[m.player1 as int],
        m.alive[m.player2 as int],
    ensures
        m.after_event(ev).armed_on_board(),
{
    let a = m.after_event(ev);
    assert forall|i: int| 0 <= i < a.len() && (#[trigger] a.explode[i]).0 && !a.explode[i].1 implies a.free(
        a.position[i][0].x,
        a.position[i][0].y,
    ) by {
        match ev {
            InputEvent::Fire { entity_id, dir } => {
                if let Some(id) = m.player_entity(entity_id) {
                    assert(m.must_be_contained(id));
                    assert(m.free(m.position[id][0].x, m.position[id][0].y));
                    let start = m.muzzle(id, dir);
                    let color = m.sprite[id].color_idx;
                    let missile = missile_row(m, start, dir, color);
                    let ray = ray_row(m, start, dir, color);
                    lemma_push_row(m, missile);
                    lemma_push_row(m, ray);
                    let c = a.position[i][0];
                    if i < m.len() {
                        assert(m.push(missile).row(i) == m.row(i));
                        assert(m.push(ray).row(i) == m.row(i));
                        assert(m.explode[i].0 && !m.explode[i].1);
                        assert(m.free(c.x, c.y));
                    }
                    lemma_push_keeps_board(m, missile, c.x, c.y);
                    lemma_push_keeps_board(m, ray, c.x, c.y);
                    lemma_keeps_board(m, m.spent(id, ENERGY_MISSILE), c.x, c.y);
                    lemma_keeps_board(m, m.spent(id, ENERGY_RAY), c.x, c.y);
                    lemma_keeps_board(m.push(missile), m.push(missile).spent(id, ENERGY_MISSILE), c.x, c.y);
                    lemma_keeps_board(m.push(ray), m.push(ray).spent(id, ENERGY_RAY), c.x, c.y);
                }
            },
            _ => {
                assert(m.explode[i].0 && !m.explode[i].1);
                let c = m.position[i][0];
                assert(m.free(c.x, c.y));
                lemma_keeps_board(m, a, c.x, c.y);
            },
        }
    }
}

} // verus!
