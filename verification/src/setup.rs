//! Setting a round up: a fresh world with its players and obstacles, and
//! the questions a round asks of the world.

use vstd::prelude::*;
use crate::dir::Dir;
use crate::factory::{bar_row, new_bar, new_player, player_row};
use crate::pos::Pos;
use crate::world::{
    lemma_push_row, lemma_rows_kept, Lifetime, World, WorldModel, MISSILE_MIN_RANGE, PLAYER_LIVES,
};

verus! {

impl WorldModel {
    /// The world with no entity in it; its size and the lives of the
    /// players stay.
    pub open spec fn cleared(self) -> WorldModel {
        WorldModel {
            name: Seq::empty(),
            alive: Seq::empty(),
            lifetime: Seq::empty(),
            sprite: Seq::empty(),
            velocity: Seq::empty(),
            position: Seq::empty(),
            energy: Seq::empty(),
            shield: Seq::empty(),
            bounce: Seq::empty(),
            explode: Seq::empty(),
            active_weapon: Seq::empty(),
            ..self
        }
    }

    /// The world with the two players added, the first player first.
    pub open spec fn with_players(self) -> WorldModel {
        let one = WorldModel { player1: self.len() as usize, ..self.push(player_row("Player 1"@, "1"@, 1)) };
        WorldModel { player2: one.len() as usize, ..one.push(player_row("Player 2"@, "2"@, 2)) }
    }

    /// The world with an obstacle added on each cell of column `x` from row
    /// `from` up to, and without, row `to`.
    pub open spec fn with_bars(self, x: u32, from: u32, to: u32) -> WorldModel
        decreases to - from,
    {
        if from >= to {
            self
        } else {
            self.with_bar(Pos { x, y: from, invalid: false }, Dir::Up).with_bars(
                x,
                (from + 1) as u32,
                to,
            )
        }
    }

    /// The world with the wall of a round added: the middle third of the
    /// middle column.
    pub open spec fn with_obstacles(self) -> WorldModel {
        self.with_bars(self.width / 2, self.height / 3, ((self.height / 3) * 2) as u32)
    }

    /// The world at the start of a round: the players, then the wall.
    pub open spec fn restarted(self) -> WorldModel {
        self.cleared().with_players().with_obstacles()
    }

    /// The range of a missile on a board that is `extent` cells wide or
    /// high, of which the missile flies one part in `part`.
    pub open spec fn range_for(extent: u32, part: u32) -> u32 {
        if extent / part > MISSILE_MIN_RANGE {
            extent / part
        } else {
            MISSILE_MIN_RANGE
        }
    }

    /// The world of a board of the given size before any entity is there.
    pub open spec fn blank(width: u32, height: u32) -> WorldModel {
        WorldModel {
            width,
            height,
            player1: 0,
            player2: 0,
            p1_lives: PLAYER_LIVES,
            p2_lives: PLAYER_LIVES,
            missile_range_horizontal: Self::range_for(width, 6),
            missile_range_vertical: Self::range_for(height, 5),
            name: Seq::empty(),
            alive: Seq::empty(),
            lifetime: Seq::empty(),
            sprite: Seq::empty(),
            velocity: Seq::empty(),
            position: Seq::empty(),
            energy: Seq::empty(),
            shield: Seq::empty(),
            bounce: Seq::empty(),
            explode: Seq::empty(),
            active_weapon: Seq::empty(),
        }
    }

    /// Where the first player starts a round.
    pub open spec fn start_1(self) -> Pos {
        Pos { x: self.width / 4, y: self.height / 2, invalid: false }
    }

    /// Where the second player starts a round.
    pub open spec fn start_2(self) -> Pos {
        Pos { x: ((self.width / 4) * 3) as u32, y: self.height / 2, invalid: false }
    }

    /// The world with entity `id` standing still, its first cell on `p`.
    pub open spec fn put(self, id: int, p: Pos) -> WorldModel {
        WorldModel {
            position: self.position.update(id, self.position[id].update(0, p)),
            velocity: self.velocity.update(id, (self.velocity[id].0, Dir::Still)),
            ..self
        }
    }

    /// The world with both players standing still on their starting cells.
    pub open spec fn at_start(self) -> WorldModel {
        self.put(self.player1 as int, self.start_1()).put(self.player2 as int, self.start_2())
    }
}

/// Adding the wall keeps a world consistent and keeps its players.
pub proof fn lemma_with_bars(m: WorldModel, x: u32, from: u32, to: u32)
    requires
        m.consistent(),
    ensures
        m.with_bars(x, from, to).consistent(),
        m.wf() ==> m.with_bars(x, from, to).wf(),
        m.with_bars(x, from, to).len() == m.len() + (if to > from {
            to - from
        } else {
            0
        }),
    decreases to - from,
{
    if from < to {
        let row = bar_row(m, Pos { x, y: from, invalid: false }, Dir::Up);
        lemma_push_row(m, row);
        lemma_with_bars(m.push(row), x, (from + 1) as u32, to);
    }
}

/// What the wall adds: every earlier row stays as it was, and every new row
/// is an obstacle on one cell of column `x`, row after row from `from` on.
pub proof fn lemma_bars_rows(m: WorldModel, x: u32, from: u32, to: u32, i: int)
    requires
        m.aligned(),
        0 <= i < m.with_bars(x, from, to).len(),
    ensures
        m.with_bars(x, from, to).aligned(),
        i < m.len() ==> m.with_bars(x, from, to).row(i) == m.row(i),
        i >= m.len() ==> m.with_bars(x, from, to).lifetime[i] == Lifetime::Solid && m.with_bars(
            x,
            from,
            to,
        ).position[i] == seq![Pos { x, y: (from + (i - m.len())) as u32, invalid: false }],
    decreases to - from,
{
    if from < to {
        let row = bar_row(m, Pos { x, y: from, invalid: false }, Dir::Up);
        lemma_push_row(m, row);
        lemma_bars_rows(m.push(row), x, (from + 1) as u32, to, i);
        if i < m.len() {
            assert(m.push(row).row(i) == m.row(i));
        } else if i == m.len() {
            assert(m.push(row).row(i) == row);
        }
    }
}

/// A world at the start of a round is well formed, and its players are the
/// first two entities.
pub proof fn lemma_restarted(m: WorldModel)
    ensures
        m.restarted().wf(),
        m.restarted().placed(),
        m.restarted().len() >= 2,
        m.restarted().player1 == 0,
        m.restarted().player2 == 1,
        m.restarted().row(0) == player_row("Player 1"@, "1"@, 1),
        m.restarted().row(1) == player_row("Player 2"@, "2"@, 2),
        m.restarted().p1_lives == m.p1_lives,
        m.restarted().p2_lives == m.p2_lives,
        m.restarted().width == m.width,
        m.restarted().height == m.height,
{
    let c = m.cleared();
    let r1 = player_row("Player 1"@, "1"@, 1);
    let r2 = player_row("Player 2"@, "2"@, 2);
    lemma_push_row(c, r1);
    let one = WorldModel { player1: c.len() as usize, ..c.push(r1) };
    lemma_rows_kept(c.push(r1), one);
    lemma_push_row(one, r2);
    let two = WorldModel { player2: one.len() as usize, ..one.push(r2) };
    assert(two == c.with_players());
    lemma_rows_kept(one.push(r2), two);
    assert(two.row(0) == r1);
    assert(two.row(1) == r2);
    assert(two.wf());
    let x = two.width / 2;
    let from = two.height / 3;
    let to = ((two.height / 3) * 2) as u32;
    lemma_with_bars(two, x, from, to);
    lemma_bars_keep_scalars(two, x, from, to);
    let r = two.with_bars(x, from, to);
    lemma_bars_rows(two, x, from, to, 0);
    lemma_bars_rows(two, x, from, to, 1);
    assert forall|i: int| 0 <= i < r.position.len() implies (#[trigger] r.position[i]).len() > 0 by {
        lemma_bars_rows(two, x, from, to, i);
        if i < 2 {
            assert(r.row(i) == two.row(i));
        }
    }
}

/// Adding the wall changes neither the size of the board nor who the
/// players are nor their lives.
pub proof fn lemma_bars_keep_scalars(m: WorldModel, x: u32, from: u32, to: u32)
    ensures
        m.with_bars(x, from, to).width == m.width,
        m.with_bars(x, from, to).height == m.height,
        m.with_bars(x, from, to).player1 == m.player1,
        m.with_bars(x, from, to).player2 == m.player2,
        m.with_bars(x, from, to).p1_lives == m.p1_lives,
        m.with_bars(x, from, to).p2_lives == m.p2_lives,
        m.with_bars(x, from, to).missile_range_horizontal == m.missile_range_horizontal,
        m.with_bars(x, from, to).missile_range_vertical == m.missile_range_vertical,
    decreases to - from,
{
    if from < to {
        let row = bar_row(m, Pos { x, y: from, invalid: false }, Dir::Up);
        lemma_bars_keep_scalars(m.push(row), x, (from + 1) as u32, to);
    }
}

impl World {
    /// A world for a board of the given size, ready for its first round:
    /// both players with all their lives, and the wall.
    pub fn new(width: u32, height: u32) -> (w: World)
        ensures
            w@ == WorldModel::blank(width, height).restarted(),
            w@.wf(),
            w@.placed(),
            w@.player1 == 0,
            w@.player2 == 1,
    {
        let across = width / 6;
        let down = height / 5;
        let mut w = World {
            width,
            height,
            player1: 0,
            player2: 0,
            p1_lives: PLAYER_LIVES,
            p2_lives: PLAYER_LIVES,
            missile_range_horizontal: if across > MISSILE_MIN_RANGE {
                across
            } else {
                MISSILE_MIN_RANGE
            },
            missile_range_vertical: if down > MISSILE_MIN_RANGE {
                down
            } else {
                MISSILE_MIN_RANGE
            },
            name: Vec::new(),
            alive: Vec::new(),
            lifetime: Vec::new(),
            sprite: Vec::new(),
            velocity: Vec::new(),
            position: Vec::new(),
            energy: Vec::new(),
            shield: Vec::new(),
            bounce: Vec::new(),
            explode: Vec::new(),
            active_weapon: Vec::new(),
        };
        assert(w@ =~~= WorldModel::blank(width, height));
        assert(w@ =~~= WorldModel::blank(width, height).cleared());
        w.add_players();
        w.add_obstacles();
        proof {
            lemma_restarted(WorldModel::blank(width, height));
        }
        w
    }

    /// Starts the next round: every entity goes, the players and the wall
    /// come anew. The size of the board and the lives of the players stay.
    pub fn reset(&mut self)
        ensures
            final(self)@ == old(self)@.restarted(),
            final(self)@.wf(),
            final(self)@.placed(),
            final(self)@.player1 == 0,
            final(self)@.player2 == 1,
            final(self)@.p1_lives == old(self)@.p1_lives,
            final(self)@.p2_lives == old(self)@.p2_lives,
            final(self)@.width == old(self)@.width,
            final(self)@.height == old(self)@.height,
    {
        self.name = Vec::new();
        self.alive = Vec::new();
        self.lifetime = Vec::new();
        self.sprite = Vec::new();
        self.velocity = Vec::new();
        self.position = Vec::new();
        self.energy = Vec::new();
        self.shield = Vec::new();
        self.bounce = Vec::new();
        self.explode = Vec::new();
        self.active_weapon = Vec::new();
        assert(self@ =~~= old(self)@.cleared());
        self.add_players();
        self.add_obstacles();
        proof {
            lemma_restarted(old(self)@);
        }
    }

    /// Adds the two players.
    pub fn add_players(&mut self)
        requires
            old(self)@.consistent(),
        ensures
            final(self)@ == old(self)@.with_players(),
            final(self)@.wf(),
    {
        let ghost before = self@;
        let id1 = new_player(self, "Player 1".to_string(), "1".to_string(), 1);
        self.player1 = id1;
        let ghost one = self@;
        assert(one == (WorldModel {
            player1: before.len() as usize,
            ..before.push(player_row("Player 1"@, "1"@, 1))
        }));
        proof {
            lemma_push_row(before, player_row("Player 1"@, "1"@, 1));
            lemma_rows_kept(before.push(player_row("Player 1"@, "1"@, 1)), one);
        }
        let id2 = new_player(self, "Player 2".to_string(), "2".to_string(), 2);
        self.player2 = id2;
        proof {
            let r2 = player_row("Player 2"@, "2"@, 2);
            lemma_push_row(one, r2);
            let two = self@;
            assert(two == (WorldModel { player2: one.len() as usize, ..one.push(r2) }));
            lemma_rows_kept(one.push(r2), two);
            assert(two.row(id1 as int) == one.row(id1 as int));
            assert(two.row(id2 as int) == r2);
        }
    }

    /// Adds the wall: an obstacle on each cell of the middle third of the
    /// middle column.
    pub fn add_obstacles(&mut self)
        requires
            old(self)@.consistent(),
        ensures
            final(self)@ == old(self)@.with_obstacles(),
            final(self)@.consistent(),
            old(self)@.wf() ==> final(self)@.wf(),
    {
        let ghost before = self@;
        let x = self.width / 2;
        let third = self.height / 3;
        let to = third * 2;
        let mut y = third;
        while y < to
            invariant
                self@.consistent(),
                before.wf() ==> self@.wf(),
                third <= y <= to || to <= third == y,
                x == before.width / 2,
                self@.with_bars(x, y, to) == before.with_bars(x, third, to),
            decreases to - y,
        {
            new_bar(self, Pos { x, y, invalid: false }, Dir::Up);
            y = y + 1;
        }
    }
}

/// Whether both players have lives left.
pub fn both_players_alive(w: &World) -> (r: bool)
    ensures
        r == (w@.p1_lives > 0 && w@.p2_lives > 0),
{
    w.p1_lives > 0 && w.p2_lives > 0
}

/// Whether both players are alive in this round.
pub fn both_players_standing(w: &World) -> (r: bool)
    requires
        w@.wf(),
    ensures
        r == (w@.alive[w@.player1 as int] && w@.alive[w@.player2 as int]),
{
    w.alive[w.player1] && w.alive[w.player2]
}

/// The ids of the living entities, in ascending order.
pub fn alive_entities(w: &World) -> (ids: Vec<usize>)
    ensures
        forall|k: int| 0 <= k < ids@.len() ==> (#[trigger] ids@[k]) < w@.len() && w@.alive[ids@[k] as int],
        forall|a: int, b: int| 0 <= a < b < ids@.len() ==> ids@[a] < ids@[b],
        forall|i: int| 0 <= i < w@.len() && w@.alive[i] ==> ids@.contains(i as usize),
{
    let mut ids: Vec<usize> = Vec::new();
    let n = w.alive.len();
    let mut i: usize = 0;
    while i < n
        invariant
            n == w@.len(),
            0 <= i <= n,
            forall|k: int| 0 <= k < ids@.len() ==> (#[trigger] ids@[k]) < i && w@.alive[ids@[k] as int],
            forall|a: int, b: int| 0 <= a < b < ids@.len() ==> ids@[a] < ids@[b],
            forall|j: int| 0 <= j < i && w@.alive[j] ==> ids@.contains(j as usize),
        decreases n - i,
    {
        if w.alive[i] {
            let ghost old_ids = ids@;
            ids.push(i);
            assert forall|j: int| 0 <= j <= i && w@.alive[j] implies ids@.contains(j as usize) by {
                if j < i {
                    let at = choose|at: int| 0 <= at < old_ids.len() && old_ids[at] == j as usize;
                    assert(ids@[at] == j as usize);
                } else {
                    assert(ids@[ids@.len() - 1] == i);
                }
            }
        }
        i += 1;
    }
    ids
}

/// Puts both players on their starting cells, standing still.
pub fn to_start_positions(w: &mut World)
    requires
        old(w)@.wf(),
    ensures
        final(w)@ == old(w)@.at_start(),
        final(w)@.wf(),
        old(w)@.placed() ==> final(w)@.placed(),
{
    let quarter: u32 = w.width / 4;
    let first = w.player1;
    let second = w.player2;
    put(w, first, Pos { x: quarter, y: w.height / 2, invalid: false });
    put(w, second, Pos { x: quarter * 3, y: w.height / 2, invalid: false });
}

/// Puts the first cell of entity `id` on `p` and lets the entity stand
/// still.
fn put(w: &mut World, id: usize, p: Pos)
    requires
        old(w)@.wf(),
        old(w)@.is_player(id as int),
    ensures
        final(w)@ == old(w)@.put(id as int, p),
        final(w)@.wf(),
        old(w)@.placed() ==> final(w)@.placed(),
{
    let ghost before = w@;
    w.position[id][0] = p;
    let speed = w.velocity[id].0;
    w.velocity.set(id, (speed, Dir::Still));
    proof {
        assert(w@ =~~= before.put(id as int, p));
        lemma_rows_kept(before, w@);
    }
}

} // verus!
