//! The five systems that advance the world by one tick, in the order in
//! which they run: move, lifetime, collision, energy reload, explode.

use vstd::prelude::*;
use crate::dir::Dir;
use crate::laws::lemma_tick_keeps_cells;
use crate::pos::Pos;
use crate::world::{Lifetime, World, WorldModel, ENERGY_EVERY, ENERGY_SHIELD, EXPLODE_DURATION, MAX_ENERGY};

verus! {

impl WorldModel {
    /// Entity `i` is an obstacle in both worlds or in neither, and an
    /// obstacle has the same cells in both.
    pub open spec fn same_obstacle(self, other: WorldModel, i: int) -> bool {
        &&& self.lifetime[i] == Lifetime::Solid <==> other.lifetime[i] == Lifetime::Solid
        &&& self.lifetime[i] == Lifetime::Solid ==> self.position[i] == other.position[i]
    }

    /// Two worlds with the same borders and the same obstacles on the same
    /// cells.
    pub open spec fn same_obstacles(self, other: WorldModel) -> bool {
        &&& self.width == other.width
        &&& self.height == other.height
        &&& self.len() == other.len()
        &&& forall|i: int| 0 <= i < self.len() ==> #[trigger] self.same_obstacle(other, i)
    }

    /// Where a cell gets to in `n` single steps in direction `dir`, each of
    /// which must land on the board; `None` if one of them does not.
    pub open spec fn walk(self, p: Pos, dir: Dir, n: nat) -> Option<Pos>
        decreases n,
    {
        if n == 0 {
            Some(p)
        } else {
            let q = p.spec_moved(1, dir);
            if self.on_board(q) {
                self.walk(q, dir, (n - 1) as nat)
            } else {
                None
            }
        }
    }

    /// Entity `i` is alive and has a speed.
    pub open spec fn moves(self, i: int) -> bool {
        self.alive[i] && self.velocity[i].0 > 0
    }

    /// Where the walk of entity `i` takes the cell `c`.
    pub open spec fn walk_of(self, i: int, c: Pos) -> Option<Pos> {
        self.walk(c, self.velocity[i].1, self.velocity[i].0 as nat)
    }

    /// The cell `c` of entity `i` after the move: where its walk ends, or
    /// the same coordinates flagged invalid if the walk leaves the board.
    pub open spec fn step_cell(self, i: int, c: Pos) -> Pos {
        match self.walk_of(i, c) {
            Some(q) => q,
            None => Pos { x: c.x, y: c.y, invalid: true },
        }
    }

    /// The cells of entity `i` after each has been moved on its own.
    pub open spec fn moved_cells(self, i: int) -> Seq<Pos> {
        Seq::new(self.position[i].len(), |k: int| self.step_cell(i, self.position[i][k]))
    }

    /// None of the cells of entity `i` can make its walk.
    pub open spec fn stuck(self, i: int) -> bool {
        forall|k: int|
            0 <= k < self.position[i].len() ==> (#[trigger] self.walk_of(i, self.position[i][k])).is_none()
    }

    /// Whether entity `i` is alive after the move: it dies if it is stuck and
    /// does not bounce.
    pub open spec fn move_alive(self, i: int) -> bool {
        if self.moves(i) && self.stuck(i) && !self.bounce[i] {
            false
        } else {
            self.alive[i]
        }
    }

    /// The velocity of entity `i` after the move: turned round if the entity
    /// is stuck and bounces.
    pub open spec fn move_velocity(self, i: int) -> (u8, Dir) {
        if self.moves(i) && self.stuck(i) && self.bounce[i] {
            (self.velocity[i].0, self.velocity[i].1.spec_opposite())
        } else {
            self.velocity[i]
        }
    }

    /// The cells of entity `i` after the move.
    pub open spec fn move_position(self, i: int) -> Seq<Pos> {
        if self.moves(i) {
            self.moved_cells(i)
        } else {
            self.position[i]
        }
    }

    /// The world after the move system.
    ///
    /// Every living entity with a speed walks each of its cells forward. A
    /// cell whose walk leaves the board stays where it is and is flagged
    /// invalid. An entity none of whose cells could walk turns round if it
    /// bounces, and dies if it does not.
    pub open spec fn after_move(self) -> WorldModel {
        WorldModel {
            alive: Seq::new(self.len(), |i: int| self.move_alive(i)),
            velocity: Seq::new(self.len(), |i: int| self.move_velocity(i)),
            position: Seq::new(self.len(), |i: int| self.move_position(i)),
            ..self
        }
    }
}

/// Worlds with the same obstacles agree on which cells are free.
pub proof fn lemma_same_board(a: WorldModel, b: WorldModel, x: u32, y: u32)
    requires
        a.aligned(),
        b.aligned(),
        a.same_obstacles(b),
    ensures
        a.free(x, y) == b.free(x, y),
{
    if a.blocked(x, y) {
        let i = choose|i: int| 0 <= i < a.len() && #[trigger] a.blocks(i, x, y);
        assert(a.same_obstacle(b, i));
        assert(b.blocks(i, x, y));
    }
    if b.blocked(x, y) {
        let i = choose|i: int| 0 <= i < b.len() && #[trigger] b.blocks(i, x, y);
        assert(a.same_obstacle(b, i));
        assert(a.blocks(i, x, y));
    }
}

/// Worlds with the same obstacles agree on every walk.
pub proof fn lemma_same_walk(a: WorldModel, b: WorldModel, p: Pos, dir: Dir, n: nat)
    requires
        a.aligned(),
        b.aligned(),
        a.same_obstacles(b),
    ensures
        a.walk(p, dir, n) == b.walk(p, dir, n),
    decreases n,
{
    if n > 0 {
        let q = p.spec_moved(1, dir);
        lemma_same_board(a, b, q.x, q.y);
        lemma_same_walk(a, b, q, dir, (n - 1) as nat);
    }
}

/// Walks one cell forward, a step at a time, and stops at the first step
/// that would leave the board.
fn walk_cell(w: &World, start: Pos, direction: Dir, quantity: u8) -> (r: Option<Pos>)
    requires
        w@.consistent(),
    ensures
        r == w@.walk(start, direction, quantity as nat),
{
    let mut p = start;
    let mut done: u8 = 0;
    while done < quantity
        invariant
            w@.consistent(),
            done <= quantity,
            w@.walk(p, direction, (quantity - done) as nat) == w@.walk(start, direction, quantity as nat),
        decreases quantity - done,
    {
        let q = p.moved(1, direction);
        if !w.is_on_board(q) {
            return None;
        }
        p = q;
        done = done + 1;
    }
    Some(p)
}

/// Moves every cell of entity `i` on its own and tells whether any of them
/// could move.
fn advance(w: &World, i: usize) -> (r: (Vec<Pos>, bool))
    requires
        w@.consistent(),
        i < w@.len(),
    ensures
        r.0@ == w@.moved_cells(i as int),
        r.1 == !w@.stuck(i as int),
{
    let quantity = w.velocity[i].0;
    let direction = w.velocity[i].1;
    let n = w.position[i].len();
    let mut cells: Vec<Pos> = Vec::new();
    let mut any = false;
    let mut k: usize = 0;
    while k < n
        invariant
            w@.consistent(),
            i < w@.len(),
            n == w@.position[i as int].len(),
            quantity == w@.velocity[i as int].0,
            direction == w@.velocity[i as int].1,
            0 <= k <= n,
            cells@.len() == k,
            forall|j: int| 0 <= j < k ==> cells@[j] == w@.step_cell(i as int, w@.position[i as int][j]),
            any <==> exists|j: int|
                0 <= j < k && (#[trigger] w@.walk_of(i as int, w@.position[i as int][j])).is_some(),
        decreases n - k,
    {
        let c = w.position[i][k];
        let walked = walk_cell(w, c, direction, quantity);
        assert(walked == w@.walk_of(i as int, w@.position[i as int][k as int]));
        match walked {
            Some(q) => {
                cells.push(q);
                any = true;
            },
            None => {
                cells.push(Pos { x: c.x, y: c.y, invalid: true });
            },
        }
        k += 1;
    }
    assert(cells@ =~= w@.moved_cells(i as int));
    (cells, any)
}

/// Uses the velocity of every living entity to update its position.
pub fn move_system(w: &mut World)
    requires
        old(w)@.consistent(),
    ensures
        final(w)@ == old(w)@.after_move(),
        final(w)@.consistent(),
        old(w)@.wf() ==> final(w)@.wf(),
{
    let ghost before = w@;
    let n = w.alive.len();
    let mut i: usize = 0;
    while i < n
        invariant
            before.consistent(),
            w@.aligned(),
            n == before.len(),
            0 <= i <= n,
            w@ == (WorldModel {
                alive: w@.alive,
                velocity: w@.velocity,
                position: w@.position,
                ..before
            }),
            w@.alive.len() == n,
            forall|j: int| 0 <= j < i ==> w@.alive[j] == before.move_alive(j),
            forall|j: int| 0 <= j < i ==> w@.velocity[j] == before.move_velocity(j),
            forall|j: int| 0 <= j < i ==> w@.position[j] == before.move_position(j),
            forall|j: int| i <= j < n ==> w@.alive[j] == before.alive[j],
            forall|j: int| i <= j < n ==> w@.velocity[j] == before.velocity[j],
            forall|j: int| i <= j < n ==> w@.position[j] == before.position[j],
        decreases n - i,
    {
        proof {
            lemma_move_keeps_rows(before, w@, i as int);
        }
        if w.alive[i] && w.velocity[i].0 != 0 {
            let quantity = w.velocity[i].0;
            let direction = w.velocity[i].1;
            let (cells, any) = advance(w, i);
            proof {
                assert forall|k: int| 0 <= k < before.position[i as int].len() implies w@.walk_of(
                    i as int,
                    before.position[i as int][k],
                ) == before.walk_of(i as int, before.position[i as int][k]) by {
                    lemma_same_walk(
                        w@,
                        before,
                        before.position[i as int][k],
                        direction,
                        quantity as nat,
                    );
                }
                assert(cells@ =~= before.moved_cells(i as int));
                assert(w@.stuck(i as int) == before.stuck(i as int));
            }
            w.position.set(i, cells);
            if !any {
                if w.bounce[i] {
                    w.velocity.set(i, (quantity, direction.opposite()));
                } else {
                    w.alive.set(i, false);
                }
            }
        }
        i += 1;
    }
    proof {
        assert(w@ =~~= before.after_move());
        lemma_move_consistent(before);
    }
}

/// While the move system is at work the obstacles are where they were.
proof fn lemma_move_keeps_rows(before: WorldModel, now: WorldModel, i: int)
    requires
        before.consistent(),
        now.aligned(),
        0 <= i <= before.len(),
        now == (WorldModel { alive: now.alive, velocity: now.velocity, position: now.position, ..before }),
        now.alive.len() == before.len(),
        forall|j: int| 0 <= j < i ==> now.velocity[j] == before.move_velocity(j),
        forall|j: int| 0 <= j < i ==> now.position[j] == before.move_position(j),
        forall|j: int| i <= j < before.len() ==> now.velocity[j] == before.velocity[j],
        forall|j: int| i <= j < before.len() ==> now.position[j] == before.position[j],
    ensures
        now.same_obstacles(before),
        now.consistent(),
{
    assert forall|j: int| 0 <= j < now.len() implies #[trigger] now.row_ok(j) by {
        assert(before.row_ok(j));
        if j < i {
            assert(now.position[j] == before.move_position(j));
            assert(now.velocity[j] == before.move_velocity(j));
            assert(now.position[j].len() == before.position[j].len());
        } else {
            assert(now.position[j] == before.position[j]);
            assert(now.velocity[j] == before.velocity[j]);
        }
    }
    assert forall|j: int| 0 <= j < now.len() implies #[trigger] now.same_obstacle(before, j) by {
        assert(before.row_ok(j));
        if j < i {
            assert(now.position[j] == before.move_position(j));
        } else {
            assert(now.position[j] == before.position[j]);
        }
    }
}

/// The move system keeps a consistent world consistent, and keeps the
/// players.
pub proof fn lemma_move_consistent(m: WorldModel)
    requires
        m.consistent(),
    ensures
        m.after_move().consistent(),
        m.after_move().same_obstacles(m),
        m.wf() ==> m.after_move().wf(),
{
    let a = m.after_move();
    assert forall|j: int| 0 <= j < a.len() implies #[trigger] a.row_ok(j) by {
        assert(m.row_ok(j));
        assert(a.position[j].len() == m.position[j].len());
    }
    assert forall|j: int| 0 <= j < a.len() implies #[trigger] a.same_obstacle(m, j) by {
        assert(m.row_ok(j));
    }
}

impl WorldModel {
    /// What entity `i` has left after the lifetime system: one tick less if
    /// it is alive and there for a time.
    pub open spec fn aged_lifetime(self, i: int) -> Lifetime {
        match self.lifetime[i] {
            Lifetime::Temporary(n) => if self.alive[i] && n > 0 {
                Lifetime::Temporary((n - 1) as u32)
            } else {
                Lifetime::Temporary(n)
            },
            other => other,
        }
    }

    /// Whether entity `i` is alive after the lifetime system: an entity that
    /// is there for a time needs more than one tick left.
    pub open spec fn aged_alive(self, i: int) -> bool {
        match self.lifetime[i] {
            Lifetime::Temporary(n) => self.alive[i] && n > 1,
            _ => self.alive[i],
        }
    }

    /// The world after the lifetime system.
    ///
    /// Every living entity that is there for a time has one tick less left,
    /// and dies in the tick in which none is left.
    pub open spec fn after_lifetime(self) -> WorldModel {
        WorldModel {
            alive: Seq::new(self.len(), |i: int| self.aged_alive(i)),
            lifetime: Seq::new(self.len(), |i: int| self.aged_lifetime(i)),
            ..self
        }
    }
}

/// The lifetime system keeps a consistent world consistent, moves nothing
/// and brings nothing back to life.
pub proof fn lemma_lifetime_consistent(m: WorldModel)
    requires
        m.consistent(),
    ensures
        m.after_lifetime().consistent(),
        m.after_lifetime().same_obstacles(m),
        m.wf() ==> m.after_lifetime().wf(),
{
    let a = m.after_lifetime();
    assert forall|j: int| 0 <= j < a.len() implies #[trigger] a.row_ok(j) by {
        assert(m.row_ok(j));
    }
    assert forall|j: int| 0 <= j < a.len() implies #[trigger] a.same_obstacle(m, j) by {
        assert(a.lifetime[j] == m.aged_lifetime(j));
    }
}

/// Takes a tick off the life of every living projectile and marks those
/// that have none left as not alive.
pub fn lifetime_system(w: &mut World)
    requires
        old(w)@.consistent(),
    ensures
        final(w)@ == old(w)@.after_lifetime(),
        final(w)@.consistent(),
        old(w)@.wf() ==> final(w)@.wf(),
{
    let ghost before = w@;
    let n = w.alive.len();
    let mut i: usize = 0;
    while i < n
        invariant
            before.aligned(),
            n == before.len(),
            0 <= i <= n,
            w@ == (WorldModel { alive: w@.alive, lifetime: w@.lifetime, ..before }),
            w@.alive.len() == n,
            w@.lifetime.len() == n,
            forall|j: int| 0 <= j < i ==> w@.alive[j] == before.aged_alive(j),
            forall|j: int| 0 <= j < i ==> w@.lifetime[j] == before.aged_lifetime(j),
            forall|j: int| i <= j < n ==> w@.alive[j] == before.alive[j],
            forall|j: int| i <= j < n ==> w@.lifetime[j] == before.lifetime[j],
        decreases n - i,
    {
        if w.alive[i] {
            match w.lifetime[i] {
                Lifetime::Temporary(left) => {
                    let next: u32 = if left > 0 {
                        left - 1
                    } else {
                        0
                    };
                    w.lifetime.set(i, Lifetime::Temporary(next));
                    if next == 0 {
                        w.alive.set(i, false);
                    }
                },
                _ => {},
            }
        }
        i += 1;
    }
    proof {
        assert(w@ =~~= before.after_lifetime());
        lemma_lifetime_consistent(before);
    }
}

impl WorldModel {
    /// Some cell of entity `i` has the coordinates of some cell of entity
    /// `j`.
    pub open spec fn touch(self, i: int, j: int) -> bool {
        exists|a: int, b: int|
            0 <= a < self.position[i].len() && 0 <= b < self.position[j].len() && (
            #[trigger] self.position[i][a]).spec_does_hit(#[trigger] self.position[j][b])
    }

    /// Entities `i` and `j` are both alive and share a cell.
    pub open spec fn hits(self, i: int, j: int) -> bool {
        self.alive[i] && self.alive[j] && self.touch(i, j)
    }

    /// The pair `(a, b)` comes before the pair `(i, j)` when pairs are gone
    /// through by ascending first id and, for one first id, by ascending
    /// second id.
    pub open spec fn pair_before(a: int, b: int, i: int, j: int) -> bool {
        a < i || (a == i && b < j)
    }

    /// `(i, j)` is the first pair of different living entities that share a
    /// cell.
    pub open spec fn is_first_hit(self, i: int, j: int) -> bool {
        &&& 0 <= i < j < self.len()
        &&& self.hits(i, j)
        &&& forall|a: int, b: int|
            0 <= a < b < self.len() && Self::pair_before(a, b, i, j) ==> !#[trigger] self.hits(a, b)
    }

    /// No two different living entities share a cell.
    pub open spec fn no_hit(self) -> bool {
        forall|a: int, b: int| 0 <= a < b < self.len() ==> !#[trigger] self.hits(a, b)
    }

    /// The world after the pair `(i, j)` has collided: each of the two dies
    /// unless its shield is up.
    pub open spec fn collided(self, i: int, j: int) -> WorldModel {
        WorldModel {
            alive: self.alive.update(i, self.alive[i] && self.shield[i]).update(
                j,
                self.alive[j] && self.shield[j],
            ),
            ..self
        }
    }

    /// The world after the collision system.
    ///
    /// Only the first pair of living entities that share a cell collides;
    /// later pairs are left for a later tick.
    pub open spec fn after_collision(self) -> WorldModel {
        if exists|i: int, j: int| self.is_first_hit(i, j) {
            let (i, j) = choose|i: int, j: int| self.is_first_hit(i, j);
            self.collided(i, j)
        } else {
            self
        }
    }
}

/// The first colliding pair is the only one there is.
pub proof fn lemma_first_hit_unique(m: WorldModel, i: int, j: int)
    requires
        m.is_first_hit(i, j),
    ensures
        forall|a: int, b: int| m.is_first_hit(a, b) ==> a == i && b == j,
        m.after_collision() == m.collided(i, j),
{
    assert forall|a: int, b: int| m.is_first_hit(a, b) implies a == i && b == j by {
        if WorldModel::pair_before(a, b, i, j) {
            assert(!m.hits(a, b));
        } else if WorldModel::pair_before(i, j, a, b) {
            assert(!m.hits(i, j));
        }
    }
}

/// Where nothing collides the collision system changes nothing.
pub proof fn lemma_no_hit(m: WorldModel)
    requires
        m.no_hit(),
    ensures
        m.after_collision() == m,
{
    assert forall|i: int, j: int| !m.is_first_hit(i, j) by {
        if 0 <= i < j < m.len() {
            assert(!m.hits(i, j));
        }
    }
}

/// The collision system keeps a consistent world consistent and moves
/// nothing.
pub proof fn lemma_collision_consistent(m: WorldModel)
    requires
        m.consistent(),
    ensures
        m.after_collision().consistent(),
        m.after_collision().same_obstacles(m),
        m.wf() ==> m.after_collision().wf(),
{
    let a = m.after_collision();
    assert forall|k: int| 0 <= k < a.len() implies #[trigger] a.row_ok(k) by {
        assert(m.row_ok(k));
    }
    assert forall|k: int| 0 <= k < a.len() implies #[trigger] a.same_obstacle(m, k) by {}
}

/// Whether some cell of entity `i` has the coordinates of some cell of
/// entity `j`.
fn touches(w: &World, i: usize, j: usize) -> (r: bool)
    requires
        w@.aligned(),
        i < w@.len(),
        j < w@.len(),
    ensures
        r == w@.touch(i as int, j as int),
{
    let ni = w.position[i].len();
    let nj = w.position[j].len();
    let mut a: usize = 0;
    while a < ni
        invariant
            w@.aligned(),
            i < w@.len(),
            j < w@.len(),
            ni == w@.position[i as int].len(),
            nj == w@.position[j as int].len(),
            0 <= a <= ni,
            forall|x: int, y: int|
                0 <= x < a && 0 <= y < nj ==> !(#[trigger] w@.position[i as int][x]).spec_does_hit(
                    #[trigger] w@.position[j as int][y],
                ),
        decreases ni - a,
    {
        let mut b: usize = 0;
        while b < nj
            invariant
                w@.aligned(),
                i < w@.len(),
                j < w@.len(),
                ni == w@.position[i as int].len(),
                nj == w@.position[j as int].len(),
                0 <= a < ni,
                0 <= b <= nj,
                forall|x: int, y: int|
                    0 <= x < a && 0 <= y < nj ==> !(#[trigger] w@.position[i as int][x]).spec_does_hit(
                        #[trigger] w@.position[j as int][y],
                    ),
                forall|y: int|
                    0 <= y < b ==> !w@.position[i as int][a as int].spec_does_hit(
                        #[trigger] w@.position[j as int][y],
                    ),
            decreases nj - b,
        {
            if w.position[i][a].does_hit(w.position[j][b]) {
                assert(w@.position[i as int][a as int].spec_does_hit(w@.position[j as int][b as int]));
                return true;
            }
            b += 1;
        }
        a += 1;
    }
    false
}

/// Looks for the first pair of living entities that share a cell, and lets
/// the unshielded of the two die.
pub fn collision_system(w: &mut World)
    requires
        old(w)@.consistent(),
    ensures
        final(w)@ == old(w)@.after_collision(),
        final(w)@.consistent(),
        old(w)@.wf() ==> final(w)@.wf(),
{
    let ghost before = w@;
    let n = w.alive.len();
    let mut i: usize = 0;
    while i < n
        invariant
            w@ == before,
            before == old(w)@,
            before.consistent(),
            n == before.len(),
            0 <= i <= n,
            forall|a: int, b: int| 0 <= a < b < n && a < i ==> !#[trigger] before.hits(a, b),
        decreases n - i,
    {
        if w.alive[i] {
            let mut j: usize = i + 1;
            while j < n
                invariant
                    w@ == before,
                    before == old(w)@,
                    before.consistent(),
                    n == before.len(),
                    0 <= i < n,
                    i < j <= n,
                    before.alive[i as int],
                    forall|a: int, b: int| 0 <= a < b < n && a < i ==> !#[trigger] before.hits(a, b),
                    forall|b: int| i < b < j ==> !#[trigger] before.hits(i as int, b),
                decreases n - j,
            {
                if w.alive[j] && touches(w, i, j) {
                    proof {
                        assert(before.is_first_hit(i as int, j as int));
                        lemma_first_hit_unique(before, i as int, j as int);
                        lemma_collision_consistent(before);
                    }
                    if !w.shield[i] {
                        w.alive.set(i, false);
                    }
                    if !w.shield[j] {
                        w.alive.set(j, false);
                    }
                    assert(w@ =~~= before.collided(i as int, j as int));
                    return ;
                }
                j += 1;
            }
        }
        i += 1;
    }
    proof {
        lemma_no_hit(before);
        lemma_collision_consistent(before);
    }
}

impl WorldModel {
    /// The energy `e` after a reload: one more, up to the cap.
    pub open spec fn reloaded(e: u32) -> u32 {
        if e < MAX_ENERGY {
            (e + 1) as u32
        } else {
            e
        }
    }

    /// Entity `i` has its shield up and, after the reload, more energy than
    /// the shield takes.
    pub open spec fn pays_shield(self, i: int) -> bool {
        self.shield[i] && Self::reloaded(self.energy[i]) > ENERGY_SHIELD
    }

    /// The energy of entity `i` after the reload and the upkeep of its
    /// shield.
    pub open spec fn charged_energy(self, i: int) -> u32 {
        if self.pays_shield(i) {
            (Self::reloaded(self.energy[i]) - ENERGY_SHIELD) as u32
        } else {
            Self::reloaded(self.energy[i])
        }
    }

    /// The world after the energy system.
    ///
    /// Every entity gains one unit of energy, up to the cap. Then every
    /// shield takes its upkeep; a shield whose entity has not more energy
    /// than the upkeep comes down, and takes nothing.
    pub open spec fn after_energy(self) -> WorldModel {
        WorldModel {
            energy: Seq::new(self.len(), |i: int| self.charged_energy(i)),
            shield: Seq::new(self.len(), |i: int| self.pays_shield(i)),
            ..self
        }
    }
}

/// The energy system keeps a consistent world consistent and moves nothing.
pub proof fn lemma_energy_consistent(m: WorldModel)
    requires
        m.consistent(),
    ensures
        m.after_energy().consistent(),
        m.after_energy().same_obstacles(m),
        m.wf() ==> m.after_energy().wf(),
{
    let a = m.after_energy();
    assert forall|k: int| 0 <= k < a.len() implies #[trigger] a.row_ok(k) by {
        assert(m.row_ok(k));
        assert(a.energy[k] == m.charged_energy(k));
    }
    assert forall|k: int| 0 <= k < a.len() implies #[trigger] a.same_obstacle(m, k) by {}
}

/// Adds energy to every entity and takes the upkeep of every shield.
pub fn energy_system(w: &mut World)
    requires
        old(w)@.consistent(),
    ensures
        final(w)@ == old(w)@.after_energy(),
        final(w)@.consistent(),
        old(w)@.wf() ==> final(w)@.wf(),
{
    let ghost before = w@;
    let n = w.alive.len();
    let mut i: usize = 0;
    while i < n
        invariant
            before.aligned(),
            n == before.len(),
            0 <= i <= n,
            w@ == (WorldModel { energy: w@.energy, shield: w@.shield, ..before }),
            w@.energy.len() == n,
            w@.shield.len() == n,
            forall|j: int| 0 <= j < i ==> w@.energy[j] == before.charged_energy(j),
            forall|j: int| 0 <= j < i ==> w@.shield[j] == before.pays_shield(j),
            forall|j: int| i <= j < n ==> w@.energy[j] == before.energy[j],
            forall|j: int| i <= j < n ==> w@.shield[j] == before.shield[j],
        decreases n - i,
    {
        let mut e: u32 = w.energy[i];
        if e < MAX_ENERGY {
            e = e + 1;
        }
        if w.shield[i] {
            if e > ENERGY_SHIELD {
                e = e - ENERGY_SHIELD;
            } else {
                w.shield.set(i, false);
            }
        }
        w.energy.set(i, e);
        i += 1;
    }
    proof {
        assert(w@ =~~= before.after_energy());
        lemma_energy_consistent(before);
    }
}

impl WorldModel {
    /// The column of the `k`-th cell of the square of five by five cells
    /// round `p`; the square is gone through column by column, left to
    /// right, and each column from the top down.
    pub open spec fn blast_x(p: Pos, k: int) -> int {
        p.x - 2 + k / 5
    }

    /// The row of the `k`-th cell of the square round `p`.
    pub open spec fn blast_y(p: Pos, k: int) -> int {
        p.y - 2 + k % 5
    }

    /// The `k`-th cell of the square round `p` exists and is free.
    pub open spec fn in_blast(self, p: Pos, k: int) -> bool {
        let x = Self::blast_x(p, k);
        let y = Self::blast_y(p, k);
        &&& 0 <= x <= u32::MAX
        &&& 0 <= y <= u32::MAX
        &&& self.free(x as u32, y as u32)
    }

    /// The `k`-th cell of the square round `p`.
    pub open spec fn blast_cell(p: Pos, k: int) -> Pos {
        Pos { x: Self::blast_x(p, k) as u32, y: Self::blast_y(p, k) as u32, invalid: false }
    }

    /// The free cells among the first `k` of the square round `p`.
    pub open spec fn blast_upto(self, p: Pos, k: nat) -> Seq<Pos>
        decreases k,
    {
        if k == 0 {
            Seq::empty()
        } else {
            let before = self.blast_upto(p, (k - 1) as nat);
            if self.in_blast(p, k - 1) {
                before.push(Self::blast_cell(p, k - 1))
            } else {
                before
            }
        }
    }

    /// The cells that an explosion at `p` covers: those of the square of
    /// five by five cells centred on `p` that are on the board.
    pub open spec fn blast(self, p: Pos) -> Seq<Pos> {
        self.blast_upto(p, 25)
    }

    /// Entity `i` is due to explode, has not begun to, and has few enough
    /// ticks left.
    pub open spec fn explodes(self, i: int) -> bool {
        &&& self.explode[i].0
        &&& !self.explode[i].1
        &&& self.lifetime[i] matches Lifetime::Temporary(n)
        &&& n <= EXPLODE_DURATION
    }

    /// Whether entity `i` will explode and is exploding, after the explode
    /// system.
    pub open spec fn exploded_flags(self, i: int) -> (bool, bool) {
        if self.explodes(i) {
            (self.explode[i].0, true)
        } else {
            self.explode[i]
        }
    }

    /// The cells of entity `i` after the explode system.
    pub open spec fn exploded_position(self, i: int) -> Seq<Pos> {
        if self.explodes(i) {
            self.blast(self.position[i][0])
        } else {
            self.position[i]
        }
    }

    /// The velocity of entity `i` after the explode system.
    pub open spec fn exploded_velocity(self, i: int) -> (u8, Dir) {
        if self.explodes(i) {
            (0, Dir::Still)
        } else {
            self.velocity[i]
        }
    }

    /// The world after the explode system.
    ///
    /// An entity that is due to explode and has few enough ticks left
    /// starts to: the cells of the explosion round its first cell take the
    /// place of its own, and it stands still from then on.
    pub open spec fn after_explode(self) -> WorldModel {
        WorldModel {
            explode: Seq::new(self.len(), |i: int| self.exploded_flags(i)),
            position: Seq::new(self.len(), |i: int| self.exploded_position(i)),
            velocity: Seq::new(self.len(), |i: int| self.exploded_velocity(i)),
            ..self
        }
    }
}

/// Worlds with the same obstacles agree on every explosion.
pub proof fn lemma_same_blast(a: WorldModel, b: WorldModel, p: Pos, k: nat)
    requires
        a.aligned(),
        b.aligned(),
        a.same_obstacles(b),
    ensures
        a.blast_upto(p, k) == b.blast_upto(p, k),
    decreases k,
{
    if k > 0 {
        lemma_same_blast(a, b, p, (k - 1) as nat);
        let x = WorldModel::blast_x(p, k - 1);
        let y = WorldModel::blast_y(p, k - 1);
        if 0 <= x <= u32::MAX && 0 <= y <= u32::MAX {
            lemma_same_board(a, b, x as u32, y as u32);
        }
    }
}

/// What an explosion covers: a cell is among the cells of the explosion at
/// `p` exactly if it is not flagged invalid, lies no more than two columns
/// and two rows away from `p`, and is free. No cell is there twice.
pub proof fn lemma_blast_cells(m: WorldModel, p: Pos)
    ensures
        forall|c: Pos|
            m.blast(p).contains(c) <==> (!c.invalid && p.x - 2 <= c.x <= p.x + 2 && p.y - 2 <= c.y <= p.y + 2
                && m.free(c.x, c.y)),
        m.blast(p).no_duplicates(),
        m.blast(p).len() <= 25,
{
    lemma_blast_upto(m, p, 25);
    assert forall|c: Pos|
        m.blast(p).contains(c) <==> (!c.invalid && p.x - 2 <= c.x <= p.x + 2 && p.y - 2 <= c.y <= p.y + 2
            && m.free(c.x, c.y)) by {
        if m.blast(p).contains(c) {
            let k = choose|k: int| 0 <= k < 25 && m.in_blast(p, k) && c == WorldModel::blast_cell(p, k);
            assert(0 <= k / 5 < 5 && 0 <= k % 5 < 5);
        }
        if !c.invalid && p.x - 2 <= c.x <= p.x + 2 && p.y - 2 <= c.y <= p.y + 2 && m.free(c.x, c.y) {
            let k = (c.x - p.x + 2) * 5 + (c.y - p.y + 2);
            assert(k / 5 == c.x - p.x + 2 && k % 5 == c.y - p.y + 2);
            assert(m.in_blast(p, k) && c == WorldModel::blast_cell(p, k));
        }
    }
}

/// The cells among the first `k` of the square, one by one.
proof fn lemma_blast_upto(m: WorldModel, p: Pos, k: nat)
    requires
        k <= 25,
    ensures
        forall|c: Pos|
            m.blast_upto(p, k).contains(c) <==> exists|j: int|
                0 <= j < k && m.in_blast(p, j) && c == WorldModel::blast_cell(p, j),
        m.blast_upto(p, k).no_duplicates(),
        m.blast_upto(p, k).len() <= k,
    decreases k,
{
    if k > 0 {
        lemma_blast_upto(m, p, (k - 1) as nat);
        let before = m.blast_upto(p, (k - 1) as nat);
        let now = m.blast_upto(p, k);
        let last = WorldModel::blast_cell(p, k - 1);
        assert forall|c: Pos|
            now.contains(c) <==> exists|j: int|
                0 <= j < k && m.in_blast(p, j) && c == WorldModel::blast_cell(p, j) by {
            if now.contains(c) {
                let at = choose|at: int| 0 <= at < now.len() && now[at] == c;
                if at < before.len() {
                    assert(before.contains(c));
                    let j = choose|j: int|
                        0 <= j < k - 1 && m.in_blast(p, j) && c == WorldModel::blast_cell(p, j);
                    assert(0 <= j < k && m.in_blast(p, j) && c == WorldModel::blast_cell(p, j));
                } else {
                    assert(m.in_blast(p, k - 1) && c == WorldModel::blast_cell(p, k - 1));
                }
            }
            if exists|j: int| 0 <= j < k && m.in_blast(p, j) && c == WorldModel::blast_cell(p, j) {
                let j = choose|j: int| 0 <= j < k && m.in_blast(p, j) && c == WorldModel::blast_cell(p, j);
                if j < k - 1 {
                    assert(before.contains(c));
                    let at = choose|at: int| 0 <= at < before.len() && before[at] == c;
                    assert(now[at] == c);
                } else {
                    assert(now[now.len() - 1] == c);
                }
            }
        }
        if m.in_blast(p, k - 1) {
            assert(!before.contains(last)) by {
                if before.contains(last) {
                    let j = choose|j: int|
                        0 <= j < k - 1 && m.in_blast(p, j) && last == WorldModel::blast_cell(p, j);
                    assert(j / 5 == (k - 1) / 5 && j % 5 == (k - 1) % 5);
                }
            }
            assert forall|a: int, b: int| 0 <= a < now.len() && 0 <= b < now.len() && a != b implies now[a]
                != now[b] by {
                if a == now.len() - 1 {
                    assert(before.contains(now[b]));
                } else if b == now.len() - 1 {
                    assert(before.contains(now[a]));
                }
            }
        }
    }
}

/// The cells of an explosion that starts at `p`.
pub fn explosion(w: &World, p: Pos) -> (v: Vec<Pos>)
    requires
        w@.consistent(),
    ensures
        v@ == w@.blast(p),
{
    let mut v: Vec<Pos> = Vec::new();
    let mut a: u8 = 0;
    while a < 5
        invariant
            w@.consistent(),
            0 <= a <= 5,
            v@ == w@.blast_upto(p, (5 * a) as nat),
        decreases 5 - a,
    {
        let mut b: u8 = 0;
        while b < 5
            invariant
                w@.consistent(),
                0 <= a < 5,
                0 <= b <= 5,
                v@ == w@.blast_upto(p, (5 * a + b) as nat),
            decreases 5 - b,
        {
            let ghost k: int = 5 * a + b;
            assert(k / 5 == a && k % 5 == b);
            let x: i64 = p.x as i64 - 2 + a as i64;
            let y: i64 = p.y as i64 - 2 + b as i64;
            if 0 <= x && x <= u32::MAX as i64 && 0 <= y && y <= u32::MAX as i64 {
                let e = Pos { x: x as u32, y: y as u32, invalid: false };
                if w.is_on_board(e) {
                    v.push(e);
                }
            }
            b = b + 1;
        }
        a = a + 1;
    }
    v
}

/// While the explode system is at work the world stays consistent and the
/// obstacles are where they were.
proof fn lemma_explode_keeps_rows(before: WorldModel, now: WorldModel, i: int)
    requires
        before.consistent(),
        now.aligned(),
        0 <= i <= before.len(),
        now == (WorldModel { explode: now.explode, velocity: now.velocity, position: now.position, ..before }),
        forall|j: int| 0 <= j < i ==> now.explode[j] == before.exploded_flags(j),
        forall|j: int| 0 <= j < i ==> now.velocity[j] == before.exploded_velocity(j),
        forall|j: int| 0 <= j < i ==> now.position[j] == before.exploded_position(j),
        forall|j: int| i <= j < before.len() ==> now.explode[j] == before.explode[j],
        forall|j: int| i <= j < before.len() ==> now.velocity[j] == before.velocity[j],
        forall|j: int| i <= j < before.len() ==> now.position[j] == before.position[j],
    ensures
        now.same_obstacles(before),
        now.consistent(),
{
    assert forall|j: int| 0 <= j < now.len() implies #[trigger] now.row_ok(j) by {
        assert(before.row_ok(j));
        if j < i {
            assert(now.explode[j] == before.exploded_flags(j));
            assert(now.velocity[j] == before.exploded_velocity(j));
            assert(now.position[j] == before.exploded_position(j));
        } else {
            assert(now.explode[j] == before.explode[j]);
            assert(now.velocity[j] == before.velocity[j]);
            assert(now.position[j] == before.position[j]);
        }
    }
    assert forall|j: int| 0 <= j < now.len() implies #[trigger] now.same_obstacle(before, j) by {
        if j < i {
            assert(now.position[j] == before.exploded_position(j));
        } else {
            assert(now.position[j] == before.position[j]);
        }
    }
}

/// The explode system keeps a consistent world consistent and leaves the
/// obstacles where they were.
pub proof fn lemma_explode_consistent(m: WorldModel)
    requires
        m.consistent(),
    ensures
        m.after_explode().consistent(),
        m.after_explode().same_obstacles(m),
        m.wf() ==> m.after_explode().wf(),
{
    let a = m.after_explode();
    lemma_explode_keeps_rows(m, a, m.len() as int);
    if m.wf() {
        assert(!m.explodes(m.player1 as int));
        assert(!m.explodes(m.player2 as int));
    }
}

/// Turns the entities that are due into explosions.
pub fn explode_system(w: &mut World)
    requires
        old(w)@.consistent(),
    ensures
        final(w)@ == old(w)@.after_explode(),
        final(w)@.consistent(),
        old(w)@.wf() ==> final(w)@.wf(),
{
    let ghost before = w@;
    let n = w.alive.len();
    let mut i: usize = 0;
    while i < n
        invariant
            before.consistent(),
            w@.aligned(),
            n == before.len(),
            0 <= i <= n,
            w@ == (WorldModel {
                explode: w@.explode,
                velocity: w@.velocity,
                position: w@.position,
                ..before
            }),
            forall|j: int| 0 <= j < i ==> w@.explode[j] == before.exploded_flags(j),
            forall|j: int| 0 <= j < i ==> w@.velocity[j] == before.exploded_velocity(j),
            forall|j: int| 0 <= j < i ==> w@.position[j] == before.exploded_position(j),
            forall|j: int| i <= j < n ==> w@.explode[j] == before.explode[j],
            forall|j: int| i <= j < n ==> w@.velocity[j] == before.velocity[j],
            forall|j: int| i <= j < n ==> w@.position[j] == before.position[j],
        decreases n - i,
    {
        proof {
            lemma_explode_keeps_rows(before, w@, i as int);
        }
        let flags = w.explode[i];
        let due = match w.lifetime[i] {
            Lifetime::Temporary(left) => flags.0 && !flags.1 && left <= EXPLODE_DURATION,
            _ => false,
        };
        assert(due == before.explodes(i as int));
        if due {
            assert(before.row_ok(i as int));
            let centre = w.position[i][0];
            let cells = explosion(w, centre);
            proof {
                lemma_same_blast(w@, before, centre, 25);
            }
            w.explode.set(i, (flags.0, true));
            w.position.set(i, cells);
            w.velocity.set(i, (0, Dir::Still));
        }
        i += 1;
    }
    proof {
        assert(w@ =~~= before.after_explode());
        lemma_explode_consistent(before);
    }
}

/// One of the five systems. The energy reload carries its phase: it does
/// its work when the phase is zero, and the phase goes round every
/// [`ENERGY_EVERY`] ticks.
#[derive(Copy, Clone, PartialEq, Eq, Debug, Structural)]
pub enum System {
    Move,
    Lifetime,
    Collision,
    EnergyReload(u32),
    Explode,
}

impl System {
    /// The world after this system has taken its step.
    pub open spec fn world_after(self, m: WorldModel) -> WorldModel {
        match self {
            System::Move => m.after_move(),
            System::Lifetime => m.after_lifetime(),
            System::Collision => m.after_collision(),
            System::EnergyReload(phase) => if phase == 0 {
                m.after_energy()
            } else {
                m
            },
            System::Explode => m.after_explode(),
        }
    }

    /// The system itself after its step.
    pub open spec fn after(self) -> System {
        match self {
            System::EnergyReload(phase) => System::EnergyReload(((phase + 1) % (ENERGY_EVERY as int)) as u32),
            other => other,
        }
    }

    /// Lets the system take its step in the world.
    pub fn step(&mut self, world: &mut World)
        requires
            old(world)@.consistent(),
        ensures
            *final(self) == old(self).after(),
            final(world)@ == old(self).world_after(old(world)@),
            final(world)@.consistent(),
            old(world)@.wf() ==> final(world)@.wf(),
    {
        match *self {
            System::Move => {
                move_system(world);
            },
            System::Lifetime => {
                lifetime_system(world);
            },
            System::Collision => {
                collision_system(world);
            },
            System::EnergyReload(phase) => {
                if phase == 0 {
                    energy_system(world);
                }
                *self = System::EnergyReload((phase % ENERGY_EVERY + 1) % ENERGY_EVERY);
            },
            System::Explode => {
                explode_system(world);
            },
        }
    }
}

/// Every system keeps a consistent world consistent, keeps the players and
/// leaves the obstacles where they were.
pub proof fn lemma_step_consistent(s: System, m: WorldModel)
    requires
        m.consistent(),
    ensures
        s.world_after(m).consistent(),
        s.world_after(m).aligned(),
        s.world_after(m).len() == m.len(),
        s.world_after(m).same_obstacles(m),
        m.wf() ==> s.world_after(m).wf(),
{
    lemma_move_consistent(m);
    lemma_lifetime_consistent(m);
    lemma_collision_consistent(m);
    lemma_energy_consistent(m);
    lemma_explode_consistent(m);
    assert forall|k: int| 0 <= k < m.len() implies #[trigger] m.same_obstacle(m, k) by {}
}

/// The systems of a round in the order in which they run, with the energy
/// reload due at the first tick.
pub open spec fn pipeline_spec() -> Seq<System> {
    seq![System::Move, System::Lifetime, System::Collision, System::EnergyReload(0), System::Explode]
}

/// The world after each of `systems` has taken its step, the first one
/// first.
pub open spec fn world_after_all(systems: Seq<System>, m: WorldModel) -> WorldModel
    decreases systems.len(),
{
    if systems.len() == 0 {
        m
    } else {
        systems.last().world_after(world_after_all(systems.drop_last(), m))
    }
}

/// The systems after each has taken its step.
pub open spec fn systems_after_all(systems: Seq<System>) -> Seq<System> {
    Seq::new(systems.len(), |i: int| systems[i].after())
}

/// The systems of a new round.
pub fn pipeline() -> (systems: Vec<System>)
    ensures
        systems@ == pipeline_spec(),
{
    let mut systems: Vec<System> = Vec::new();
    systems.push(System::Move);
    systems.push(System::Lifetime);
    systems.push(System::Collision);
    systems.push(System::EnergyReload(0));
    systems.push(System::Explode);
    assert(systems@ =~= pipeline_spec());
    systems
}

/// Any run of systems keeps a consistent world consistent, with as many
/// entities as before.
pub proof fn lemma_all_consistent(systems: Seq<System>, m: WorldModel)
    requires
        m.consistent(),
    ensures
        world_after_all(systems, m).consistent(),
        world_after_all(systems, m).aligned(),
        world_after_all(systems, m).len() == m.len(),
        world_after_all(systems, m).same_obstacles(m),
        m.wf() ==> world_after_all(systems, m).wf(),
    decreases systems.len(),
{
    if systems.len() == 0 {
        assert forall|k: int| 0 <= k < m.len() implies #[trigger] m.same_obstacle(m, k) by {}
    } else {
        let mid = world_after_all(systems.drop_last(), m);
        lemma_all_consistent(systems.drop_last(), m);
        lemma_step_consistent(systems.last(), mid);
        let now = world_after_all(systems, m);
        assert forall|k: int| 0 <= k < m.len() implies #[trigger] now.same_obstacle(m, k) by {
            assert(now.same_obstacle(mid, k));
            assert(mid.same_obstacle(m, k));
        }
    }
}

/// No run of systems changes the size of the board, who the players are,
/// or the lives they have.
pub proof fn lemma_all_keep_scalars(systems: Seq<System>, m: WorldModel)
    ensures
        world_after_all(systems, m).width == m.width,
        world_after_all(systems, m).height == m.height,
        world_after_all(systems, m).player1 == m.player1,
        world_after_all(systems, m).player2 == m.player2,
        world_after_all(systems, m).p1_lives == m.p1_lives,
        world_after_all(systems, m).p2_lives == m.p2_lives,
        world_after_all(systems, m).missile_range_horizontal == m.missile_range_horizontal,
        world_after_all(systems, m).missile_range_vertical == m.missile_range_vertical,
    decreases systems.len(),
{
    if systems.len() > 0 {
        lemma_all_keep_scalars(systems.drop_last(), m);
    }
}

/// Runs one tick: every system takes its step, in order.
pub fn tick(systems: &mut Vec<System>, w: &mut World)
    requires
        old(w)@.consistent(),
    ensures
        final(w)@ == world_after_all(old(systems)@, old(w)@),
        final(systems)@ == systems_after_all(old(systems)@),
        final(w)@.consistent(),
        old(w)@.wf() ==> final(w)@.wf(),
        final(w)@.p1_lives == old(w)@.p1_lives,
        final(w)@.p2_lives == old(w)@.p2_lives,
        final(w)@.player1 == old(w)@.player1,
        final(w)@.player2 == old(w)@.player2,
        old(w)@.placed() && old(w)@.armed_on_board() ==> final(w)@.placed() && final(w)@.armed_on_board(),
{
    let ghost before = w@;
    let ghost order = systems@;
    proof {
        lemma_all_keep_scalars(order, before);
        if before.placed() && before.armed_on_board() {
            lemma_tick_keeps_cells(order, before);
        }
    }
    let n = systems.len();
    let mut i: usize = 0;
    while i < n
        invariant
            before.consistent(),
            w@.consistent(),
            before.wf() ==> w@.wf(),
            n == order.len(),
            systems@.len() == n,
            0 <= i <= n,
            w@ == world_after_all(order.take(i as int), before),
            forall|j: int| 0 <= j < i ==> systems@[j] == order[j].after(),
            forall|j: int| i <= j < n ==> systems@[j] == order[j],
        decreases n - i,
    {
        let mut s = systems[i];
        s.step(w);
        systems.set(i, s);
        proof {
            assert(order.take(i + 1).drop_last() =~= order.take(i as int));
            assert(order.take(i + 1).last() == order[i as int]);
        }
        i += 1;
    }
    proof {
        assert(order.take(n as int) =~= order);
        assert(systems@ =~= systems_after_all(order));
    }
}

} // verus!
