//! The world: one row of components per entity, kept in parallel vectors.

use vstd::prelude::*;
use crate::dir::Dir;
use crate::pos::Pos;
use crate::weapon::Weapon;

verus! {

/// Lives that each player starts a match with.
pub const PLAYER_LIVES: u32 = 10;

/// The most energy an entity can hold.
pub const MAX_ENERGY: u32 = 100;

/// Ticks that a ray stays on the board.
pub const LIFETIME_RAY: u32 = 10;

/// A missile explodes once it has this many ticks left, or fewer.
pub const EXPLODE_DURATION: u32 = 2;

/// The least range of a missile, whatever the size of the board.
pub const MISSILE_MIN_RANGE: u32 = 8;

/// Energy taken by a missile.
pub const ENERGY_MISSILE: u32 = 3;

/// Energy taken by a ray.
pub const ENERGY_RAY: u32 = 25;

/// Energy that a raised shield takes at each reload.
pub const ENERGY_SHIELD: u32 = 3;

/// Energy is reloaded once in this many ticks.
pub const ENERGY_EVERY: u32 = 5;

/// How long an entity stays in the round.
#[derive(Copy, Clone, PartialEq, Eq, Debug, Structural)]
pub enum Lifetime {
    /// An obstacle: never ages, never moves, blocks its cell.
    Solid,
    /// A player: never ages.
    Permanent,
    /// A projectile, with the ticks it has left.
    Temporary(u32),
}

/// How an entity is drawn.
#[derive(Debug)]
pub struct Sprite {
    pub color_idx: usize,
    pub is_bold: bool,
    pub texture_vertical: String,
    pub texture_horizontal: String,
    pub texture_explosion: Option<String>,
}

/// The mathematical value of a [`Sprite`].
pub struct SpriteModel {
    pub color_idx: usize,
    pub is_bold: bool,
    pub texture_vertical: Seq<char>,
    pub texture_horizontal: Seq<char>,
    pub texture_explosion: Option<Seq<char>>,
}

impl View for Sprite {
    type V = SpriteModel;

    open spec fn view(&self) -> SpriteModel {
        SpriteModel {
            color_idx: self.color_idx,
            is_bold: self.is_bold,
            texture_vertical: self.texture_vertical@,
            texture_horizontal: self.texture_horizontal@,
            texture_explosion: match self.texture_explosion {
                Some(t) => Some(t@),
                None => None,
            },
        }
    }
}

/// One round's state. Entity `i` is row `i` of every component vector.
pub struct World {
    pub width: u32,
    pub height: u32,
    pub player1: usize,
    pub player2: usize,
    pub p1_lives: u32,
    pub p2_lives: u32,
    pub missile_range_horizontal: u32,
    pub missile_range_vertical: u32,
    pub name: Vec<String>,
    pub alive: Vec<bool>,
    pub lifetime: Vec<Lifetime>,
    pub sprite: Vec<Sprite>,
    /// Steps per tick, and the direction of travel.
    pub velocity: Vec<(u8, Dir)>,
    pub position: Vec<Vec<Pos>>,
    pub energy: Vec<u32>,
    pub shield: Vec<bool>,
    pub bounce: Vec<bool>,
    /// Whether the entity will explode, and whether it is exploding.
    pub explode: Vec<(bool, bool)>,
    pub active_weapon: Vec<Option<Weapon>>,
}

/// The components of one entity.
pub struct Row {
    pub name: Seq<char>,
    pub alive: bool,
    pub lifetime: Lifetime,
    pub sprite: SpriteModel,
    pub velocity: (u8, Dir),
    pub position: Seq<Pos>,
    pub energy: u32,
    pub shield: bool,
    pub bounce: bool,
    pub explode: (bool, bool),
    pub active_weapon: Option<Weapon>,
}

/// The mathematical value of a [`World`].
#[verifier::ext_equal]
pub struct WorldModel {
    pub width: u32,
    pub height: u32,
    pub player1: usize,
    pub player2: usize,
    pub p1_lives: u32,
    pub p2_lives: u32,
    pub missile_range_horizontal: u32,
    pub missile_range_vertical: u32,
    pub name: Seq<Seq<char>>,
    pub alive: Seq<bool>,
    pub lifetime: Seq<Lifetime>,
    pub sprite: Seq<SpriteModel>,
    pub velocity: Seq<(u8, Dir)>,
    pub position: Seq<Seq<Pos>>,
    pub energy: Seq<u32>,
    pub shield: Seq<bool>,
    pub bounce: Seq<bool>,
    pub explode: Seq<(bool, bool)>,
    pub active_weapon: Seq<Option<Weapon>>,
}

impl View for World {
    type V = WorldModel;

    open spec fn view(&self) -> WorldModel {
        WorldModel {
            width: self.width,
            height: self.height,
            player1: self.player1,
            player2: self.player2,
            p1_lives: self.p1_lives,
            p2_lives: self.p2_lives,
            missile_range_horizontal: self.missile_range_horizontal,
            missile_range_vertical: self.missile_range_vertical,
            name: Seq::new(self.name@.len(), |i: int| self.name@[i]@),
            alive: self.alive@,
            lifetime: self.lifetime@,
            sprite: Seq::new(self.sprite@.len(), |i: int| self.sprite@[i]@),
            velocity: self.velocity@,
            position: Seq::new(self.position@.len(), |i: int| self.position@[i]@),
            energy: self.energy@,
            shield: self.shield@,
            bounce: self.bounce@,
            explode: self.explode@,
            active_weapon: self.active_weapon@,
        }
    }
}

impl WorldModel {
    /// The number of entities.
    pub open spec fn len(self) -> nat {
        self.alive.len()
    }

    /// Every component has one slot per entity.
    pub open spec fn aligned(self) -> bool {
        &&& self.name.len() == self.len()
        &&& self.lifetime.len() == self.len()
        &&& self.sprite.len() == self.len()
        &&& self.velocity.len() == self.len()
        &&& self.position.len() == self.len()
        &&& self.energy.len() == self.len()
        &&& self.shield.len() == self.len()
        &&& self.bounce.len() == self.len()
        &&& self.explode.len() == self.len()
        &&& self.active_weapon.len() == self.len()
    }

    /// What holds of a single row in every state of a round: an obstacle has
    /// a cell and stands still, an entity that has yet to explode has a cell
    /// to explode at, and energy stays under its cap.
    pub open spec fn row_ok(self, i: int) -> bool {
        &&& self.lifetime[i] == Lifetime::Solid ==> self.position[i].len() > 0 && self.velocity[i].0 == 0
        &&& self.explode[i].0 && !self.explode[i].1 ==> self.position[i].len() > 0
        &&& self.energy[i] <= MAX_ENERGY
    }

    /// The components are aligned and every row is in order.
    pub open spec fn consistent(self) -> bool {
        &&& self.aligned()
        &&& forall|i: int| 0 <= i < self.len() ==> #[trigger] self.row_ok(i)
    }

    /// Entity `id` can stand for a player: it never ages, never explodes,
    /// carries a weapon and has a cell.
    pub open spec fn is_player(self, id: int) -> bool {
        &&& 0 <= id < self.len()
        &&& self.lifetime[id] == Lifetime::Permanent
        &&& self.explode[id] == (false, false)
        &&& self.active_weapon[id].is_some()
        &&& self.position[id].len() > 0
    }

    /// A consistent world whose two players are two different entities.
    pub open spec fn wf(self) -> bool {
        &&& self.consistent()
        &&& self.is_player(self.player1 as int)
        &&& self.is_player(self.player2 as int)
        &&& self.player1 != self.player2
    }

    /// Every entity has at least one cell.
    pub open spec fn placed(self) -> bool {
        forall|i: int| 0 <= i < self.position.len() ==> (#[trigger] self.position[i]).len() > 0
    }

    /// Inside the borders: one column is kept free at the left and at the
    /// right, two rows at the top and at the bottom.
    pub open spec fn in_interior(self, x: u32, y: u32) -> bool {
        &&& 1 <= x
        &&& x + 1 < self.width
        &&& 2 <= y
        &&& y + 2 < self.height
    }

    /// Entity `i` is an obstacle standing on the cell `(x, y)`.
    pub open spec fn blocks(self, i: int, x: u32, y: u32) -> bool {
        &&& self.lifetime[i] == Lifetime::Solid
        &&& self.position[i].len() > 0
        &&& self.position[i][0].x == x
        &&& self.position[i][0].y == y
    }

    /// Some obstacle stands on the cell `(x, y)`.
    pub open spec fn blocked(self, x: u32, y: u32) -> bool {
        exists|i: int| 0 <= i < self.len() && #[trigger] self.blocks(i, x, y)
    }

    /// The coordinates name a cell that an entity can stand on: inside the
    /// borders and free of obstacles.
    pub open spec fn free(self, x: u32, y: u32) -> bool {
        self.in_interior(x, y) && !self.blocked(x, y)
    }

    /// A cell is on the board when it is not flagged invalid and an entity
    /// can stand on it.
    pub open spec fn on_board(self, pos: Pos) -> bool {
        !pos.invalid && self.free(pos.x, pos.y)
    }
}

impl WorldModel {
    /// The world with one more entity, whose id is the old number of
    /// entities and whose components are those of `r`.
    pub open spec fn push(self, r: Row) -> WorldModel {
        WorldModel {
            name: self.name.push(r.name),
            alive: self.alive.push(r.alive),
            lifetime: self.lifetime.push(r.lifetime),
            sprite: self.sprite.push(r.sprite),
            velocity: self.velocity.push(r.velocity),
            position: self.position.push(r.position),
            energy: self.energy.push(r.energy),
            shield: self.shield.push(r.shield),
            bounce: self.bounce.push(r.bounce),
            explode: self.explode.push(r.explode),
            active_weapon: self.active_weapon.push(r.active_weapon),
            ..self
        }
    }

    /// The components of entity `i`, gathered into one row.
    pub open spec fn row(self, i: int) -> Row {
        Row {
            name: self.name[i],
            alive: self.alive[i],
            lifetime: self.lifetime[i],
            sprite: self.sprite[i],
            velocity: self.velocity[i],
            position: self.position[i],
            energy: self.energy[i],
            shield: self.shield[i],
            bounce: self.bounce[i],
            explode: self.explode[i],
            active_weapon: self.active_weapon[i],
        }
    }
}

impl Row {
    /// What [`WorldModel::row_ok`] asks of a row, said of the row alone.
    pub open spec fn ok(self) -> bool {
        &&& self.lifetime == Lifetime::Solid ==> self.position.len() > 0 && self.velocity.0 == 0
        &&& self.explode.0 && !self.explode.1 ==> self.position.len() > 0
        &&& self.energy <= MAX_ENERGY
    }
}

/// Adding a row keeps the components aligned, leaves every earlier row as it
/// was, and keeps the world consistent if the new row is in order.
pub proof fn lemma_push_row(m: WorldModel, r: Row)
    requires
        m.aligned(),
    ensures
        m.push(r).aligned(),
        m.push(r).len() == m.len() + 1,
        m.push(r).row(m.len() as int) == r,
        forall|i: int| 0 <= i < m.len() ==> #[trigger] m.push(r).row(i) == m.row(i),
        m.consistent() && r.ok() ==> m.push(r).consistent(),
        m.wf() && r.ok() ==> m.push(r).wf(),
{
    let n = m.push(r);
    if m.consistent() && r.ok() {
        assert forall|i: int| 0 <= i < n.len() implies #[trigger] n.row_ok(i) by {
            if i < m.len() {
                assert(m.row_ok(i));
            }
        }
    }
}

impl WorldModel {
    /// Entity `i` is in this world what it is in `other`, as far as the
    /// order of a row goes: the same lifetime, the same state of
    /// explosion, as many cells, the same speed, no more energy, and a
    /// weapon in hand if it has one there.
    pub open spec fn keeps_row(self, other: WorldModel, i: int) -> bool {
        &&& self.lifetime[i] == other.lifetime[i]
        &&& self.explode[i] == other.explode[i]
        &&& self.position[i].len() == other.position[i].len()
        &&& self.velocity[i].0 == other.velocity[i].0
        &&& self.energy[i] <= other.energy[i]
        &&& self.active_weapon[i].is_some() == other.active_weapon[i].is_some()
    }
}

/// A change that keeps every row in the sense of
/// [`WorldModel::keeps_row`] keeps the world consistent, keeps its players
/// if they are the same entities, and leaves no entity without a cell.
pub proof fn lemma_rows_kept(m: WorldModel, a: WorldModel)
    requires
        m.consistent(),
        a.aligned(),
        a.len() == m.len(),
        forall|i: int| 0 <= i < m.len() ==> #[trigger] a.keeps_row(m, i),
    ensures
        a.consistent(),
        m.wf() && a.player1 == m.player1 && a.player2 == m.player2 ==> a.wf(),
        m.placed() ==> a.placed(),
{
    assert forall|i: int| 0 <= i < a.len() implies #[trigger] a.row_ok(i) by {
        assert(m.row_ok(i));
        assert(a.keeps_row(m, i));
    }
    if m.wf() && a.player1 == m.player1 && a.player2 == m.player2 {
        assert(a.keeps_row(m, m.player1 as int));
        assert(a.keeps_row(m, m.player2 as int));
    }
    if m.placed() {
        assert forall|i: int| 0 <= i < a.position.len() implies (#[trigger] a.position[i]).len() > 0 by {
            assert(a.keeps_row(m, i));
            assert(m.position[i].len() > 0);
        }
    }
}

/// Adding a row that has a cell leaves no entity without one.
pub proof fn lemma_push_placed(m: WorldModel, r: Row)
    requires
        m.aligned(),
    ensures
        m.placed() && r.position.len() > 0 ==> m.push(r).placed(),
{
    let n = m.push(r);
    if m.placed() && r.position.len() > 0 {
        assert forall|i: int| 0 <= i < n.position.len() implies (#[trigger] n.position[i]).len() > 0 by {
            if i < m.len() {
                assert(m.position[i].len() > 0);
            }
        }
    }
}

/// A row that is no obstacle changes nothing about which cells are free.
pub proof fn lemma_push_keeps_board(m: WorldModel, r: Row, x: u32, y: u32)
    requires
        m.aligned(),
        r.lifetime != Lifetime::Solid,
    ensures
        m.push(r).free(x, y) == m.free(x, y),
{
    let n = m.push(r);
    if m.blocked(x, y) {
        let i = choose|i: int| 0 <= i < m.len() && #[trigger] m.blocks(i, x, y);
        assert(n.blocks(i, x, y));
    }
    if n.blocked(x, y) {
        let i = choose|i: int| 0 <= i < n.len() && #[trigger] n.blocks(i, x, y);
        assert(m.blocks(i, x, y));
    }
}

impl World {
    /// The only judge of whether a cell can be moved to, fired from or built
    /// on: the cell is not flagged invalid, lies inside the borders and holds
    /// no obstacle.
    pub fn is_on_board(&self, pos: Pos) -> (r: bool)
        requires
            self@.consistent(),
        ensures
            r == self@.on_board(pos),
    {
        if pos.invalid || pos.x < 1 || self.width < 1 || pos.x >= self.width - 1 {
            return false;
        }
        if pos.y < 2 || self.height < 2 || pos.y >= self.height - 2 {
            return false;
        }
        let n = self.lifetime.len();
        let mut i: usize = 0;
        while i < n
            invariant
                self@.consistent(),
                n == self@.len(),
                0 <= i <= n,
                forall|j: int| 0 <= j < i ==> !#[trigger] self@.blocks(j, pos.x, pos.y),
            decreases n - i,
        {
            if self.lifetime[i] == Lifetime::Solid {
                assert(self@.row_ok(i as int));
                if self.position[i][0].does_hit(pos) {
                    assert(self@.blocks(i as int, pos.x, pos.y));
                    return false;
                }
            }
            i += 1;
        }
        true
    }

    /// Whether every component has one slot for each entity.
    pub fn is_aligned(&self) -> (ok: bool)
        ensures
            ok == self@.aligned(),
    {
        let n = self.alive.len();
        self.name.len() == n && self.lifetime.len() == n && self.sprite.len() == n && self.velocity.len() == n
            && self.position.len() == n && self.energy.len() == n && self.shield.len() == n
            && self.bounce.len() == n && self.explode.len() == n && self.active_weapon.len() == n
    }

    /// Whether the components are aligned and every row is in order.
    pub fn is_consistent(&self) -> (ok: bool)
        ensures
            ok == self@.consistent(),
    {
        if !self.is_aligned() {
            return false;
        }
        let n = self.alive.len();
        let mut i: usize = 0;
        while i < n
            invariant
                self@.aligned(),
                n == self@.len(),
                0 <= i <= n,
                forall|j: int| 0 <= j < i ==> #[trigger] self@.row_ok(j),
            decreases n - i,
        {
            let cells = self.position[i].len();
            let solid = self.lifetime[i] == Lifetime::Solid;
            let due = self.explode[i].0 && !self.explode[i].1;
            if (solid && (cells == 0 || self.velocity[i].0 != 0)) || (due && cells == 0) || self.energy[i]
                > MAX_ENERGY {
                assert(!self@.row_ok(i as int));
                return false;
            }
            assert(self@.row_ok(i as int));
            i += 1;
        }
        true
    }

    /// Whether entity `id` can stand for a player.
    fn can_play(&self, id: usize) -> (ok: bool)
        requires
            self@.aligned(),
        ensures
            ok == self@.is_player(id as int),
    {
        id < self.alive.len() && self.lifetime[id] == Lifetime::Permanent && !self.explode[id].0
            && !self.explode[id].1 && self.active_weapon[id].is_some() && self.position[id].len() > 0
    }

    /// Whether the world is consistent and has its two players.
    pub fn is_well_formed(&self) -> (ok: bool)
        ensures
            ok == self@.wf(),
    {
        self.is_consistent() && self.can_play(self.player1) && self.can_play(self.player2) && self.player1
            != self.player2
    }

    /// Whether every entity has at least one cell.
    pub fn is_placed(&self) -> (ok: bool)
        ensures
            ok == self@.placed(),
    {
        let n = self.position.len();
        let mut i: usize = 0;
        while i < n
            invariant
                n == self@.position.len(),
                0 <= i <= n,
                forall|j: int| 0 <= j < i ==> (#[trigger] self@.position[j]).len() > 0,
            decreases n - i,
        {
            if self.position[i].len() == 0 {
                assert(self@.position[i as int].len() == 0);
                return false;
            }
            i += 1;
        }
        true
    }

    /// Appends one entity to every component at once and gives its id.
    pub fn push_row(
        &mut self,
        name: String,
        alive: bool,
        lifetime: Lifetime,
        sprite: Sprite,
        velocity: (u8, Dir),
        position: Vec<Pos>,
        energy: u32,
        shield: bool,
        bounce: bool,
        explode: (bool, bool),
        active_weapon: Option<Weapon>,
    ) -> (id: usize)
        requires
            old(self)@.aligned(),
        ensures
            id == old(self)@.len(),
            final(self)@ == old(self)@.push(
                Row {
                    name: name@,
                    alive,
                    lifetime,
                    sprite: sprite@,
                    velocity,
                    position: position@,
                    energy,
                    shield,
                    bounce,
                    explode,
                    active_weapon,
                },
            ),
    {
        let id = self.alive.len();
        let ghost before = self@;
        let ghost row = Row {
            name: name@,
            alive,
            lifetime,
            sprite: sprite@,
            velocity,
            position: position@,
            energy,
            shield,
            bounce,
            explode,
            active_weapon,
        };
        self.name.push(name);
        self.alive.push(alive);
        self.lifetime.push(lifetime);
        self.sprite.push(sprite);
        self.velocity.push(velocity);
        self.position.push(position);
        self.energy.push(energy);
        self.shield.push(shield);
        self.bounce.push(bounce);
        self.explode.push(explode);
        self.active_weapon.push(active_weapon);
        assert(self@ =~~= before.push(row));
        id
    }
}

} // verus!
