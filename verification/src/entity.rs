//! An entity as a value of its own: a player, a missile or a ray that
//! carries its position, its direction and its timers with it and knows
//! the size of the board. This is the model for a game that keeps its
//! entities one by one and has no obstacles.

use vstd::prelude::*;
use vstd::string::StringExecFns;
use crate::dir::Dir;
use crate::world::PLAYER_LIVES;

verus! {

/// Updates for which an explosion lasts.
pub const EXPLODE_FRAMES: u16 = 4;

/// A cell of the board of an [`Entity`].
#[derive(Copy, Clone, Debug, PartialEq, Eq, Structural)]
pub struct Pos {
    pub x: u16,
    pub y: u16,
}

impl Pos {
    /// There is room for `n` steps in direction `dir`: the coordinate
    /// that grows stays within its type. Towards the top and the left a
    /// position stops at zero and needs no room.
    pub open spec fn can_step(&self, dir: Dir, n: int) -> bool {
        &&& dir == Dir::Down ==> self.y + n <= u16::MAX
        &&& dir == Dir::Right ==> self.x + n <= u16::MAX
    }

    /// Where `n` steps in direction `dir` lead, where there is room for
    /// them.
    pub open spec fn spec_moved_by(&self, dir: Dir, n: int) -> Pos {
        match dir {
            Dir::Up => Pos {
                x: self.x,
                y: if self.y >= n {
                    (self.y - n) as u16
                } else {
                    0
                },
            },
            Dir::Down => Pos { x: self.x, y: (self.y + n) as u16 },
            Dir::Left => Pos {
                x: if self.x >= n {
                    (self.x - n) as u16
                } else {
                    0
                },
                y: self.y,
            },
            Dir::Right => Pos { x: (self.x + n) as u16, y: self.y },
            Dir::Still => *self,
        }
    }

    /// The neighbouring cell in direction `dir`; at the top and at the
    /// left edge the cell itself.
    pub open spec fn spec_moved(&self, dir: Dir) -> Pos {
        self.spec_moved_by(dir, 1)
    }

    /// Two positions hit each other when they are the same cell.
    pub open spec fn spec_does_hit(&self, pos: Pos) -> bool {
        self.x == pos.x && self.y == pos.y
    }

    /// A new position moved one unit in the given direction.
    #[verifier::when_used_as_spec(spec_moved)]
    pub fn moved(&self, dir: Dir) -> (r: Pos)
        requires
            self.can_step(dir, 1),
        ensures
            r == self.spec_moved(dir),
    {
        let mut r = *self;
        r.mov(dir);
        r
    }

    /// Whether this position and `pos` are the same cell.
    #[verifier::when_used_as_spec(spec_does_hit)]
    pub fn does_hit(&self, pos: Pos) -> (r: bool)
        ensures
            r == self.spec_does_hit(pos),
    {
        self.x == pos.x && self.y == pos.y
    }

    /// Moves the position one unit in the given direction.
    pub fn mov(&mut self, dir: Dir)
        requires
            old(self).can_step(dir, 1),
        ensures
            *final(self) == old(self).spec_moved(dir),
    {
        match dir {
            Dir::Up => {
                if self.y > 0 {
                    self.y = self.y - 1;
                }
            },
            Dir::Down => {
                self.y = self.y + 1;
            },
            Dir::Left => {
                if self.x > 0 {
                    self.x = self.x - 1;
                }
            },
            Dir::Right => {
                self.x = self.x + 1;
            },
            Dir::Still => {},
        }
    }

    /// Takes a step back from direction `dir` and gives the direction
    /// that now leads away.
    pub fn reverse(&mut self, dir: Dir) -> (back: Dir)
        requires
            old(self).can_step(dir.spec_opposite(), 1),
        ensures
            back == dir.spec_opposite(),
            *final(self) == old(self).spec_moved(dir.spec_opposite()),
    {
        let new_dir = dir.opposite();
        self.mov(new_dir);
        new_dir
    }

    /// Whether this position and `pos` are the same cell.
    pub fn hit(&self, pos: Pos) -> (r: bool)
        ensures
            r == self.spec_does_hit(pos),
    {
        self.x == pos.x && self.y == pos.y
    }
}

/// Inside the borders of a board of `w` columns and `h` rows: one column
/// is kept free at the left and at the right, two rows at the top and at
/// the bottom.
pub open spec fn spec_is_on_board(cx: u16, cy: u16, w: u16, h: u16) -> bool {
    1 <= cx && cx < w - 1 && 2 <= cy && cy < h - 2
}

/// Whether the cell `(cx, cy)` lies inside the borders of a board of `w`
/// columns and `h` rows. The board has room for its borders.
#[verifier::when_used_as_spec(spec_is_on_board)]
pub fn is_on_board(cx: u16, cy: u16, w: u16, h: u16) -> (r: bool)
    requires
        w >= 1,
        h >= 2,
    ensures
        r == spec_is_on_board(cx, cy, w, h),
{
    1 <= cx && cx < w - 1 && 2 <= cy && cy < h - 2
}

/// One entity with everything that belongs to it.
#[derive(Debug)]
pub struct Entity {
    pub is_alive: bool,
    pub name: Option<String>,
    pub dir: Dir,
    pub pos: Pos,
    pub lives: Option<usize>,
    pub prev: Pos,
    pub color_idx: usize,
    pub texture_vertical: String,
    pub texture_horizontal: String,
    pub texture_explosion: Option<String>,
    pub speed: u16,
    pub range: Option<i16>,
    pub is_hit: bool,
    pub is_bounce: bool,
    pub is_explodable: bool,
    /// Width of the board.
    pub w: u16,
    /// Height of the board.
    pub h: u16,
    pub explode_timer: Option<u16>,
}

impl Entity {
    /// What every operation keeps: an entity that can explode has a
    /// range, and the explosion of a living entity has time left.
    pub open spec fn wf(&self) -> bool {
        &&& self.is_explodable ==> self.range.is_some()
        &&& self.is_alive ==> (self.explode_timer matches Some(t) ==> t > 0)
    }

    /// The board has room for its borders.
    pub open spec fn has_board(&self) -> bool {
        self.w >= 1 && self.h >= 2
    }

    /// The steps an entity takes in one update: as many as its speed, and
    /// one where it has none.
    pub open spec fn stride(&self) -> int {
        if self.speed > 1 {
            self.speed as int
        } else {
            1
        }
    }

    /// The entity can make a move: the steps it takes, what is left of
    /// its range after them and the coordinates they lead to can all be
    /// counted.
    pub open spec fn can_move(&self) -> bool {
        &&& self.has_board()
        &&& self.stride() <= i16::MAX
        &&& self.range matches Some(r) ==> r - self.stride() >= i16::MIN
        &&& self.pos.can_step(self.dir, self.stride())
    }

    /// The cells round the entity can be counted.
    pub open spec fn can_explode(&self) -> bool {
        &&& self.has_board()
        &&& self.pos.x + 2 <= u16::MAX
        &&& self.pos.y + 2 <= u16::MAX
    }

    /// The cells behind the entity can be counted.
    pub open spec fn can_look_back(&self) -> bool {
        self.pos.can_step(self.dir.spec_opposite(), self.stride() - 1)
    }

    /// The explosion of the entity has begun.
    pub open spec fn spec_is_exploding(&self) -> bool {
        self.explode_timer.is_some()
    }

    /// Where a move would take the entity.
    pub open spec fn target(&self) -> Pos {
        self.pos.spec_moved_by(self.dir, self.stride())
    }

    /// The entity after a move.
    ///
    /// It goes to its target if that is on the board. Otherwise it turns
    /// round if it bounces and dies if it does not. The steps count
    /// against its range wherever it ends up, and an entity that can
    /// explode begins to when its range is used up.
    pub open spec fn moved(&self) -> Entity {
        let next = self.target();
        let fits = spec_is_on_board(next.x, next.y, self.w, self.h);
        let range = match self.range {
            Some(r) => Some((r - self.stride()) as i16),
            None => None,
        };
        Entity {
            prev: if fits {
                self.pos
            } else {
                self.prev
            },
            pos: if fits {
                next
            } else {
                self.pos
            },
            dir: if !fits && self.is_bounce {
                self.dir.spec_opposite()
            } else {
                self.dir
            },
            is_alive: fits || self.is_bounce,
            range,
            explode_timer: if self.is_explodable && range.unwrap() <= 0 {
                Some(EXPLODE_FRAMES)
            } else {
                self.explode_timer
            },
            ..*self
        }
    }

    /// The entity after one more update of its explosion: the time left
    /// goes down by one, and the entity dies when none is left.
    pub open spec fn burnt(&self) -> Entity {
        let left = (self.explode_timer.unwrap() - 1) as u16;
        Entity { explode_timer: Some(left), is_alive: left != 0, ..*self }
    }

    /// The entity after an update: the dead stay as they are, an explosion
    /// burns on, and everything else moves.
    pub open spec fn updated(&self) -> Entity {
        if !self.is_alive {
            *self
        } else if self.explode_timer.is_some() {
            self.burnt()
        } else {
            self.moved()
        }
    }

    /// The entity lies on the cell `p` or has passed over it on its last
    /// move: `p` is the cell of the entity or one of the cells behind it,
    /// as many as its stride is long.
    pub open spec fn sweeps(&self, p: Pos) -> bool {
        exists|k: int|
            0 <= k < self.stride() && (#[trigger] self.pos.spec_moved_by(self.dir.spec_opposite(), k)).spec_does_hit(
                p,
            )
    }

    /// The cell `(x, y)` is part of the explosion of the entity: no more
    /// than two columns and two rows away from it, and on the board.
    pub open spec fn blasts(&self, x: u16, y: u16) -> bool {
        &&& self.is_alive
        &&& self.pos.x - 2 <= x <= self.pos.x + 2
        &&& self.pos.y - 2 <= y <= self.pos.y + 2
        &&& spec_is_on_board(x, y, self.w, self.h)
    }

    /// The entity hits the cell `p`: it is alive and sweeps the cell, or
    /// it is exploding and the cell is part of the explosion.
    pub open spec fn spec_hits(&self, p: Pos) -> bool {
        self.is_alive && (self.sweeps(p) || (self.spec_is_exploding() && self.blasts(p.x, p.y)))
    }

    /// The entity after it was hit: an entity with lives loses one and
    /// dies with the last; an entity without lives does not care.
    pub open spec fn struck(&self) -> Entity {
        match self.lives {
            None => *self,
            Some(l) => Entity {
                lives: Some((l - 1) as usize),
                is_alive: self.is_alive && l - 1 != 0,
                is_hit: true,
                ..*self
            },
        }
    }

    /// The column of the `k`-th cell of the square round the entity, gone
    /// through column by column.
    pub open spec fn blast_x(&self, k: int) -> int {
        self.pos.x - 2 + k / 5
    }

    /// The row of the `k`-th cell of the square round the entity.
    pub open spec fn blast_y(&self, k: int) -> int {
        self.pos.y - 2 + k % 5
    }

    /// The `k`-th cell of the square round the entity is on the board.
    pub open spec fn in_blast(&self, k: int) -> bool {
        &&& 0 <= self.blast_x(k) <= u16::MAX
        &&& 0 <= self.blast_y(k) <= u16::MAX
        &&& spec_is_on_board(self.blast_x(k) as u16, self.blast_y(k) as u16, self.w, self.h)
    }

    /// The `k`-th cell of the square round the entity.
    pub open spec fn blast_cell(&self, k: int) -> Pos {
        Pos { x: self.blast_x(k) as u16, y: self.blast_y(k) as u16 }
    }

    /// The cells on the board among the first `k` of the square round the
    /// entity.
    pub open spec fn blast_upto(&self, k: nat) -> Seq<Pos>
        decreases k,
    {
        if k == 0 {
            Seq::empty()
        } else {
            let before = self.blast_upto((k - 1) as nat);
            if self.in_blast(k - 1) {
                before.push(self.blast_cell(k - 1))
            } else {
                before
            }
        }
    }

    /// The cells of the explosion of the entity; none for the dead.
    pub open spec fn spec_explosion(&self) -> Seq<Pos> {
        if self.is_alive {
            self.blast_upto(25)
        } else {
            Seq::empty()
        }
    }
}

/// A player called `name`, drawn as `pchar`, on a board of `w` columns
/// and `h` rows.
pub fn new_player(name: &str, pchar: String, color_idx: usize, w: u16, h: u16) -> (e: Entity)
    ensures
        e.wf(),
        e.is_alive,
        e.name matches Some(n) && n@ == name@,
        e.dir == Dir::Still,
        e.pos == (Pos { x: 0, y: 0 }),
        e.prev == e.pos,
        e.lives == Some(PLAYER_LIVES as usize),
        e.color_idx == color_idx,
        e.texture_vertical@ == pchar@,
        e.texture_horizontal@ == pchar@,
        e.texture_explosion.is_none(),
        e.speed == 1,
        e.range.is_none(),
        !e.is_hit,
        e.is_bounce,
        !e.is_explodable,
        e.w == w,
        e.h == h,
        e.explode_timer.is_none(),
{
    Entity {
        w,
        h,
        color_idx,
        texture_vertical: pchar.clone(),
        texture_horizontal: pchar,
        name: Some(String::from_str(name)),
        prev: Pos { x: 0, y: 0 },
        pos: Pos { x: 0, y: 0 },
        dir: Dir::Still,
        lives: Some(PLAYER_LIVES as usize),
        is_alive: true,
        is_bounce: true,
        is_hit: false,
        speed: 1,
        is_explodable: false,
        range: None,
        explode_timer: None,
        texture_explosion: None,
    }
}

/// A missile that starts at `start_pos` and flies in direction `dir` for
/// `range` cells before it explodes.
pub fn new_missile(start_pos: Pos, dir: Dir, range: i16, color_idx: usize, w: u16, h: u16) -> (e: Entity)
    ensures
        e.wf(),
        e.is_alive,
        e.name.is_none(),
        e.dir == dir,
        e.pos == start_pos,
        e.prev == start_pos,
        e.lives.is_none(),
        e.color_idx == color_idx,
        e.texture_vertical@ == "*"@,
        e.texture_horizontal@ == "*"@,
        e.texture_explosion matches Some(t) && t@ == "#"@,
        e.speed == 2,
        e.range == Some(range),
        !e.is_hit,
        !e.is_bounce,
        e.is_explodable,
        e.w == w,
        e.h == h,
        e.explode_timer.is_none(),
{
    Entity {
        w,
        h,
        dir,
        color_idx,
        texture_vertical: String::from_str("*"),
        texture_horizontal: String::from_str("*"),
        texture_explosion: Some(String::from_str("#")),
        prev: start_pos,
        pos: start_pos,
        is_alive: true,
        speed: 2,
        is_bounce: false,
        range: Some(range),
        explode_timer: None,
        is_explodable: true,
        is_hit: false,
        name: None,
        lives: None,
    }
}

/// A ray that starts at `start_pos` and crosses `range` cells in
/// direction `dir` in a single update.
pub fn new_ray(start_pos: Pos, dir: Dir, color_idx: usize, range: u16, w: u16, h: u16) -> (e: Entity)
    requires
        range <= i16::MAX,
    ensures
        e.wf(),
        e.is_alive,
        e.name.is_none(),
        e.dir == dir,
        e.pos == start_pos,
        e.prev == start_pos,
        e.lives.is_none(),
        e.color_idx == color_idx,
        e.texture_vertical@ == "|"@,
        e.texture_horizontal@ == "-"@,
        e.texture_explosion.is_none(),
        e.speed == range,
        e.range == Some(range as i16),
        !e.is_hit,
        !e.is_bounce,
        !e.is_explodable,
        e.w == w,
        e.h == h,
        e.explode_timer.is_none(),
{
    Entity {
        w,
        h,
        dir,
        color_idx,
        texture_vertical: String::from_str("|"),
        texture_horizontal: String::from_str("-"),
        prev: start_pos,
        pos: start_pos,
        is_alive: true,
        speed: range,
        is_bounce: false,
        range: Some(range as i16),
        is_hit: false,
        explode_timer: None,
        texture_explosion: None,
        is_explodable: false,
        name: None,
        lives: None,
    }
}

impl Entity {
    /// Lets a living entity move, or its explosion burn on.
    pub fn update(&mut self)
        requires
            old(self).wf(),
            old(self).is_alive && old(self).explode_timer.is_none() ==> old(self).can_move(),
        ensures
            *final(self) == old(self).updated(),
            final(self).wf(),
    {
        if !self.is_alive {
            return ;
        }
        if self.explode_timer.is_some() {
            self.update_explosion();
        } else {
            self.update_movement();
        }
    }

    fn update_movement(&mut self)
        requires
            old(self).wf(),
            old(self).can_move(),
            old(self).is_alive,
            old(self).explode_timer.is_none(),
        ensures
            *final(self) == old(self).moved(),
            final(self).wf(),
    {
        let mut dist_moved: i16 = 1;
        let mut next_pos = self.pos.moved(self.dir);
        let mut done: u16 = 1;
        while done < self.speed
            invariant
                *self == *old(self),
                self.can_move(),
                dist_moved == done,
                1 <= done <= self.stride(),
                next_pos == self.pos.spec_moved_by(self.dir, done as int),
            decreases self.speed - done,
        {
            next_pos = next_pos.moved(self.dir);
            dist_moved = dist_moved + 1;
            done = done + 1;
        }
        if is_on_board(next_pos.x, next_pos.y, self.w, self.h) {
            self.prev = self.pos;
            self.pos = next_pos;
        } else if self.is_bounce {
            self.dir = self.dir.opposite();
        } else {
            self.is_alive = false;
        }
        match self.range {
            Some(r) => {
                let left = r - dist_moved;
                self.range = Some(left);
                if self.is_explodable && left <= 0 {
                    self.explode_timer = Some(EXPLODE_FRAMES);
                }
            },
            None => {},
        }
    }

    fn update_explosion(&mut self)
        requires
            old(self).wf(),
            old(self).is_alive,
            old(self).explode_timer.is_some(),
        ensures
            *final(self) == old(self).burnt(),
            final(self).wf(),
    {
        let left = match self.explode_timer {
            Some(t) => t - 1,
            None => 0,
        };
        self.explode_timer = Some(left);
        if left == 0 {
            self.is_alive = false;
        }
    }

    /// Whether this entity hits the place where `p` is.
    pub fn does_hit(&self, p: &Entity) -> (r: bool)
        requires
            self.is_alive ==> self.can_look_back(),
            self.is_alive && self.spec_is_exploding() ==> self.can_explode(),
        ensures
            r == self.spec_hits(p.pos),
    {
        if !self.is_alive {
            return false;
        }
        let opposite = self.dir.opposite();
        let mut check_pos = self.pos;
        assert(check_pos == self.pos.spec_moved_by(opposite, 0));
        if check_pos.does_hit(p.pos) {
            return true;
        }
        // an entity that took more than one step has passed over the
        // cells behind it
        let mut k: u16 = 1;
        while k < self.speed
            invariant
                self.is_alive,
                self.can_look_back(),
                1 <= k <= self.stride(),
                opposite == self.dir.spec_opposite(),
                check_pos == self.pos.spec_moved_by(opposite, k - 1),
                forall|j: int|
                    0 <= j < k ==> !(#[trigger] self.pos.spec_moved_by(opposite, j)).spec_does_hit(p.pos),
            decreases self.speed - k,
        {
            check_pos = check_pos.moved(opposite);
            assert(check_pos == self.pos.spec_moved_by(opposite, k as int));
            if check_pos.does_hit(p.pos) {
                return true;
            }
            k = k + 1;
        }
        assert(!self.sweeps(p.pos));
        if self.is_exploding() {
            let cells = self.explosion();
            let n = cells.len();
            let mut i: usize = 0;
            while i < n
                invariant
                    self.is_alive,
                    self.spec_is_exploding(),
                    !self.sweeps(p.pos),
                    cells@ == self.spec_explosion(),
                    n == cells@.len(),
                    0 <= i <= n,
                    forall|j: int| 0 <= j < i ==> !(#[trigger] cells@[j]).spec_does_hit(p.pos),
                decreases n - i,
            {
                if cells[i].does_hit(p.pos) {
                    proof {
                        lemma_explosion_cells(self);
                        assert(cells@.contains(cells@[i as int]));
                    }
                    return true;
                }
                i += 1;
            }
            assert(!self.blasts(p.pos.x, p.pos.y)) by {
                lemma_explosion_cells(self);
                if self.blasts(p.pos.x, p.pos.y) {
                    let c = Pos { x: p.pos.x, y: p.pos.y };
                    assert(cells@.contains(c));
                    let at = choose|at: int| 0 <= at < cells@.len() && cells@[at] == c;
                    assert(cells@[at].spec_does_hit(p.pos));
                }
            }
        }
        false
    }

    /// Takes a hit: an entity with lives loses one, and dies with its
    /// last.
    pub fn hit(&mut self)
        requires
            old(self).lives != Some(0usize),
        ensures
            *final(self) == old(self).struck(),
    {
        match self.lives {
            None => {},
            Some(l) => {
                let left = l - 1;
                self.lives = Some(left);
                if left == 0 {
                    self.is_alive = false;
                }
                self.is_hit = true;
            },
        }
    }

    /// Whether the entity is exploding.
    pub fn is_exploding(&self) -> (r: bool)
        ensures
            r == self.spec_is_exploding(),
    {
        self.explode_timer.is_some()
    }

    /// The positions that an explosion of this entity reaches.
    pub fn explosion(&self) -> (v: Vec<Pos>)
        requires
            self.is_alive ==> self.can_explode(),
        ensures
            v@ == self.spec_explosion(),
    {
        let mut v: Vec<Pos> = Vec::new();
        if !self.is_alive {
            return v;
        }
        let mut a: u8 = 0;
        while a < 5
            invariant
                self.can_explode(),
                0 <= a <= 5,
                v@ == self.blast_upto((5 * a) as nat),
            decreases 5 - a,
        {
            let mut b: u8 = 0;
            while b < 5
                invariant
                    self.can_explode(),
                    0 <= a < 5,
                    0 <= b <= 5,
                    v@ == self.blast_upto((5 * a + b) as nat),
                decreases 5 - b,
            {
                let ghost k: int = 5 * a + b;
                assert(k / 5 == a && k % 5 == b);
                let x: i32 = self.pos.x as i32 - 2 + a as i32;
                let y: i32 = self.pos.y as i32 - 2 + b as i32;
                if 0 <= x && 0 <= y {
                    if is_on_board(x as u16, y as u16, self.w, self.h) {
                        v.push(Pos { x: x as u16, y: y as u16 });
                    }
                }
                b = b + 1;
            }
            a = a + 1;
        }
        v
    }
}

/// What the explosion of a living entity reaches: the cells that are no
/// more than two columns and two rows away from it and on the board, and
/// no others.
pub proof fn lemma_explosion_cells(e: &Entity)
    requires
        e.is_alive,
    ensures
        forall|c: Pos| e.spec_explosion().contains(c) <==> e.blasts(c.x, c.y),
{
    lemma_entity_blast(e, 25);
    assert forall|c: Pos| e.spec_explosion().contains(c) <==> e.blasts(c.x, c.y) by {
        if e.spec_explosion().contains(c) {
            let j = choose|j: int| 0 <= j < 25 && e.in_blast(j) && c == e.blast_cell(j);
            assert(0 <= j / 5 < 5 && 0 <= j % 5 < 5);
        }
        if e.blasts(c.x, c.y) {
            let j = (c.x - e.pos.x + 2) * 5 + (c.y - e.pos.y + 2);
            assert(j / 5 == c.x - e.pos.x + 2 && j % 5 == c.y - e.pos.y + 2);
            assert(0 <= j < 25 && e.in_blast(j) && c == e.blast_cell(j));
        }
    }
}

/// The cells among the first `k` of the square round an entity are those
/// of them that are on the board.
proof fn lemma_entity_blast(e: &Entity, k: nat)
    requires
        k <= 25,
    ensures
        forall|c: Pos|
            e.blast_upto(k).contains(c) <==> exists|j: int| 0 <= j < k && e.in_blast(j) && c == e.blast_cell(j),
    decreases k,
{
    if k > 0 {
        lemma_entity_blast(e, (k - 1) as nat);
        let before = e.blast_upto((k - 1) as nat);
        let now = e.blast_upto(k);
        assert forall|c: Pos|
            now.contains(c) <==> exists|j: int| 0 <= j < k && e.in_blast(j) && c == e.blast_cell(j) by {
            if now.contains(c) {
                let at = choose|at: int| 0 <= at < now.len() && now[at] == c;
                if at < before.len() {
                    assert(before.contains(c));
                    let j = choose|j: int| 0 <= j < k - 1 && e.in_blast(j) && c == e.blast_cell(j);
                    assert(0 <= j < k && e.in_blast(j) && c == e.blast_cell(j));
                } else {
                    assert(e.in_blast(k - 1) && c == e.blast_cell(k - 1));
                }
            }
            if exists|j: int| 0 <= j < k && e.in_blast(j) && c == e.blast_cell(j) {
                let j = choose|j: int| 0 <= j < k && e.in_blast(j) && c == e.blast_cell(j);
                if j < k - 1 {
                    assert(before.contains(c));
                    let at = choose|at: int| 0 <= at < before.len() && before[at] == c;
                    assert(now[at] == c);
                } else {
                    assert(now[now.len() - 1] == c);
                }
            }
        }
    }
}

} // verus!
