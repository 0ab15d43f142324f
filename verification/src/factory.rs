//! The four kinds of entity, and how each enters the world.

use vstd::prelude::*;
use vstd::string::StringExecFns;
use crate::dir::Dir;
use crate::pos::Pos;
use crate::text::{numbered, numbered_string};
use crate::weapon::Weapon;
use crate::world::{Lifetime, Row, Sprite, SpriteModel, World, WorldModel, LIFETIME_RAY, MAX_ENERGY};
use crate::world::{lemma_push_placed, lemma_push_row};

verus! {

/// The row of a new player: never ages, full of energy, bounces off the
/// borders, carries missiles, and waits on the placeholder cell until the
/// round places it.
pub open spec fn player_row(name: Seq<char>, texture: Seq<char>, color_idx: usize) -> Row {
    Row {
        name,
        alive: true,
        lifetime: Lifetime::Permanent,
        sprite: SpriteModel {
            color_idx,
            is_bold: true,
            texture_vertical: texture,
            texture_horizontal: texture,
            texture_explosion: None,
        },
        velocity: (1, Dir::Still),
        position: seq![Pos::spec_nil()],
        energy: MAX_ENERGY,
        shield: false,
        bounce: true,
        explode: (false, false),
        active_weapon: Some(Weapon::Missile),
    }
}

/// How many ticks a missile fired in direction `dir` flies.
pub open spec fn missile_range(m: WorldModel, dir: Dir) -> u32 {
    if dir.spec_is_vertical() {
        m.missile_range_vertical
    } else {
        m.missile_range_horizontal
    }
}

/// The row of a new missile: two cells, the second one step ahead of the
/// first, two steps per tick, due to explode.
pub open spec fn missile_row(m: WorldModel, start: Pos, dir: Dir, color_idx: usize) -> Row {
    Row {
        name: numbered("Missile"@, m.len()),
        alive: true,
        lifetime: Lifetime::Temporary(missile_range(m, dir)),
        sprite: SpriteModel {
            color_idx,
            is_bold: false,
            texture_vertical: "*"@,
            texture_horizontal: "*"@,
            texture_explosion: Some("#"@),
        },
        velocity: (2, dir),
        position: seq![start, start.spec_moved(1, dir)],
        energy: 0,
        shield: false,
        bounce: false,
        explode: (true, false),
        active_weapon: None,
    }
}

/// A missile can be made when it has a direction and its second cell is on
/// the board.
pub open spec fn missile_fits(m: WorldModel, start: Pos, dir: Dir) -> bool {
    dir != Dir::Still && m.on_board(start.spec_moved(1, dir))
}

/// The number of cells from `start` to the last cell inside the borders in
/// direction `dir`, both counted; none where `start` lies beyond that cell,
/// and none without a direction.
pub open spec fn dist_to_edge(m: WorldModel, start: Pos, dir: Dir) -> nat {
    let d: int = match dir {
        Dir::Left => start.x as int,
        Dir::Right => m.width - 1 - start.x,
        Dir::Up => start.y - 1,
        Dir::Down => m.height - 2 - start.y,
        Dir::Still => 0,
    };
    if d > 0 {
        d as nat
    } else {
        0
    }
}

/// A ray can be made when it has a direction and a cell to take: its start
/// does not lie beyond the last cell inside the borders.
pub open spec fn ray_fits(m: WorldModel, start: Pos, dir: Dir) -> bool {
    dir != Dir::Still && dist_to_edge(m, start, dir) > 0
}

/// The cells of a ray from `start` in direction `dir`.
pub open spec fn ray_cells(m: WorldModel, start: Pos, dir: Dir) -> Seq<Pos> {
    ray_line(m, start, dir, dist_to_edge(m, start, dir))
}

/// The straight line of at most `n` cells that starts at `p`: each further
/// cell is one step on, and the line ends before the first cell that is off
/// the board.
pub open spec fn ray_line(m: WorldModel, p: Pos, dir: Dir, n: nat) -> Seq<Pos>
    decreases n,
{
    if n == 0 {
        Seq::empty()
    } else {
        let q = p.spec_moved(1, dir);
        if m.on_board(q) {
            seq![p] + ray_line(m, q, dir, (n - 1) as nat)
        } else {
            seq![p]
        }
    }
}

/// The row of a new ray: the line of cells from its start to the border,
/// one step per tick, shielded so that contact does not destroy it.
pub open spec fn ray_row(m: WorldModel, start: Pos, dir: Dir, color_idx: usize) -> Row {
    Row {
        name: numbered("Ray"@, m.len()),
        alive: true,
        lifetime: Lifetime::Temporary(LIFETIME_RAY),
        sprite: SpriteModel {
            color_idx,
            is_bold: false,
            texture_vertical: "|"@,
            texture_horizontal: "-"@,
            texture_explosion: None,
        },
        velocity: (1, dir),
        position: ray_cells(m, start, dir),
        energy: 0,
        shield: true,
        bounce: false,
        explode: (false, false),
        active_weapon: None,
    }
}

/// The row of a new obstacle: one cell, shielded, never moving.
pub open spec fn bar_row(m: WorldModel, start: Pos, dir: Dir) -> Row {
    Row {
        name: numbered("Bar"@, m.len()),
        alive: true,
        lifetime: Lifetime::Solid,
        sprite: SpriteModel {
            color_idx: 0,
            is_bold: false,
            texture_vertical: "┃"@,
            texture_horizontal: "━"@,
            texture_explosion: Some("#"@),
        },
        velocity: (0, dir),
        position: seq![start],
        energy: 0,
        shield: true,
        bounce: false,
        explode: (false, false),
        active_weapon: None,
    }
}

impl WorldModel {
    /// The world with a missile added if it fits, and as it is if not.
    pub open spec fn with_missile(self, start: Pos, dir: Dir, color_idx: usize) -> WorldModel {
        if missile_fits(self, start, dir) {
            self.push(missile_row(self, start, dir, color_idx))
        } else {
            self
        }
    }

    /// The world with a ray added if it fits, and as it is if not.
    pub open spec fn with_ray(self, start: Pos, dir: Dir, color_idx: usize) -> WorldModel {
        if ray_fits(self, start, dir) {
            self.push(ray_row(self, start, dir, color_idx))
        } else {
            self
        }
    }

    /// The world with an obstacle added.
    pub open spec fn with_bar(self, start: Pos, dir: Dir) -> WorldModel {
        self.push(bar_row(self, start, dir))
    }
}

/// Adds a player and gives its id.
pub fn new_player(w: &mut World, name: String, texture: String, color_idx: usize) -> (id: usize)
    requires
        old(w)@.consistent(),
    ensures
        id == old(w)@.len(),
        final(w)@ == old(w)@.push(player_row(name@, texture@, color_idx)),
        final(w)@.consistent(),
        final(w)@.is_player(id as int),
        old(w)@.placed() ==> final(w)@.placed(),
{
    let sprite = Sprite {
        color_idx,
        is_bold: true,
        texture_vertical: texture.clone(),
        texture_horizontal: texture,
        texture_explosion: None,
    };
    let mut position: Vec<Pos> = Vec::new();
    position.push(Pos::nil());
    proof {
        lemma_push_row(w@, player_row(name@, texture@, color_idx));
        lemma_push_placed(w@, player_row(name@, texture@, color_idx));
        assert(position@ =~= seq![Pos::spec_nil()]);
    }
    w.push_row(
        name,
        true,
        Lifetime::Permanent,
        sprite,
        (1, Dir::Still),
        position,
        MAX_ENERGY,
        false,
        true,
        (false, false),
        Some(Weapon::Missile),
    )
}

/// Adds a missile that starts at `start_pos` and flies in direction `dir`.
///
/// Nothing is added when the missile's second cell, one step ahead of the
/// first, is not on the board, or when there is no direction to fly in.
pub fn new_missile(w: &mut World, start_pos: Pos, dir: Dir, color_idx: usize)
    requires
        old(w)@.consistent(),
    ensures
        final(w)@ == old(w)@.with_missile(start_pos, dir, color_idx),
        !missile_fits(old(w)@, start_pos, dir) ==> *final(w) == *old(w),
        final(w)@.consistent(),
        old(w)@.wf() ==> final(w)@.wf(),
        old(w)@.placed() ==> final(w)@.placed(),
{
    let pos_2 = start_pos.moved(1, dir);
    if !w.is_on_board(pos_2) {
        return ;
    }
    let range = match dir {
        Dir::Up | Dir::Down => w.missile_range_vertical,
        Dir::Left | Dir::Right => w.missile_range_horizontal,
        Dir::Still => {
            return ;
        },
    };
    let name = numbered_string("Missile", w.alive.len() as u64);
    let sprite = Sprite {
        color_idx,
        is_bold: false,
        texture_vertical: String::from_str("*"),
        texture_horizontal: String::from_str("*"),
        texture_explosion: Some(String::from_str("#")),
    };
    let mut position: Vec<Pos> = Vec::new();
    position.push(start_pos);
    position.push(pos_2);
    proof {
        lemma_push_row(w@, missile_row(w@, start_pos, dir, color_idx));
        lemma_push_placed(w@, missile_row(w@, start_pos, dir, color_idx));
        assert(position@ =~= seq![start_pos, start_pos.spec_moved(1, dir)]);
    }
    w.push_row(
        name,
        true,
        Lifetime::Temporary(range),
        sprite,
        (2, dir),
        position,
        0,
        false,
        false,
        (true, false),
        None,
    );
}

/// A ray spans the board: from a start inside the borders and with a
/// direction it has at least one cell, it begins on its start, and the
/// step after its last cell leaves the board. The flag of the start plays
/// no part.
pub proof fn lemma_ray_spans(m: WorldModel, start: Pos, dir: Dir)
    requires
        m.in_interior(start.x, start.y),
        dir != Dir::Still,
    ensures
        ray_fits(m, start, dir),
        ray_cells(m, start, dir).len() > 0,
        ray_cells(m, start, dir)[0] == start,
        !m.on_board(ray_cells(m, start, dir).last().spec_moved(1, dir)),
    decreases dist_to_edge(m, start, dir),
{
    let n = dist_to_edge(m, start, dir);
    let q = start.spec_moved(1, dir);
    if m.on_board(q) {
        assert(dist_to_edge(m, q, dir) == n - 1);
        lemma_ray_spans(m, q, dir);
        let rest = ray_cells(m, q, dir);
        let line = ray_cells(m, start, dir);
        assert(line == seq![start] + rest);
        assert(line.last() == rest.last());
    }
}

/// Adds a ray that starts at `start_pos` and points in direction `dir`.
///
/// The ray takes the cells from `start_pos` to the last cell inside the
/// borders, and ends early before a cell that is off the board. Nothing
/// is added when there is no direction to point in, or when `start_pos`
/// lies beyond the last cell inside the borders, where there is no cell
/// to take.
pub fn new_ray(w: &mut World, start_pos: Pos, dir: Dir, color_idx: usize)
    requires
        old(w)@.consistent(),
    ensures
        final(w)@ == old(w)@.with_ray(start_pos, dir, color_idx),
        !ray_fits(old(w)@, start_pos, dir) ==> *final(w) == *old(w),
        old(w)@.in_interior(start_pos.x, start_pos.y) && dir != Dir::Still ==> {
            let cells = final(w)@.position[old(w)@.len() as int];
            &&& final(w)@.len() == old(w)@.len() + 1
            &&& cells.len() > 0
            &&& cells[0] == start_pos
            &&& !old(w)@.on_board(cells.last().spec_moved(1, dir))
        },
        final(w)@.consistent(),
        old(w)@.wf() ==> final(w)@.wf(),
        old(w)@.placed() ==> final(w)@.placed(),
{
    let dist_to_edge: u32 = match dir {
        Dir::Left => start_pos.x,
        Dir::Right => w.width.saturating_sub(1).saturating_sub(start_pos.x),
        Dir::Up => start_pos.y.saturating_sub(1),
        Dir::Down => w.height.saturating_sub(2).saturating_sub(start_pos.y),
        Dir::Still => 0,
    };
    assert(dist_to_edge == self::dist_to_edge(w@, start_pos, dir));
    if dist_to_edge == 0 {
        return ;
    }
    let ghost line = ray_cells(w@, start_pos, dir);
    let mut positions: Vec<Pos> = Vec::new();
    let mut p = start_pos;
    let mut k: u32 = 0;
    while k < dist_to_edge
        invariant_except_break
            k <= dist_to_edge,
            positions@ + ray_line(w@, p, dir, (dist_to_edge - k) as nat) == line,
        invariant
            w@.consistent(),
        ensures
            positions@ == line,
        decreases dist_to_edge - k,
    {
        let ghost rest = ray_line(w@, p, dir, (dist_to_edge - k) as nat);
        let ghost before = positions@;
        positions.push(p);
        p = p.moved(1, dir);
        if !w.is_on_board(p) {
            assert(positions@ =~= before + rest);
            break ;
        }
        k = k + 1;
        assert(positions@ + ray_line(w@, p, dir, (dist_to_edge - k) as nat) =~= before + rest);
    }
    let name = numbered_string("Ray", w.alive.len() as u64);
    let sprite = Sprite {
        color_idx,
        is_bold: false,
        texture_vertical: String::from_str("|"),
        texture_horizontal: String::from_str("-"),
        texture_explosion: None,
    };
    proof {
        lemma_push_row(w@, ray_row(w@, start_pos, dir, color_idx));
        lemma_push_placed(w@, ray_row(w@, start_pos, dir, color_idx));
        if w@.in_interior(start_pos.x, start_pos.y) {
            lemma_ray_spans(w@, start_pos, dir);
        }
    }
    w.push_row(
        name,
        true,
        Lifetime::Temporary(LIFETIME_RAY),
        sprite,
        (1, dir),
        positions,
        0,
        true,
        false,
        (false, false),
        None,
    );
}

/// Adds an obstacle on the cell `start_pos`.
pub fn new_bar(w: &mut World, start_pos: Pos, dir: Dir)
    requires
        old(w)@.consistent(),
    ensures
        final(w)@ == old(w)@.with_bar(start_pos, dir),
        final(w)@.consistent(),
        old(w)@.wf() ==> final(w)@.wf(),
        old(w)@.placed() ==> final(w)@.placed(),
{
    let name = numbered_string("Bar", w.alive.len() as u64);
    let sprite = Sprite {
        color_idx: 0,
        is_bold: false,
        texture_vertical: String::from_str("┃"),
        texture_horizontal: String::from_str("━"),
        texture_explosion: Some(String::from_str("#")),
    };
    let mut position: Vec<Pos> = Vec::new();
    position.push(start_pos);
    proof {
        lemma_push_row(w@, bar_row(w@, start_pos, dir));
        lemma_push_placed(w@, bar_row(w@, start_pos, dir));
        assert(position@ =~= seq![start_pos]);
    }
    w.push_row(
        name,
        true,
        Lifetime::Solid,
        sprite,
        (0, dir),
        position,
        0,
        true,
        false,
        (false, false),
        None,
    );
}

} // verus!
