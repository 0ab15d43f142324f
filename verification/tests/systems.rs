use rust_console_game::dir::Dir;
use rust_console_game::factory::{new_missile, new_ray};
use rust_console_game::pos::Pos;
use rust_console_game::setup::to_start_positions;
use rust_console_game::systems::{
    collision_system, energy_system, explode_system, explosion, lifetime_system, move_system,
    pipeline, tick, System,
};
use rust_console_game::world::{Lifetime, World, ENERGY_SHIELD, MAX_ENERGY};

fn at(x: u32, y: u32) -> Pos {
    Pos { x, y, invalid: false }
}

fn flagged(x: u32, y: u32) -> Pos {
    Pos { x, y, invalid: true }
}

fn board() -> World {
    let mut w = World::new(80, 24);
    to_start_positions(&mut w);
    w
}

fn lengths_agree(w: &World) -> bool {
    let n = w.alive.len();
    w.name.len() == n
        && w.lifetime.len() == n
        && w.sprite.len() == n
        && w.velocity.len() == n
        && w.position.len() == n
        && w.energy.len() == n
        && w.shield.len() == n
        && w.bounce.len() == n
        && w.explode.len() == n
        && w.active_weapon.len() == n
}

#[test]
fn move_advances_by_the_speed() {
    let mut w = board();
    w.velocity[0] = (1, Dir::Right);
    w.velocity[1] = (3, Dir::Up);
    move_system(&mut w);
    assert_eq!(w.position[0], vec![at(21, 12)]);
    assert_eq!(w.position[1], vec![at(60, 9)]);
    assert_eq!(w.velocity[0], (1, Dir::Right));
    assert!(w.alive[0] && w.alive[1]);
}

#[test]
fn move_leaves_the_still_and_the_dead() {
    let mut w = board();
    w.velocity[0] = (0, Dir::Right);
    w.velocity[1] = (1, Dir::Left);
    w.alive[1] = false;
    move_system(&mut w);
    assert_eq!(w.position[0], vec![at(20, 12)]);
    assert_eq!(w.position[1], vec![at(60, 12)]);
    assert!(!w.alive[1]);
}

#[test]
fn move_without_direction_clears_the_flag() {
    let mut w = board();
    w.position[0][0] = flagged(20, 12);
    move_system(&mut w);
    assert_eq!(w.position[0], vec![at(20, 12)]);
    assert_eq!(w.velocity[0], (1, Dir::Still));
}

#[test]
fn move_bounces_a_player_off_the_border() {
    let mut w = board();
    w.position[0][0] = at(78, 12);
    w.velocity[0] = (1, Dir::Right);
    move_system(&mut w);
    assert_eq!(w.velocity[0], (1, Dir::Left));
    assert_eq!(w.position[0], vec![flagged(78, 12)]);
    assert!(w.alive[0]);
    // the next tick takes it back onto the board
    move_system(&mut w);
    assert_eq!(w.position[0], vec![at(77, 12)]);
    assert_eq!(w.velocity[0], (1, Dir::Left));
}

#[test]
fn move_bounces_in_every_direction() {
    for (start, dir) in [
        (at(1, 12), Dir::Left),
        (at(78, 12), Dir::Right),
        (at(10, 2), Dir::Up),
        (at(10, 21), Dir::Down),
    ] {
        let mut w = board();
        w.position[0][0] = start;
        w.velocity[0] = (1, dir);
        move_system(&mut w);
        assert_eq!(w.velocity[0], (1, dir.opposite()));
        assert_eq!(w.position[0], vec![flagged(start.x, start.y)]);
        assert!(w.alive[0]);
    }
}

#[test]
fn move_bounces_off_an_obstacle() {
    let mut w = board();
    w.position[0][0] = at(39, 10);
    w.velocity[0] = (1, Dir::Right);
    move_system(&mut w);
    assert_eq!(w.velocity[0], (1, Dir::Left));
    assert_eq!(w.position[0], vec![flagged(39, 10)]);
}

#[test]
fn move_checks_every_step_of_a_walk() {
    let mut w = board();
    // three steps would jump the wall; the second one lands on it
    w.position[0][0] = at(38, 10);
    w.velocity[0] = (3, Dir::Right);
    move_system(&mut w);
    assert_eq!(w.position[0], vec![flagged(38, 10)]);
    assert_eq!(w.velocity[0], (3, Dir::Left));
}

#[test]
fn move_keeps_a_missile_alive_while_one_cell_moves() {
    let mut w = board();
    new_missile(&mut w, at(76, 12), Dir::Right, 1);
    move_system(&mut w);
    assert_eq!(w.position[10], vec![at(78, 12), flagged(77, 12)]);
    assert!(w.alive[10]);
    move_system(&mut w);
    assert_eq!(w.position[10], vec![flagged(78, 12), flagged(77, 12)]);
    assert!(!w.alive[10]);
    assert_eq!(w.velocity[10], (2, Dir::Right));
}

#[test]
fn move_leaves_obstacles_alone() {
    let mut w = board();
    move_system(&mut w);
    for i in 2..10 {
        assert_eq!(w.position[i], vec![at(40, 6 + i as u32)]);
        assert!(w.alive[i]);
    }
}

#[test]
fn lifetime_counts_down_by_one() {
    let mut w = board();
    new_missile(&mut w, at(20, 12), Dir::Right, 1);
    assert_eq!(w.lifetime[10], Lifetime::Temporary(13));
    for left in (1..13).rev() {
        lifetime_system(&mut w);
        assert_eq!(w.lifetime[10], Lifetime::Temporary(left));
        assert!(w.alive[10]);
    }
    lifetime_system(&mut w);
    assert_eq!(w.lifetime[10], Lifetime::Temporary(0));
    assert!(!w.alive[10]);
    // and never comes back
    lifetime_system(&mut w);
    assert_eq!(w.lifetime[10], Lifetime::Temporary(0));
    assert!(!w.alive[10]);
}

#[test]
fn lifetime_leaves_players_obstacles_and_the_dead() {
    let mut w = board();
    new_missile(&mut w, at(20, 12), Dir::Right, 1);
    w.alive[10] = false;
    lifetime_system(&mut w);
    assert_eq!(w.lifetime[0], Lifetime::Permanent);
    assert_eq!(w.lifetime[2], Lifetime::Solid);
    assert_eq!(w.lifetime[10], Lifetime::Temporary(13));
    assert!(w.alive[0] && w.alive[2]);
    assert!(!w.alive[10]);
}

#[test]
fn lifetime_with_nothing_left_kills() {
    let mut w = board();
    new_ray(&mut w, at(20, 12), Dir::Right, 1);
    w.lifetime[10] = Lifetime::Temporary(0);
    lifetime_system(&mut w);
    assert_eq!(w.lifetime[10], Lifetime::Temporary(0));
    assert!(!w.alive[10]);
}

#[test]
fn collision_kills_both_unshielded() {
    let mut w = board();
    w.position[1][0] = at(20, 12);
    collision_system(&mut w);
    assert!(!w.alive[0]);
    assert!(!w.alive[1]);
    for i in 2..10 {
        assert!(w.alive[i]);
    }
}

#[test]
fn collision_spares_the_shielded() {
    let mut w = board();
    w.position[1][0] = at(20, 12);
    w.shield[0] = true;
    collision_system(&mut w);
    assert!(w.alive[0]);
    assert!(!w.alive[1]);

    let mut w = board();
    w.position[1][0] = at(20, 12);
    w.shield[1] = true;
    collision_system(&mut w);
    assert!(!w.alive[0]);
    assert!(w.alive[1]);

    let mut w = board();
    w.position[1][0] = at(20, 12);
    w.shield[0] = true;
    w.shield[1] = true;
    collision_system(&mut w);
    assert!(w.alive[0]);
    assert!(w.alive[1]);
}

#[test]
fn collision_ignores_the_flag_of_a_cell() {
    let mut w = board();
    w.position[1][0] = flagged(20, 12);
    collision_system(&mut w);
    assert!(!w.alive[0]);
    assert!(!w.alive[1]);
}

#[test]
fn collision_without_contact_changes_nothing() {
    let mut w = board();
    new_missile(&mut w, at(30, 12), Dir::Right, 1);
    collision_system(&mut w);
    for i in 0..11 {
        assert!(w.alive[i]);
    }
}

#[test]
fn collision_skips_the_dead() {
    let mut w = board();
    w.position[1][0] = at(20, 12);
    w.alive[1] = false;
    collision_system(&mut w);
    assert!(w.alive[0]);
}

#[test]
fn collision_looks_at_every_cell() {
    let mut w = board();
    new_missile(&mut w, at(59, 12), Dir::Right, 1);
    // the second cell of the missile lies on the second player
    collision_system(&mut w);
    assert!(w.alive[0]);
    assert!(!w.alive[1]);
    assert!(!w.alive[10]);
}

#[test]
fn collision_resolves_only_the_first_pair() {
    let mut w = board();
    new_missile(&mut w, at(20, 12), Dir::Right, 1);
    new_missile(&mut w, at(60, 12), Dir::Left, 2);
    // (0, 10) comes before (1, 11)
    collision_system(&mut w);
    assert!(!w.alive[0]);
    assert!(!w.alive[10]);
    assert!(w.alive[1]);
    assert!(w.alive[11]);
    // the other pair waits for the next pass
    collision_system(&mut w);
    assert!(!w.alive[1]);
    assert!(!w.alive[11]);
}

#[test]
fn collision_of_a_shielded_pair_hides_later_pairs() {
    let mut w = board();
    new_ray(&mut w, at(20, 12), Dir::Right, 1);
    new_missile(&mut w, at(60, 12), Dir::Left, 2);
    w.shield[0] = true;
    collision_system(&mut w);
    // first pair: player 1 and the ray, both shielded
    assert!(w.alive[0]);
    assert!(w.alive[10]);
    assert!(w.alive[1]);
    assert!(w.alive[11]);
}

#[test]
fn energy_reload_adds_one_up_to_the_cap() {
    let mut w = board();
    w.energy[0] = 50;
    w.energy[1] = MAX_ENERGY;
    energy_system(&mut w);
    assert_eq!(w.energy[0], 51);
    assert_eq!(w.energy[1], MAX_ENERGY);
    w.energy[0] = MAX_ENERGY - 1;
    energy_system(&mut w);
    assert_eq!(w.energy[0], MAX_ENERGY);
}

#[test]
fn energy_shield_upkeep() {
    let mut w = board();
    w.energy[0] = 50;
    w.shield[0] = true;
    energy_system(&mut w);
    assert_eq!(w.energy[0], 48);
    assert!(w.shield[0]);
    w.energy[1] = MAX_ENERGY;
    w.shield[1] = true;
    energy_system(&mut w);
    assert_eq!(w.energy[1], MAX_ENERGY - ENERGY_SHIELD);
    assert!(w.shield[1]);
}

#[test]
fn energy_shield_comes_down_when_it_cannot_be_paid() {
    for low in 0..ENERGY_SHIELD {
        let mut w = board();
        w.energy[0] = low;
        w.shield[0] = true;
        energy_system(&mut w);
        assert!(!w.shield[0]);
        assert_eq!(w.energy[0], low + 1);
    }
    // just enough: more than the upkeep after the reload
    let mut w = board();
    w.energy[0] = ENERGY_SHIELD;
    w.shield[0] = true;
    energy_system(&mut w);
    assert!(w.shield[0]);
    assert_eq!(w.energy[0], 1);
}

#[test]
fn energy_reaches_every_entity() {
    let mut w = board();
    new_ray(&mut w, at(20, 12), Dir::Right, 1);
    w.alive[10] = false;
    energy_system(&mut w);
    // obstacles and rays begin without energy and cannot keep a shield
    for i in 2..11 {
        assert_eq!(w.energy[i], 1);
        assert!(!w.shield[i]);
    }
}

#[test]
fn explosion_in_the_open_has_25_cells() {
    let w = board();
    let cells = explosion(&w, at(10, 10));
    let mut expected = Vec::new();
    for x in 8..=12 {
        for y in 8..=12 {
            expected.push(at(x, y));
        }
    }
    assert_eq!(cells, expected);
}

#[test]
fn explosion_in_the_corner_is_clipped() {
    let w = board();
    assert_eq!(
        explosion(&w, at(1, 1)),
        vec![at(1, 2), at(1, 3), at(2, 2), at(2, 3), at(3, 2), at(3, 3)]
    );
    assert_eq!(
        explosion(&w, at(1, 2)),
        vec![
            at(1, 2),
            at(1, 3),
            at(1, 4),
            at(2, 2),
            at(2, 3),
            at(2, 4),
            at(3, 2),
            at(3, 3),
            at(3, 4)
        ]
    );
    assert_eq!(explosion(&w, at(0, 0)), vec![at(1, 2), at(2, 2)]);
    assert_eq!(
        explosion(&w, at(79, 23)),
        vec![at(77, 21), at(78, 21)]
    );
}

#[test]
fn explosion_spares_obstacles() {
    let w = board();
    let cells = explosion(&w, at(39, 9));
    assert_eq!(cells.len(), 21);
    for c in &cells {
        assert!(w.is_on_board(*c));
        assert!(37 <= c.x && c.x <= 41 && 7 <= c.y && c.y <= 11);
    }
    assert!(cells.contains(&at(40, 7)));
    assert!(!cells.contains(&at(40, 8)));
    assert!(cells.contains(&at(41, 9)));
}

#[test]
fn explosion_far_from_the_board_is_empty() {
    let w = board();
    assert_eq!(explosion(&w, at(500, 500)), Vec::<Pos>::new());
    assert_eq!(explosion(&w, at(u32::MAX, u32::MAX)), Vec::<Pos>::new());
}

#[test]
fn explosion_ignores_the_flag_of_the_centre() {
    let w = board();
    assert_eq!(explosion(&w, flagged(10, 10)), explosion(&w, at(10, 10)));
}

#[test]
fn explode_begins_within_the_window() {
    let mut w = board();
    new_missile(&mut w, at(20, 12), Dir::Right, 1);
    w.lifetime[10] = Lifetime::Temporary(3);
    explode_system(&mut w);
    assert_eq!(w.explode[10], (true, false));
    assert_eq!(w.position[10], vec![at(20, 12), at(21, 12)]);
    w.lifetime[10] = Lifetime::Temporary(2);
    explode_system(&mut w);
    assert_eq!(w.explode[10], (true, true));
    assert_eq!(w.velocity[10], (0, Dir::Still));
    assert_eq!(w.position[10], explosion(&w, at(20, 12)));
    assert_eq!(w.position[10].len(), 25);
    assert_eq!(w.lifetime[10], Lifetime::Temporary(2));
    assert!(w.alive[10]);
}

#[test]
fn explode_happens_once() {
    let mut w = board();
    new_missile(&mut w, at(20, 12), Dir::Right, 1);
    w.lifetime[10] = Lifetime::Temporary(2);
    explode_system(&mut w);
    let first = w.position[10].clone();
    w.lifetime[10] = Lifetime::Temporary(1);
    explode_system(&mut w);
    assert_eq!(w.position[10], first);
    assert_eq!(w.explode[10], (true, true));
}

#[test]
fn explode_leaves_what_does_not_explode() {
    let mut w = board();
    new_ray(&mut w, at(70, 12), Dir::Right, 1);
    w.lifetime[10] = Lifetime::Temporary(1);
    explode_system(&mut w);
    assert_eq!(w.explode[10], (false, false));
    assert_eq!(w.position[10].len(), 9);
    assert_eq!(w.velocity[10], (1, Dir::Right));
    assert_eq!(w.position[0], vec![at(20, 12)]);
}

#[test]
fn pipeline_has_the_five_systems_in_order() {
    assert_eq!(
        pipeline(),
        vec![
            System::Move,
            System::Lifetime,
            System::Collision,
            System::EnergyReload(0),
            System::Explode
        ]
    );
}

#[test]
fn step_energy_reload_runs_once_in_five() {
    let mut w = board();
    w.energy[0] = 10;
    let mut s = System::EnergyReload(0);
    let mut seen = Vec::new();
    for _ in 0..11 {
        s.step(&mut w);
        seen.push((s, w.energy[0]));
    }
    assert_eq!(
        seen,
        vec![
            (System::EnergyReload(1), 11),
            (System::EnergyReload(2), 11),
            (System::EnergyReload(3), 11),
            (System::EnergyReload(4), 11),
            (System::EnergyReload(0), 11),
            (System::EnergyReload(1), 12),
            (System::EnergyReload(2), 12),
            (System::EnergyReload(3), 12),
            (System::EnergyReload(4), 12),
            (System::EnergyReload(0), 12),
            (System::EnergyReload(1), 13),
        ]
    );
}

#[test]
fn step_energy_reload_with_a_large_phase() {
    let mut w = board();
    let mut s = System::EnergyReload(u32::MAX);
    s.step(&mut w);
    // 4294967296 is one more than a multiple of five
    assert_eq!(s, System::EnergyReload(1));
    assert_eq!(w.energy[0], MAX_ENERGY);
}

#[test]
fn step_runs_the_system_it_names() {
    let mut w = board();
    w.velocity[0] = (1, Dir::Right);
    let mut s = System::Move;
    s.step(&mut w);
    assert_eq!(s, System::Move);
    assert_eq!(w.position[0], vec![at(21, 12)]);

    new_missile(&mut w, at(30, 12), Dir::Right, 1);
    let mut s = System::Lifetime;
    s.step(&mut w);
    assert_eq!(w.lifetime[10], Lifetime::Temporary(12));

    w.lifetime[10] = Lifetime::Temporary(2);
    let mut s = System::Explode;
    s.step(&mut w);
    assert_eq!(w.explode[10], (true, true));

    w.position[1][0] = at(21, 12);
    let mut s = System::Collision;
    s.step(&mut w);
    assert!(!w.alive[0] && !w.alive[1]);
}

#[test]
fn tick_runs_move_before_lifetime_before_explode() {
    let mut w = board();
    new_missile(&mut w, at(30, 5), Dir::Right, 1);
    w.lifetime[10] = Lifetime::Temporary(3);
    let mut systems = pipeline();
    tick(&mut systems, &mut w);
    // moved two cells, aged to two ticks, and so exploded where it got to
    assert_eq!(w.lifetime[10], Lifetime::Temporary(2));
    assert_eq!(w.explode[10], (true, true));
    assert_eq!(w.position[10], explosion(&w, at(32, 5)));
    assert_eq!(w.velocity[10], (0, Dir::Still));
    assert!(w.alive[10]);
    assert_eq!(systems[3], System::EnergyReload(1));
    // the explosion stays for what is left of the missile's life
    tick(&mut systems, &mut w);
    assert_eq!(w.lifetime[10], Lifetime::Temporary(1));
    assert!(w.alive[10]);
    tick(&mut systems, &mut w);
    assert_eq!(w.lifetime[10], Lifetime::Temporary(0));
    assert!(!w.alive[10]);
}

#[test]
fn tick_keeps_components_aligned() {
    let mut w = board();
    let mut systems = pipeline();
    new_missile(&mut w, at(20, 12), Dir::Right, 1);
    new_ray(&mut w, at(60, 12), Dir::Left, 2);
    new_missile(&mut w, at(30, 5), Dir::Down, 1);
    for _ in 0..40 {
        tick(&mut systems, &mut w);
        assert!(lengths_agree(&w));
        assert_eq!(w.alive.len(), 13);
    }
    assert!(!w.alive[10] && !w.alive[11] && !w.alive[12]);
}

#[test]
fn tick_keeps_the_living_on_the_board() {
    let mut w = board();
    let mut systems = pipeline();
    w.velocity[0] = (1, Dir::Right);
    w.velocity[1] = (1, Dir::Down);
    new_missile(&mut w, at(30, 5), Dir::Down, 1);
    new_ray(&mut w, at(60, 12), Dir::Left, 2);
    for _ in 0..60 {
        tick(&mut systems, &mut w);
        for i in 0..w.alive.len() {
            if w.alive[i] && !w.explode[i].1 && w.lifetime[i] != Lifetime::Solid {
                for c in &w.position[i] {
                    assert!(w.is_on_board(at(c.x, c.y)));
                }
            }
        }
    }
}

#[test]
fn the_dead_stay_dead() {
    let mut w = board();
    let mut systems = pipeline();
    new_missile(&mut w, at(76, 12), Dir::Right, 1);
    tick(&mut systems, &mut w);
    tick(&mut systems, &mut w);
    assert!(!w.alive[10]);
    let left = w.lifetime[10];
    for _ in 0..20 {
        tick(&mut systems, &mut w);
        assert!(!w.alive[10]);
        assert_eq!(w.lifetime[10], left);
    }
}

#[test]
fn an_explosion_kills_who_stands_in_it() {
    let mut w = board();
    new_missile(&mut w, at(20, 10), Dir::Right, 1);
    w.lifetime[10] = Lifetime::Temporary(3);
    let mut systems = pipeline();
    tick(&mut systems, &mut w);
    // the explosion round (22, 10) reaches the first player on (20, 12)
    assert!(w.position[10].contains(&at(20, 12)));
    assert!(w.alive[0]);
    tick(&mut systems, &mut w);
    assert!(!w.alive[0]);
    assert!(!w.alive[10]);
    assert!(w.alive[1]);
}
