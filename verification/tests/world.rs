use rust_console_game::dir::Dir;
use rust_console_game::factory::{new_bar, new_missile, new_player, new_ray};
use rust_console_game::pos::Pos;
use rust_console_game::setup::{
    alive_entities, both_players_alive, both_players_standing, to_start_positions,
};
use rust_console_game::weapon::Weapon;
use rust_console_game::world::{
    Lifetime, World, LIFETIME_RAY, MAX_ENERGY, MISSILE_MIN_RANGE, PLAYER_LIVES,
};

fn at(x: u32, y: u32) -> Pos {
    Pos { x, y, invalid: false }
}

fn lengths(w: &World) -> Vec<usize> {
    vec![
        w.name.len(),
        w.alive.len(),
        w.lifetime.len(),
        w.sprite.len(),
        w.velocity.len(),
        w.position.len(),
        w.energy.len(),
        w.shield.len(),
        w.bounce.len(),
        w.explode.len(),
        w.active_weapon.len(),
    ]
}

fn assert_aligned(w: &World, n: usize) {
    assert_eq!(lengths(w), vec![n; 11]);
}

#[test]
fn new_world_has_players_then_wall() {
    let w = World::new(80, 24);
    // two players and a wall over rows 8..16 of column 40
    assert_aligned(&w, 10);
    assert_eq!(w.width, 80);
    assert_eq!(w.height, 24);
    assert_eq!(w.player1, 0);
    assert_eq!(w.player2, 1);
    assert_eq!(w.p1_lives, PLAYER_LIVES);
    assert_eq!(w.p2_lives, PLAYER_LIVES);
    assert_eq!(w.name[0], "Player 1");
    assert_eq!(w.name[1], "Player 2");
    assert_eq!(w.lifetime[0], Lifetime::Permanent);
    assert_eq!(w.lifetime[1], Lifetime::Permanent);
    for i in 2..10 {
        assert_eq!(w.lifetime[i], Lifetime::Solid);
        assert_eq!(w.position[i], vec![at(40, 8 + (i as u32 - 2))]);
        assert_eq!(w.velocity[i], (0, Dir::Up));
        assert!(w.shield[i]);
        assert_eq!(w.name[i], format!("Bar {}", i));
    }
}

#[test]
fn new_world_missile_ranges_have_a_floor() {
    let small = World::new(30, 20);
    assert_eq!(small.missile_range_horizontal, MISSILE_MIN_RANGE);
    assert_eq!(small.missile_range_vertical, MISSILE_MIN_RANGE);
    let large = World::new(120, 60);
    assert_eq!(large.missile_range_horizontal, 20);
    assert_eq!(large.missile_range_vertical, 12);
    let edge = World::new(48, 40);
    assert_eq!(edge.missile_range_horizontal, 8);
    assert_eq!(edge.missile_range_vertical, 8);
}

#[test]
fn new_player_row() {
    let mut w = World::new(80, 24);
    let id = new_player(&mut w, "Guest".to_string(), "g".to_string(), 2);
    assert_eq!(id, 10);
    assert_aligned(&w, 11);
    assert_eq!(w.name[id], "Guest");
    assert!(w.alive[id]);
    assert_eq!(w.lifetime[id], Lifetime::Permanent);
    assert_eq!(w.velocity[id], (1, Dir::Still));
    assert_eq!(w.position[id], vec![Pos::nil()]);
    assert_eq!(w.energy[id], MAX_ENERGY);
    assert!(!w.shield[id]);
    assert!(w.bounce[id]);
    assert_eq!(w.explode[id], (false, false));
    assert_eq!(w.active_weapon[id], Some(Weapon::Missile));
    assert_eq!(w.sprite[id].color_idx, 2);
    assert!(w.sprite[id].is_bold);
    assert_eq!(w.sprite[id].texture_vertical, "g");
    assert_eq!(w.sprite[id].texture_horizontal, "g");
    assert_eq!(w.sprite[id].texture_explosion, None);
}

#[test]
fn is_on_board_knows_the_borders() {
    let w = World::new(80, 24);
    assert!(w.is_on_board(at(1, 2)));
    assert!(w.is_on_board(at(78, 21)));
    assert!(!w.is_on_board(at(0, 2)));
    assert!(!w.is_on_board(at(1, 1)));
    assert!(!w.is_on_board(at(79, 21)));
    assert!(!w.is_on_board(at(78, 22)));
    assert!(!w.is_on_board(at(1000, 1000)));
}

#[test]
fn is_on_board_refuses_flagged_cells() {
    let w = World::new(80, 24);
    assert!(w.is_on_board(at(10, 10)));
    assert!(!w.is_on_board(Pos { x: 10, y: 10, invalid: true }));
}

#[test]
fn is_on_board_refuses_obstacles() {
    let w = World::new(80, 24);
    assert!(!w.is_on_board(at(40, 8)));
    assert!(!w.is_on_board(at(40, 15)));
    assert!(w.is_on_board(at(40, 7)));
    assert!(w.is_on_board(at(40, 16)));
    assert!(w.is_on_board(at(39, 10)));
}

#[test]
fn is_on_board_on_a_board_without_room() {
    for (width, height) in [(0, 0), (1, 1), (2, 4), (0, 24), (80, 0)] {
        let w = World::new(width, height);
        for x in 0..4 {
            for y in 0..6 {
                assert!(!w.is_on_board(at(x, y)));
            }
        }
    }
}

#[test]
fn new_missile_row() {
    let mut w = World::new(80, 24);
    new_missile(&mut w, at(20, 12), Dir::Right, 1);
    assert_aligned(&w, 11);
    assert_eq!(w.name[10], "Missile 10");
    assert!(w.alive[10]);
    assert_eq!(w.lifetime[10], Lifetime::Temporary(13));
    assert_eq!(w.position[10], vec![at(20, 12), at(21, 12)]);
    assert_eq!(w.velocity[10], (2, Dir::Right));
    assert_eq!(w.energy[10], 0);
    assert!(!w.shield[10]);
    assert!(!w.bounce[10]);
    assert_eq!(w.explode[10], (true, false));
    assert_eq!(w.active_weapon[10], None);
    assert_eq!(w.sprite[10].color_idx, 1);
    assert!(!w.sprite[10].is_bold);
    assert_eq!(w.sprite[10].texture_vertical, "*");
    assert_eq!(w.sprite[10].texture_horizontal, "*");
    assert_eq!(w.sprite[10].texture_explosion, Some("#".to_string()));
}

#[test]
fn new_missile_range_goes_by_direction() {
    let mut w = World::new(120, 60);
    new_missile(&mut w, at(20, 12), Dir::Up, 1);
    new_missile(&mut w, at(20, 12), Dir::Down, 1);
    new_missile(&mut w, at(20, 12), Dir::Left, 1);
    new_missile(&mut w, at(20, 12), Dir::Right, 1);
    let n = w.alive.len();
    assert_eq!(w.lifetime[n - 4], Lifetime::Temporary(12));
    assert_eq!(w.lifetime[n - 3], Lifetime::Temporary(12));
    assert_eq!(w.lifetime[n - 2], Lifetime::Temporary(20));
    assert_eq!(w.lifetime[n - 1], Lifetime::Temporary(20));
    assert_eq!(w.position[n - 4], vec![at(20, 12), at(20, 11)]);
    assert_eq!(w.position[n - 3], vec![at(20, 12), at(20, 13)]);
    assert_eq!(w.position[n - 2], vec![at(20, 12), at(19, 12)]);
}

#[test]
fn new_missile_needs_room_for_its_second_cell() {
    let mut w = World::new(80, 24);
    // against the right border
    new_missile(&mut w, at(78, 12), Dir::Right, 1);
    assert_aligned(&w, 10);
    // against the wall
    new_missile(&mut w, at(39, 10), Dir::Right, 1);
    assert_aligned(&w, 10);
    // against the top
    new_missile(&mut w, at(10, 2), Dir::Up, 1);
    assert_aligned(&w, 10);
    // the first cell may be anywhere
    new_missile(&mut w, at(0, 12), Dir::Right, 1);
    assert_aligned(&w, 11);
    assert_eq!(w.position[10], vec![at(0, 12), at(1, 12)]);
}

#[test]
fn new_missile_without_direction_is_refused() {
    let mut w = World::new(80, 24);
    new_missile(&mut w, at(20, 12), Dir::Still, 1);
    assert_aligned(&w, 10);
}

#[test]
fn new_ray_row() {
    let mut w = World::new(80, 24);
    new_ray(&mut w, at(70, 12), Dir::Right, 2);
    assert_aligned(&w, 11);
    assert_eq!(w.name[10], "Ray 10");
    assert!(w.alive[10]);
    assert_eq!(w.lifetime[10], Lifetime::Temporary(LIFETIME_RAY));
    assert_eq!(w.velocity[10], (1, Dir::Right));
    assert_eq!(w.energy[10], 0);
    assert!(w.shield[10]);
    assert!(!w.bounce[10]);
    assert_eq!(w.explode[10], (false, false));
    assert_eq!(w.active_weapon[10], None);
    assert_eq!(w.sprite[10].texture_vertical, "|");
    assert_eq!(w.sprite[10].texture_horizontal, "-");
    assert_eq!(w.sprite[10].texture_explosion, None);
    // from the start to the last column inside the borders
    let cells: Vec<Pos> = (70..=78).map(|x| at(x, 12)).collect();
    assert_eq!(w.position[10], cells);
}

#[test]
fn new_ray_reaches_the_border_in_each_direction() {
    let mut w = World::new(80, 24);
    new_ray(&mut w, at(5, 6), Dir::Left, 2);
    new_ray(&mut w, at(5, 6), Dir::Up, 2);
    new_ray(&mut w, at(5, 6), Dir::Down, 2);
    new_ray(&mut w, at(75, 6), Dir::Right, 2);
    assert_eq!(w.position[10], vec![at(5, 6), at(4, 6), at(3, 6), at(2, 6), at(1, 6)]);
    assert_eq!(w.position[11], vec![at(5, 6), at(5, 5), at(5, 4), at(5, 3), at(5, 2)]);
    let down: Vec<Pos> = (6..=21).map(|y| at(5, y)).collect();
    assert_eq!(w.position[12], down);
    assert_eq!(w.position[13], vec![at(75, 6), at(76, 6), at(77, 6), at(78, 6)]);
}

#[test]
fn new_ray_from_the_last_cell_has_that_cell() {
    let mut w = World::new(80, 24);
    new_ray(&mut w, at(78, 12), Dir::Right, 2);
    new_ray(&mut w, at(1, 12), Dir::Left, 2);
    new_ray(&mut w, at(10, 2), Dir::Up, 2);
    new_ray(&mut w, at(10, 21), Dir::Down, 2);
    assert_aligned(&w, 14);
    assert_eq!(w.position[10], vec![at(78, 12)]);
    assert_eq!(w.position[11], vec![at(1, 12)]);
    assert_eq!(w.position[12], vec![at(10, 2)]);
    assert_eq!(w.position[13], vec![at(10, 21)]);
    assert!(w.is_placed());
    assert_eq!(w.entity_state().len(), 14 * 12);
}

#[test]
fn new_ray_ends_where_the_next_step_leaves_the_board() {
    let dirs = [Dir::Up, Dir::Down, Dir::Left, Dir::Right];
    for (x, y) in [(1, 2), (78, 21), (20, 12), (39, 10), (41, 15), (40, 7), (40, 16), (5, 3)] {
        for dir in dirs {
            let mut w = World::new(80, 24);
            assert!(w.is_on_board(at(x, y)));
            new_ray(&mut w, at(x, y), dir, 1);
            assert_aligned(&w, 11);
            let cells = &w.position[10];
            assert!(!cells.is_empty());
            assert_eq!(cells[0], at(x, y));
            for c in cells {
                assert!(w.is_on_board(*c));
            }
            for pair in cells.windows(2) {
                assert_eq!(pair[1], pair[0].moved(1, dir));
            }
            let last = cells[cells.len() - 1];
            assert!(!w.is_on_board(last.moved(1, dir)));
        }
    }
}

#[test]
fn new_ray_without_direction_is_refused() {
    let mut w = World::new(80, 24);
    new_ray(&mut w, at(20, 12), Dir::Still, 2);
    assert_aligned(&w, 10);
}

#[test]
fn new_ray_stops_before_an_obstacle() {
    let mut w = World::new(80, 24);
    new_ray(&mut w, at(36, 10), Dir::Right, 2);
    assert_eq!(w.position[10], vec![at(36, 10), at(37, 10), at(38, 10), at(39, 10)]);
}

#[test]
fn new_ray_from_beyond_the_border_is_refused() {
    let mut w = World::new(80, 24);
    new_ray(&mut w, at(0, 12), Dir::Left, 2);
    new_ray(&mut w, at(79, 12), Dir::Right, 2);
    new_ray(&mut w, at(200, 12), Dir::Right, 2);
    new_ray(&mut w, at(5, 1), Dir::Up, 2);
    new_ray(&mut w, at(5, 0), Dir::Up, 2);
    new_ray(&mut w, at(5, 22), Dir::Down, 2);
    new_ray(&mut w, at(5, 500), Dir::Down, 2);
    assert_aligned(&w, 10);
    let mut none = World::new(0, 0);
    for dir in [Dir::Up, Dir::Down, Dir::Left, Dir::Right] {
        new_ray(&mut none, at(0, 0), dir, 2);
    }
    assert_aligned(&none, 2);
}

#[test]
fn new_ray_from_a_border_cell_begins_there() {
    let mut w = World::new(80, 24);
    // the start itself is not asked to be on the board
    new_ray(&mut w, at(0, 12), Dir::Right, 2);
    let cells: Vec<Pos> = (0..40).map(|x| at(x, 12)).collect();
    assert_eq!(w.position[10], cells);
    new_ray(&mut w, at(5, 0), Dir::Right, 2);
    assert_eq!(w.position[11], vec![at(5, 0)]);
    new_ray(&mut w, Pos { x: 20, y: 12, invalid: true }, Dir::Left, 2);
    assert_eq!(w.position[12][0], Pos { x: 20, y: 12, invalid: true });
    assert_eq!(w.position[12].len(), 20);
}

#[test]
fn new_bar_row() {
    let mut w = World::new(80, 24);
    new_bar(&mut w, at(5, 5), Dir::Left);
    assert_aligned(&w, 11);
    assert_eq!(w.name[10], "Bar 10");
    assert!(w.alive[10]);
    assert_eq!(w.lifetime[10], Lifetime::Solid);
    assert_eq!(w.position[10], vec![at(5, 5)]);
    assert_eq!(w.velocity[10], (0, Dir::Left));
    assert_eq!(w.energy[10], 0);
    assert!(w.shield[10]);
    assert!(!w.bounce[10]);
    assert_eq!(w.explode[10], (false, false));
    assert_eq!(w.active_weapon[10], None);
    assert_eq!(w.sprite[10].color_idx, 0);
    assert_eq!(w.sprite[10].texture_vertical, "┃");
    assert_eq!(w.sprite[10].texture_horizontal, "━");
    assert_eq!(w.sprite[10].texture_explosion, Some("#".to_string()));
    assert!(!w.is_on_board(at(5, 5)));
}

#[test]
fn add_obstacles_builds_the_middle_third() {
    let mut w = World::new(20, 9);
    // built once by `new`: rows 3..6 of column 10
    assert_aligned(&w, 5);
    assert_eq!(w.position[2], vec![at(10, 3)]);
    assert_eq!(w.position[3], vec![at(10, 4)]);
    assert_eq!(w.position[4], vec![at(10, 5)]);
    w.add_obstacles();
    assert_aligned(&w, 8);
    assert_eq!(w.name[7], "Bar 7");
}

#[test]
fn add_obstacles_on_a_low_board_adds_nothing() {
    let w = World::new(20, 2);
    assert_aligned(&w, 2);
}

#[test]
fn reset_keeps_lives_and_size() {
    let mut w = World::new(80, 24);
    w.p1_lives = 4;
    w.p2_lives = 7;
    new_missile(&mut w, at(20, 12), Dir::Right, 1);
    new_ray(&mut w, at(20, 12), Dir::Left, 1);
    w.alive[0] = false;
    w.shield[1] = true;
    w.energy[1] = 5;
    w.reset();
    assert_aligned(&w, 10);
    assert_eq!(w.p1_lives, 4);
    assert_eq!(w.p2_lives, 7);
    assert_eq!(w.width, 80);
    assert_eq!(w.height, 24);
    assert_eq!(w.player1, 0);
    assert_eq!(w.player2, 1);
    assert!(w.alive[0]);
    assert!(!w.shield[1]);
    assert_eq!(w.energy[1], MAX_ENERGY);
    assert_eq!(w.position[0], vec![Pos::nil()]);
    assert_eq!(w.lifetime[9], Lifetime::Solid);
}

#[test]
fn to_start_positions_places_both_players() {
    let mut w = World::new(80, 24);
    w.velocity[0] = (1, Dir::Left);
    w.velocity[1] = (1, Dir::Up);
    to_start_positions(&mut w);
    assert_eq!(w.position[0], vec![at(20, 12)]);
    assert_eq!(w.position[1], vec![at(60, 12)]);
    assert_eq!(w.velocity[0], (1, Dir::Still));
    assert_eq!(w.velocity[1], (1, Dir::Still));
    assert!(w.is_on_board(w.position[0][0]));
    assert!(w.is_on_board(w.position[1][0]));
}

#[test]
fn to_start_positions_uses_whole_quarters() {
    let mut w = World::new(83, 25);
    to_start_positions(&mut w);
    assert_eq!(w.position[0], vec![at(20, 12)]);
    assert_eq!(w.position[1], vec![at(60, 12)]);
}

#[test]
fn both_players_alive_follows_the_lives() {
    let mut w = World::new(80, 24);
    assert!(both_players_alive(&w));
    w.p1_lives = 0;
    assert!(!both_players_alive(&w));
    w.p1_lives = 1;
    w.p2_lives = 0;
    assert!(!both_players_alive(&w));
}

#[test]
fn both_players_standing_follows_the_flags() {
    let mut w = World::new(80, 24);
    assert!(both_players_standing(&w));
    w.alive[0] = false;
    assert!(!both_players_standing(&w));
    w.alive[0] = true;
    w.alive[1] = false;
    assert!(!both_players_standing(&w));
}

#[test]
fn alive_entities_lists_the_living_in_order() {
    let mut w = World::new(20, 9);
    assert_eq!(alive_entities(&w), vec![0, 1, 2, 3, 4]);
    w.alive[1] = false;
    w.alive[3] = false;
    assert_eq!(alive_entities(&w), vec![0, 2, 4]);
    for i in 0..5 {
        w.alive[i] = false;
    }
    assert_eq!(alive_entities(&w), Vec::<usize>::new());
}

#[test]
fn a_new_world_is_in_order() {
    for (width, height) in [(80, 24), (0, 0), (8, 5), (200, 100), (3, 1000)] {
        let w = World::new(width, height);
        assert!(w.is_aligned());
        assert!(w.is_consistent());
        assert!(w.is_well_formed());
        assert!(w.is_placed());
    }
}

#[test]
fn the_checks_find_what_is_out_of_order() {
    let mut w = World::new(80, 24);
    w.energy.push(1);
    assert!(!w.is_aligned());
    assert!(!w.is_consistent());
    assert!(!w.is_well_formed());

    let mut w = World::new(80, 24);
    w.energy[3] = MAX_ENERGY + 1;
    assert!(w.is_aligned());
    assert!(!w.is_consistent());

    let mut w = World::new(80, 24);
    w.velocity[2] = (1, Dir::Up);
    assert!(!w.is_consistent());

    let mut w = World::new(80, 24);
    w.position[2] = Vec::new();
    assert!(!w.is_consistent());
    assert!(!w.is_placed());

    let mut w = World::new(80, 24);
    new_missile(&mut w, at(20, 12), Dir::Right, 1);
    w.position[10] = Vec::new();
    assert!(!w.is_consistent());
    w.explode[10] = (true, true);
    assert!(w.is_consistent());
    assert!(!w.is_placed());

    let mut w = World::new(80, 24);
    w.player2 = 0;
    assert!(w.is_consistent());
    assert!(!w.is_well_formed());
    w.player2 = 2;
    assert!(!w.is_well_formed());
    w.player2 = 99;
    assert!(!w.is_well_formed());
    w.player2 = 1;
    assert!(w.is_well_formed());
    w.active_weapon[1] = None;
    assert!(!w.is_well_formed());
}

#[test]
fn every_factory_gives_its_entity_a_cell() {
    let mut w = World::new(80, 24);
    for (x, y) in [(0, 0), (1, 2), (78, 21), (79, 23), (40, 10), (500, 500)] {
        for dir in [Dir::Still, Dir::Up, Dir::Down, Dir::Left, Dir::Right] {
            new_ray(&mut w, at(x, y), dir, 1);
            new_missile(&mut w, at(x, y), dir, 1);
        }
    }
    new_bar(&mut w, at(3, 3), Dir::Up);
    new_player(&mut w, "Guest".to_string(), "g".to_string(), 0);
    assert!(w.is_well_formed());
    assert!(w.is_placed());
    assert_eq!(w.entity_state().len(), 12 * w.alive.len());
}
