use rust_console_game::dir::Dir;
use rust_console_game::game::{
    end_round, game_loop, handle_event, handle_events, hit_banner, start_round, winner_banner,
    InputEvent,
};
use rust_console_game::pos::Pos;
use rust_console_game::setup::{both_players_alive, both_players_standing};
use rust_console_game::systems::{pipeline, tick, System};
use rust_console_game::weapon::Weapon;
use rust_console_game::world::{
    Lifetime, World, ENERGY_MISSILE, ENERGY_RAY, LIFETIME_RAY, MAX_ENERGY, PLAYER_LIVES,
};

fn at(x: u32, y: u32) -> Pos {
    Pos { x, y, invalid: false }
}

fn round() -> World {
    let mut w = World::new(80, 24);
    start_round(&mut w);
    w
}

#[test]
fn start_round_revives_and_places() {
    let mut w = World::new(80, 24);
    w.alive[0] = false;
    w.alive[1] = false;
    w.velocity[0] = (1, Dir::Left);
    let systems = start_round(&mut w);
    assert_eq!(systems, pipeline());
    assert_eq!(systems[3], System::EnergyReload(0));
    assert!(both_players_standing(&w));
    assert_eq!(w.position[0], vec![at(20, 12)]);
    assert_eq!(w.position[1], vec![at(60, 12)]);
    assert_eq!(w.velocity[0], (1, Dir::Still));
    assert_eq!(w.velocity[1], (1, Dir::Still));
}

#[test]
fn quit_is_the_only_event_that_quits() {
    let mut w = round();
    assert!(handle_event(&mut w, InputEvent::Quit));
    assert!(!handle_event(&mut w, InputEvent::Move { entity_id: 1, dir: Dir::Up }));
    assert!(!handle_event(&mut w, InputEvent::Fire { entity_id: 1, dir: Dir::Up }));
    assert!(!handle_event(&mut w, InputEvent::ToggleShield { entity_id: 1 }));
    assert!(!handle_event(&mut w, InputEvent::ChangeWeapon { entity_id: 1 }));
}

#[test]
fn move_steers_the_player() {
    let mut w = round();
    handle_event(&mut w, InputEvent::Move { entity_id: 1, dir: Dir::Up });
    assert_eq!(w.velocity[0], (1, Dir::Up));
    assert_eq!(w.velocity[1], (1, Dir::Still));
    handle_event(&mut w, InputEvent::Move { entity_id: 2, dir: Dir::Left });
    assert_eq!(w.velocity[1], (1, Dir::Left));
    handle_event(&mut w, InputEvent::Move { entity_id: 1, dir: Dir::Right });
    assert_eq!(w.velocity[0], (1, Dir::Right));
}

#[test]
fn move_against_the_direction_of_travel_stops() {
    let mut w = round();
    handle_event(&mut w, InputEvent::Move { entity_id: 1, dir: Dir::Up });
    handle_event(&mut w, InputEvent::Move { entity_id: 1, dir: Dir::Down });
    assert_eq!(w.velocity[0], (1, Dir::Still));
    handle_event(&mut w, InputEvent::Move { entity_id: 1, dir: Dir::Down });
    assert_eq!(w.velocity[0], (1, Dir::Down));
    handle_event(&mut w, InputEvent::Move { entity_id: 1, dir: Dir::Still });
    assert_eq!(w.velocity[0], (1, Dir::Still));
}

#[test]
fn toggle_shield_flips() {
    let mut w = round();
    handle_event(&mut w, InputEvent::ToggleShield { entity_id: 2 });
    assert!(w.shield[1]);
    assert!(!w.shield[0]);
    handle_event(&mut w, InputEvent::ToggleShield { entity_id: 2 });
    assert!(!w.shield[1]);
}

#[test]
fn change_weapon_cycles() {
    let mut w = round();
    handle_event(&mut w, InputEvent::ChangeWeapon { entity_id: 1 });
    assert_eq!(w.active_weapon[0], Some(Weapon::Ray));
    assert_eq!(w.active_weapon[1], Some(Weapon::Missile));
    handle_event(&mut w, InputEvent::ChangeWeapon { entity_id: 1 });
    assert_eq!(w.active_weapon[0], Some(Weapon::Missile));
}

#[test]
fn events_for_unknown_players_change_nothing() {
    for entity_id in [0u8, 3, 255] {
        let mut w = round();
        for dir in [Dir::Up, Dir::Right] {
            handle_event(&mut w, InputEvent::Move { entity_id, dir });
            handle_event(&mut w, InputEvent::Fire { entity_id, dir });
        }
        handle_event(&mut w, InputEvent::ToggleShield { entity_id });
        handle_event(&mut w, InputEvent::ChangeWeapon { entity_id });
        assert_eq!(w.alive.len(), 10);
        assert_eq!(w.velocity[0], (1, Dir::Still));
        assert_eq!(w.velocity[1], (1, Dir::Still));
        assert_eq!(w.energy[0], MAX_ENERGY);
        assert_eq!(w.energy[1], MAX_ENERGY);
        assert!(!w.shield[0] && !w.shield[1]);
        assert_eq!(w.active_weapon[0], Some(Weapon::Missile));
    }
}

#[test]
fn fire_sideways_starts_on_the_player() {
    let mut w = round();
    handle_event(&mut w, InputEvent::Fire { entity_id: 1, dir: Dir::Right });
    assert_eq!(w.alive.len(), 11);
    assert_eq!(w.position[10], vec![at(20, 12), at(21, 12)]);
    assert_eq!(w.velocity[10], (2, Dir::Right));
    assert_eq!(w.lifetime[10], Lifetime::Temporary(13));
    assert_eq!(w.energy[0], MAX_ENERGY - ENERGY_MISSILE);
    assert_eq!(w.sprite[10].color_idx, 1);
}

#[test]
fn fire_ahead_starts_one_cell_on() {
    let mut w = round();
    handle_event(&mut w, InputEvent::Move { entity_id: 2, dir: Dir::Left });
    handle_event(&mut w, InputEvent::Fire { entity_id: 2, dir: Dir::Left });
    assert_eq!(w.position[10], vec![at(59, 12), at(58, 12)]);
    assert_eq!(w.sprite[10].color_idx, 2);
    assert_eq!(w.energy[1], MAX_ENERGY - ENERGY_MISSILE);
}

#[test]
fn fire_ahead_off_the_board_does_nothing() {
    let mut w = round();
    w.position[0][0] = at(78, 12);
    handle_event(&mut w, InputEvent::Move { entity_id: 1, dir: Dir::Right });
    handle_event(&mut w, InputEvent::Fire { entity_id: 1, dir: Dir::Right });
    assert_eq!(w.alive.len(), 10);
    assert_eq!(w.energy[0], MAX_ENERGY);
}

#[test]
fn fire_takes_energy_even_without_room_for_the_missile() {
    let mut w = round();
    w.position[0][0] = at(78, 12);
    handle_event(&mut w, InputEvent::Fire { entity_id: 1, dir: Dir::Right });
    assert_eq!(w.alive.len(), 10);
    assert_eq!(w.energy[0], MAX_ENERGY - ENERGY_MISSILE);
}

#[test]
fn fire_without_direction_does_nothing() {
    let mut w = round();
    handle_event(&mut w, InputEvent::Fire { entity_id: 1, dir: Dir::Still });
    handle_event(&mut w, InputEvent::ChangeWeapon { entity_id: 1 });
    handle_event(&mut w, InputEvent::Fire { entity_id: 1, dir: Dir::Still });
    assert_eq!(w.alive.len(), 10);
    assert_eq!(w.energy[0], MAX_ENERGY);
}

#[test]
fn fire_needs_more_energy_than_it_takes() {
    let mut w = round();
    w.energy[0] = ENERGY_MISSILE;
    handle_event(&mut w, InputEvent::Fire { entity_id: 1, dir: Dir::Right });
    assert_eq!(w.alive.len(), 10);
    assert_eq!(w.energy[0], ENERGY_MISSILE);
    w.energy[0] = ENERGY_MISSILE + 1;
    handle_event(&mut w, InputEvent::Fire { entity_id: 1, dir: Dir::Right });
    assert_eq!(w.alive.len(), 11);
    assert_eq!(w.energy[0], 1);
}

#[test]
fn fire_a_ray() {
    let mut w = round();
    handle_event(&mut w, InputEvent::ChangeWeapon { entity_id: 2 });
    handle_event(&mut w, InputEvent::Fire { entity_id: 2, dir: Dir::Right });
    assert_eq!(w.alive.len(), 11);
    assert_eq!(w.lifetime[10], Lifetime::Temporary(LIFETIME_RAY));
    assert_eq!(w.energy[1], MAX_ENERGY - ENERGY_RAY);
    assert!(w.shield[10]);
    let cells: Vec<Pos> = (60..=78).map(|x| at(x, 12)).collect();
    assert_eq!(w.position[10], cells);
    w.energy[1] = ENERGY_RAY;
    handle_event(&mut w, InputEvent::Fire { entity_id: 2, dir: Dir::Right });
    assert_eq!(w.alive.len(), 11);
    assert_eq!(w.energy[1], ENERGY_RAY);
}

#[test]
fn end_round_takes_a_life_from_the_dead() {
    let mut w = round();
    w.alive[1] = false;
    end_round(&mut w);
    assert_eq!(w.p1_lives, PLAYER_LIVES);
    assert_eq!(w.p2_lives, PLAYER_LIVES - 1);
    w.alive[0] = false;
    end_round(&mut w);
    assert_eq!(w.p1_lives, PLAYER_LIVES - 1);
    assert_eq!(w.p2_lives, PLAYER_LIVES - 2);
    w.alive[0] = true;
    w.alive[1] = true;
    end_round(&mut w);
    assert_eq!(w.p1_lives, PLAYER_LIVES - 1);
    assert_eq!(w.p2_lives, PLAYER_LIVES - 2);
}

#[test]
fn end_round_can_take_the_last_life() {
    let mut w = round();
    w.p1_lives = 1;
    w.alive[0] = false;
    end_round(&mut w);
    assert_eq!(w.p1_lives, 0);
    assert!(!both_players_alive(&w));
}

#[test]
fn hit_banner_names_the_dead() {
    let mut w = round();
    w.alive[0] = false;
    assert_eq!(hit_banner(&w), "Player 1 hit!");
    w.alive[1] = false;
    assert_eq!(hit_banner(&w), "Player 1 and Player 2 hit!");
    w.alive[0] = true;
    assert_eq!(hit_banner(&w), "Player 2 hit!");
}

#[test]
fn winner_banner_names_the_one_with_lives_left() {
    let mut w = round();
    w.p1_lives = 0;
    assert_eq!(winner_banner(&w), "Player 2 wins!");
    w.p1_lives = 3;
    w.p2_lives = 0;
    assert_eq!(winner_banner(&w), "Player 1 wins!");
}

#[test]
fn a_missile_fired_at_a_standing_player_hits_it() {
    let mut w = World::new(80, 24);
    let mut systems = start_round(&mut w);
    // bring the second player within range, on this side of the wall
    w.position[1][0] = at(30, 12);
    assert_eq!(w.lifetime[0], Lifetime::Permanent);
    assert_eq!(w.lifetime[1], Lifetime::Permanent);
    assert_eq!(w.energy[0], MAX_ENERGY);
    assert_eq!(w.energy[1], MAX_ENERGY);

    handle_event(&mut w, InputEvent::Fire { entity_id: 1, dir: Dir::Right });
    let missile = 10;
    assert_eq!(w.position[missile], vec![at(20, 12), at(21, 12)]);

    for k in 1..5u32 {
        tick(&mut systems, &mut w);
        assert_eq!(w.position[missile], vec![at(20 + 2 * k, 12), at(21 + 2 * k, 12)]);
        assert!(w.alive[missile]);
        assert!(both_players_standing(&w));
        assert_eq!(w.lifetime[missile], Lifetime::Temporary(13 - k));
    }
    tick(&mut systems, &mut w);
    assert_eq!(w.position[missile], vec![at(30, 12), at(31, 12)]);
    assert!(w.alive[0]);
    assert!(!w.alive[1]);
    assert!(!w.alive[missile]);
    assert!(!both_players_standing(&w));

    end_round(&mut w);
    assert_eq!(w.p1_lives, PLAYER_LIVES);
    assert_eq!(w.p2_lives, PLAYER_LIVES - 1);
    assert_eq!(hit_banner(&w), "Player 2 hit!");

    // the next round starts over, with the lives as they are
    w.reset();
    start_round(&mut w);
    assert!(both_players_standing(&w));
    assert_eq!(w.alive.len(), 10);
    assert_eq!(w.p2_lives, PLAYER_LIVES - 1);
}

#[test]
fn a_shield_saves_the_player_from_a_missile() {
    let mut w = World::new(80, 24);
    let mut systems = start_round(&mut w);
    w.position[1][0] = at(30, 12);
    handle_event(&mut w, InputEvent::ToggleShield { entity_id: 2 });
    handle_event(&mut w, InputEvent::Fire { entity_id: 1, dir: Dir::Right });
    for _ in 0..5 {
        tick(&mut systems, &mut w);
    }
    assert!(w.alive[0]);
    assert!(w.alive[1]);
    assert!(!w.alive[10]);
    // the shield was paid for once, at the first tick
    assert_eq!(w.energy[1], MAX_ENERGY - 3);
}

#[test]
fn a_low_shield_comes_down_at_the_next_reload() {
    let mut w = World::new(80, 24);
    let mut systems = start_round(&mut w);
    tick(&mut systems, &mut w);
    w.energy[0] = 2;
    handle_event(&mut w, InputEvent::ToggleShield { entity_id: 1 });
    for _ in 0..4 {
        tick(&mut systems, &mut w);
        assert!(w.shield[0]);
        assert_eq!(w.energy[0], 2);
    }
    tick(&mut systems, &mut w);
    assert!(!w.shield[0]);
    assert_eq!(w.energy[0], 3);
}

#[test]
fn a_ray_fired_at_the_border_beside_the_player_has_a_cell() {
    let mut w = World::new(80, 24);
    let mut systems = start_round(&mut w);
    w.position[0][0] = at(1, 12);
    handle_event(&mut w, InputEvent::Move { entity_id: 1, dir: Dir::Up });
    handle_event(&mut w, InputEvent::ChangeWeapon { entity_id: 1 });
    handle_event(&mut w, InputEvent::Fire { entity_id: 1, dir: Dir::Left });
    assert_eq!(w.alive.len(), 11);
    assert_eq!(w.position[10], vec![at(1, 12)]);
    assert_eq!(w.energy[0], MAX_ENERGY - ENERGY_RAY);
    assert!(w.is_placed());
    for _ in 0..12 {
        tick(&mut systems, &mut w);
        assert!(w.is_placed());
        assert_eq!(w.entity_state().len(), 11 * 12);
    }
}

#[test]
fn play_keeps_a_cell_for_every_entity() {
    let mut w = World::new(80, 24);
    let mut systems = start_round(&mut w);
    let dirs = [Dir::Up, Dir::Right, Dir::Down, Dir::Left, Dir::Still];
    for round in 0..200usize {
        let dir = dirs[round % 5];
        let turn = dirs[(round / 3) % 5];
        handle_event(&mut w, InputEvent::Move { entity_id: 1, dir: turn });
        handle_event(&mut w, InputEvent::Move { entity_id: 2, dir });
        if round % 4 == 0 {
            handle_event(&mut w, InputEvent::ChangeWeapon { entity_id: 1 });
        }
        handle_event(&mut w, InputEvent::Fire { entity_id: 1, dir });
        handle_event(&mut w, InputEvent::Fire { entity_id: 2, dir: turn });
        assert!(w.is_placed());
        tick(&mut systems, &mut w);
        assert!(w.is_well_formed());
        assert!(w.is_placed());
        assert_eq!(w.entity_state().len(), 12 * w.alive.len());
        if !both_players_standing(&w) {
            w.alive[0] = true;
            w.alive[1] = true;
        }
    }
}

#[test]
fn handle_events_applies_them_in_order() {
    let mut w = round();
    let quit = handle_events(
        &mut w,
        &vec![
            InputEvent::Move { entity_id: 1, dir: Dir::Up },
            InputEvent::ToggleShield { entity_id: 2 },
            InputEvent::Move { entity_id: 1, dir: Dir::Left },
        ],
    );
    assert!(!quit);
    assert_eq!(w.velocity[0], (1, Dir::Left));
    assert!(w.shield[1]);
    assert!(!handle_events(&mut w, &Vec::new()));
}

#[test]
fn handle_events_stops_at_the_first_quit() {
    let mut w = round();
    let quit = handle_events(
        &mut w,
        &vec![
            InputEvent::Move { entity_id: 1, dir: Dir::Up },
            InputEvent::Quit,
            InputEvent::Move { entity_id: 1, dir: Dir::Left },
            InputEvent::ToggleShield { entity_id: 2 },
        ],
    );
    assert!(quit);
    assert_eq!(w.velocity[0], (1, Dir::Up));
    assert!(!w.shield[1]);
}

fn one_shot(ticks: usize) -> Vec<Vec<InputEvent>> {
    let mut input = vec![Vec::new(); ticks];
    input[0].push(InputEvent::Fire { entity_id: 1, dir: Dir::Right });
    input
}

#[test]
fn game_loop_ends_when_the_missile_reaches_the_other_player() {
    let mut w = World::new(20, 5);
    assert_eq!(w.missile_range_horizontal, 8);
    w.p1_lives = 4;
    w.p2_lives = 7;
    let quit = game_loop(&mut w, &one_shot(50));
    assert!(!quit);
    assert_eq!(w.position[0], vec![at(5, 2)]);
    assert_eq!(w.position[1], vec![at(15, 2)]);
    let missile = w.alive.len() - 1;
    assert_eq!(w.name[missile], "Missile 3");
    assert_eq!(w.position[missile], vec![at(15, 2), at(16, 2)]);
    assert_eq!(w.lifetime[missile], Lifetime::Temporary(3));
    assert!(w.alive[0]);
    assert!(!w.alive[1]);
    assert!(!w.alive[missile]);
    assert_eq!(w.p1_lives, 4);
    assert_eq!(w.p2_lives, 6);
    assert_eq!(w.energy[0], MAX_ENERGY - ENERGY_MISSILE + 1);
}

#[test]
fn game_loop_needs_the_ticks_of_the_flight() {
    // the missile needs five ticks from column 5 to column 15
    let mut w = World::new(20, 5);
    assert!(!game_loop(&mut w, &one_shot(4)));
    assert!(w.alive[0] && w.alive[1]);
    assert_eq!(w.position[3], vec![at(13, 2), at(14, 2)]);
    assert_eq!((w.p1_lives, w.p2_lives), (PLAYER_LIVES, PLAYER_LIVES));
    let mut w = World::new(20, 5);
    assert!(!game_loop(&mut w, &one_shot(5)));
    assert!(w.alive[0] && !w.alive[1]);
    assert_eq!((w.p1_lives, w.p2_lives), (PLAYER_LIVES, PLAYER_LIVES - 1));
}

#[test]
fn game_loop_ends_on_quit() {
    let mut w = World::new(80, 24);
    let input = vec![
        vec![InputEvent::Move { entity_id: 1, dir: Dir::Right }],
        vec![],
        vec![InputEvent::Move { entity_id: 2, dir: Dir::Up }, InputEvent::Quit],
        vec![InputEvent::Move { entity_id: 1, dir: Dir::Left }],
    ];
    assert!(game_loop(&mut w, &input));
    // two ticks were played, and the event before the quit was heard
    assert_eq!(w.position[0], vec![at(22, 12)]);
    assert_eq!(w.velocity[1], (1, Dir::Up));
    assert_eq!(w.position[1], vec![at(60, 12)]);
    assert_eq!((w.p1_lives, w.p2_lives), (PLAYER_LIVES, PLAYER_LIVES));
}

#[test]
fn game_loop_without_input_plays_nothing() {
    let mut w = World::new(80, 24);
    w.alive[1] = false;
    assert!(!game_loop(&mut w, &Vec::new()));
    assert!(both_players_standing(&w));
    assert_eq!(w.position[0], vec![at(20, 12)]);
    assert_eq!((w.p1_lives, w.p2_lives), (PLAYER_LIVES, PLAYER_LIVES));
}

#[test]
fn game_loop_duel_on_other_open_fields() {
    // (width, height, ticks of the flight)
    for (width, height, flight) in [(5u32, 5u32, 1usize), (12, 5, 3), (27, 8, 6), (23, 8, 5), (9, 5, 2)] {
        let mut short = World::new(width, height);
        if flight > 1 {
            assert!(!game_loop(&mut short, &one_shot(flight - 1)));
            assert!(short.alive[0] && short.alive[1]);
        }
        let mut w = World::new(width, height);
        w.p1_lives = 3;
        w.p2_lives = 1;
        let bars = w.alive.len() - 2;
        assert!(!game_loop(&mut w, &one_shot(flight + 7)));
        assert_eq!(w.alive.len(), bars + 3);
        assert!(w.alive[0]);
        assert!(!w.alive[1]);
        assert!(!w.alive[bars + 2]);
        assert_eq!((w.p1_lives, w.p2_lives), (3, 0));
    }
}

#[test]
fn game_loop_a_missile_at_the_end_of_its_range_still_kills() {
    // the missile arrives with two ticks left: it hits, and then it
    // explodes where it is
    let mut w = World::new(27, 8);
    assert_eq!(w.missile_range_horizontal, 8);
    assert!(!game_loop(&mut w, &one_shot(6)));
    let missile = w.alive.len() - 1;
    assert!(w.alive[0] && !w.alive[1] && !w.alive[missile]);
    assert_eq!(w.lifetime[missile], Lifetime::Temporary(2));
    assert_eq!(w.explode[missile], (true, true));
    assert!(w.position[missile].contains(&at(18, 4)));
}

#[test]
fn game_loop_behind_the_wall_the_missile_does_not_arrive() {
    // on a board of 24 rows the wall crosses the row of the players
    let mut w = World::new(80, 24);
    assert!(!game_loop(&mut w, &one_shot(40)));
    assert!(w.alive[0] && w.alive[1]);
    assert!(!w.alive[10]);
    assert_eq!((w.p1_lives, w.p2_lives), (PLAYER_LIVES, PLAYER_LIVES));
}
