//! The keys of the two players.

use vstd::prelude::*;
use crate::dir::Dir;
use crate::game::InputEvent;

verus! {

/// A key as the game tells keys apart.
#[derive(Copy, Clone, PartialEq, Eq, Debug, Structural)]
pub enum Key {
    Esc,
    Char(char),
    Up,
    Down,
    Left,
    Right,
    Other,
}

/// The event that a key stands for; `alt` tells whether the Alt key was
/// held down with it.
///
/// The first player moves with `w`, `a`, `s` and `d`, fires with the same
/// letters in upper case, raises the shield with `e` and changes weapon
/// with `q`. The second player moves with the arrow keys, fires with Alt
/// and an arrow key, raises the shield with the full stop and changes
/// weapon with the comma. Escape ends the game.
pub open spec fn key_event_spec(key: Key, alt: bool) -> Option<InputEvent> {
    match key {
        Key::Esc => Some(InputEvent::Quit),
        Key::Char(c) => if c == 'w' {
            Some(InputEvent::Move { entity_id: 1, dir: Dir::Up })
        } else if c == 'W' {
            Some(InputEvent::Fire { entity_id: 1, dir: Dir::Up })
        } else if c == 's' {
            Some(InputEvent::Move { entity_id: 1, dir: Dir::Down })
        } else if c == 'S' {
            Some(InputEvent::Fire { entity_id: 1, dir: Dir::Down })
        } else if c == 'a' {
            Some(InputEvent::Move { entity_id: 1, dir: Dir::Left })
        } else if c == 'A' {
            Some(InputEvent::Fire { entity_id: 1, dir: Dir::Left })
        } else if c == 'd' {
            Some(InputEvent::Move { entity_id: 1, dir: Dir::Right })
        } else if c == 'D' {
            Some(InputEvent::Fire { entity_id: 1, dir: Dir::Right })
        } else if c == 'e' {
            Some(InputEvent::ToggleShield { entity_id: 1 })
        } else if c == 'q' {
            Some(InputEvent::ChangeWeapon { entity_id: 1 })
        } else if c == '.' {
            Some(InputEvent::ToggleShield { entity_id: 2 })
        } else if c == ',' {
            Some(InputEvent::ChangeWeapon { entity_id: 2 })
        } else {
            None
        },
        Key::Up => Some(arrow_event(Dir::Up, alt)),
        Key::Down => Some(arrow_event(Dir::Down, alt)),
        Key::Left => Some(arrow_event(Dir::Left, alt)),
        Key::Right => Some(arrow_event(Dir::Right, alt)),
        Key::Other => None,
    }
}

/// What an arrow key asks of the second player: to fire with Alt, to move
/// without.
pub open spec fn arrow_event(dir: Dir, alt: bool) -> InputEvent {
    if alt {
        InputEvent::Fire { entity_id: 2, dir }
    } else {
        InputEvent::Move { entity_id: 2, dir }
    }
}

/// The events of a run of keys: one for each key that stands for one, and
/// nothing after the first that asks to quit.
pub open spec fn events_spec(keys: Seq<(Key, bool)>) -> Seq<InputEvent>
    decreases keys.len(),
{
    if keys.len() == 0 {
        Seq::empty()
    } else {
        match key_event_spec(keys[0].0, keys[0].1) {
            Some(InputEvent::Quit) => seq![InputEvent::Quit],
            Some(ev) => seq![ev] + events_spec(keys.subrange(1, keys.len() as int)),
            None => events_spec(keys.subrange(1, keys.len() as int)),
        }
    }
}

fn arrow(dir: Dir, alt: bool) -> (ev: InputEvent)
    ensures
        ev == arrow_event(dir, alt),
{
    if alt {
        InputEvent::Fire { entity_id: 2, dir }
    } else {
        InputEvent::Move { entity_id: 2, dir }
    }
}

/// The event that a key stands for, if it stands for one.
pub fn key_event(key: Key, alt: bool) -> (r: Option<InputEvent>)
    ensures
        r == key_event_spec(key, alt),
{
    match key {
        Key::Esc => Some(InputEvent::Quit),
        Key::Char(c) => {
            if c == 'w' {
                Some(InputEvent::Move { entity_id: 1, dir: Dir::Up })
            } else if c == 'W' {
                Some(InputEvent::Fire { entity_id: 1, dir: Dir::Up })
            } else if c == 's' {
                Some(InputEvent::Move { entity_id: 1, dir: Dir::Down })
            } else if c == 'S' {
                Some(InputEvent::Fire { entity_id: 1, dir: Dir::Down })
            } else if c == 'a' {
                Some(InputEvent::Move { entity_id: 1, dir: Dir::Left })
            } else if c == 'A' {
                Some(InputEvent::Fire { entity_id: 1, dir: Dir::Left })
            } else if c == 'd' {
                Some(InputEvent::Move { entity_id: 1, dir: Dir::Right })
            } else if c == 'D' {
                Some(InputEvent::Fire { entity_id: 1, dir: Dir::Right })
            } else if c == 'e' {
                Some(InputEvent::ToggleShield { entity_id: 1 })
            } else if c == 'q' {
                Some(InputEvent::ChangeWeapon { entity_id: 1 })
            } else if c == '.' {
                Some(InputEvent::ToggleShield { entity_id: 2 })
            } else if c == ',' {
                Some(InputEvent::ChangeWeapon { entity_id: 2 })
            } else {
                None
            }
        },
        Key::Up => Some(arrow(Dir::Up, alt)),
        Key::Down => Some(arrow(Dir::Down, alt)),
        Key::Left => Some(arrow(Dir::Left, alt)),
        Key::Right => Some(arrow(Dir::Right, alt)),
        Key::Other => None,
    }
}

/// The events of the keys that were pressed, in their order, up to the
/// first that asks to quit.
pub fn events(keys: &Vec<(Key, bool)>) -> (evs: Vec<InputEvent>)
    ensures
        evs@ == events_spec(keys@),
{
    let mut evs: Vec<InputEvent> = Vec::new();
    let n = keys.len();
    let mut i: usize = 0;
    proof {
        assert(keys@.subrange(0, n as int) =~= keys@);
        assert(evs@ + events_spec(keys@) =~= events_spec(keys@));
    }
    while i < n
        invariant_except_break
            0 <= i <= n,
            n == keys@.len(),
            evs@ + events_spec(keys@.subrange(i as int, n as int)) == events_spec(keys@),
        ensures
            evs@ == events_spec(keys@),
        decreases n - i,
    {
        let ghost rest = keys@.subrange(i as int, n as int);
        let ghost before = evs@;
        assert(rest[0] == keys@[i as int]);
        assert(rest.subrange(1, rest.len() as int) =~= keys@.subrange(i + 1, n as int));
        let (key, alt) = keys[i];
        match key_event(key, alt) {
            Some(InputEvent::Quit) => {
                evs.push(InputEvent::Quit);
                assert(evs@ =~= before + events_spec(rest));
                break ;
            },
            Some(ev) => {
                evs.push(ev);
                assert(evs@ + events_spec(keys@.subrange(i + 1, n as int)) =~= before + events_spec(rest));
            },
            None => {},
        }
        i += 1;
    }
    proof {
        if i == n {
            assert(keys@.subrange(n as int, n as int) =~= Seq::empty());
            assert(evs@ =~= evs@ + Seq::<InputEvent>::empty());
        }
    }
    evs
}

} // verus!
