//! The two byte formats that connect the game with the programs that play
//! it: commands come in as records of eight bytes, the state of the world
//! goes out as one record of twelve bytes for each entity.

use vstd::prelude::*;
use crate::dir::{lemma_dir_code_round_trip, Dir};
use crate::game::InputEvent;
use crate::world::{World, WorldModel};

verus! {

/// The socket on which the game listens for the first player.
pub const SOCK_NAME_1: &'static str = "/tmp/rust-console-game-p1.sock";

/// The socket on which the game listens for the second player.
pub const SOCK_NAME_2: &'static str = "/tmp/rust-console-game-p2.sock";

/// The entity id of the first player in every snapshot.
pub const PLAYER_1_ID: u8 = 0;

/// The entity id of the second player in every snapshot.
pub const PLAYER_2_ID: u8 = 1;

/// The code of the command that ends the game.
pub const QUIT: u8 = 0;

/// The code of the command that steers a player.
pub const MOVE: u8 = 1;

/// The code of the command that fires.
pub const FIRE: u8 = 2;

/// The code of the command that raises or lowers the shield.
pub const TOGGLE_SHIELD: u8 = 3;

/// The code of the command that switches weapons.
pub const CHANGE_WEAPON: u8 = 4;

/// The length of a command record.
pub const COMMAND_LEN: usize = 8;

/// The length of the record of one entity in a snapshot.
pub const RECORD_LEN: usize = 12;

/// Why a command record was refused.
#[derive(Copy, Clone, PartialEq, Eq, Debug, Structural)]
pub enum ProtocolError {
    /// The record does not have eight bytes.
    Length,
    /// The first byte is no command code.
    Command(u8),
    /// The command takes a direction and the second byte is none.
    Direction(u8),
}

/// The event that a command record of eight bytes stands for, as sent by
/// player number `entity_id`, or the reason why it stands for none.
///
/// The second byte counts only where the command takes a direction, and
/// the last six bytes never do.
pub open spec fn command_spec(b: Seq<u8>, entity_id: u8) -> Result<InputEvent, ProtocolError> {
    if b.len() != 8 {
        Err(ProtocolError::Length)
    } else if b[0] == QUIT {
        Ok(InputEvent::Quit)
    } else if b[0] == MOVE {
        match Dir::spec_decode(b[1]) {
            Some(dir) => Ok(InputEvent::Move { entity_id, dir }),
            None => Err(ProtocolError::Direction(b[1])),
        }
    } else if b[0] == FIRE {
        match Dir::spec_decode(b[1]) {
            Some(dir) => Ok(InputEvent::Fire { entity_id, dir }),
            None => Err(ProtocolError::Direction(b[1])),
        }
    } else if b[0] == TOGGLE_SHIELD {
        Ok(InputEvent::ToggleShield { entity_id })
    } else if b[0] == CHANGE_WEAPON {
        Ok(InputEvent::ChangeWeapon { entity_id })
    } else {
        Err(ProtocolError::Command(b[0]))
    }
}

/// The command record of an event: the command code, the code of the
/// direction where there is one, and zeros.
pub open spec fn command_bytes(ev: InputEvent) -> Seq<u8> {
    match ev {
        InputEvent::Quit => seq![QUIT, 0u8, 0u8, 0u8, 0u8, 0u8, 0u8, 0u8],
        InputEvent::Move { entity_id, dir } => seq![MOVE, dir.spec_as_num(), 0u8, 0u8, 0u8, 0u8, 0u8, 0u8],
        InputEvent::Fire { entity_id, dir } => seq![FIRE, dir.spec_as_num(), 0u8, 0u8, 0u8, 0u8, 0u8, 0u8],
        InputEvent::ToggleShield { entity_id } => seq![TOGGLE_SHIELD, 0u8, 0u8, 0u8, 0u8, 0u8, 0u8, 0u8],
        InputEvent::ChangeWeapon { entity_id } => seq![CHANGE_WEAPON, 0u8, 0u8, 0u8, 0u8, 0u8, 0u8, 0u8],
    }
}

/// The event `ev` as sent by player number `entity_id`: the number of the
/// player is not part of the record, the connection gives it.
pub open spec fn sent_by(ev: InputEvent, entity_id: u8) -> InputEvent {
    match ev {
        InputEvent::Quit => InputEvent::Quit,
        InputEvent::Move { dir, .. } => InputEvent::Move { entity_id, dir },
        InputEvent::Fire { dir, .. } => InputEvent::Fire { entity_id, dir },
        InputEvent::ToggleShield { .. } => InputEvent::ToggleShield { entity_id },
        InputEvent::ChangeWeapon { .. } => InputEvent::ChangeWeapon { entity_id },
    }
}

/// A command that is written out and read back is the command that was
/// written: the same kind, the same direction, whichever of the five kinds
/// and of the five directions it has.
pub proof fn lemma_command_round_trip(ev: InputEvent, entity_id: u8)
    ensures
        command_bytes(ev).len() == 8,
        command_spec(command_bytes(ev), entity_id) == Ok::<InputEvent, ProtocolError>(sent_by(ev, entity_id)),
{
}

/// Reads a command record that is known to be in order.
pub fn into_input_event(b: &[u8; 8], entity_id: u8) -> (ev: InputEvent)
    requires
        command_spec(b@, entity_id).is_ok(),
    ensures
        command_spec(b@, entity_id) == Ok::<InputEvent, ProtocolError>(ev),
{
    let code = b[0];
    if code == QUIT {
        InputEvent::Quit
    } else if code == MOVE {
        InputEvent::Move { entity_id, dir: Dir::from_num(b[1]) }
    } else if code == FIRE {
        InputEvent::Fire { entity_id, dir: Dir::from_num(b[1]) }
    } else if code == TOGGLE_SHIELD {
        InputEvent::ToggleShield { entity_id }
    } else {
        InputEvent::ChangeWeapon { entity_id }
    }
}

/// Reads a command record, or says what is wrong with it.
pub fn decode_command(b: &[u8], entity_id: u8) -> (r: Result<InputEvent, ProtocolError>)
    ensures
        r == command_spec(b@, entity_id),
{
    if b.len() != 8 {
        return Err(ProtocolError::Length);
    }
    let code = b[0];
    if code == QUIT {
        Ok(InputEvent::Quit)
    } else if code == MOVE {
        match Dir::try_from_num(b[1]) {
            Some(dir) => Ok(InputEvent::Move { entity_id, dir }),
            None => Err(ProtocolError::Direction(b[1])),
        }
    } else if code == FIRE {
        match Dir::try_from_num(b[1]) {
            Some(dir) => Ok(InputEvent::Fire { entity_id, dir }),
            None => Err(ProtocolError::Direction(b[1])),
        }
    } else if code == TOGGLE_SHIELD {
        Ok(InputEvent::ToggleShield { entity_id })
    } else if code == CHANGE_WEAPON {
        Ok(InputEvent::ChangeWeapon { entity_id })
    } else {
        Err(ProtocolError::Command(code))
    }
}

/// Writes the command record of an event.
pub fn encode_command(ev: InputEvent) -> (b: Vec<u8>)
    ensures
        b@ == command_bytes(ev),
{
    let (code, dir): (u8, u8) = match ev {
        InputEvent::Quit => (QUIT, 0),
        InputEvent::Move { entity_id, dir } => (MOVE, dir.as_num()),
        InputEvent::Fire { entity_id, dir } => (FIRE, dir.as_num()),
        InputEvent::ToggleShield { entity_id } => (TOGGLE_SHIELD, 0),
        InputEvent::ChangeWeapon { entity_id } => (CHANGE_WEAPON, 0),
    };
    let mut b: Vec<u8> = Vec::new();
    b.push(code);
    b.push(dir);
    b.push(0);
    b.push(0);
    b.push(0);
    b.push(0);
    b.push(0);
    b.push(0);
    assert(b@ =~= command_bytes(ev));
    b
}

/// The four bytes of `v`, the most significant first.
pub open spec fn be_bytes(v: u32) -> Seq<u8> {
    seq![
        (v / 0x100_0000) as u8,
        ((v / 0x1_0000) % 0x100) as u8,
        ((v / 0x100) % 0x100) as u8,
        (v % 0x100) as u8,
    ]
}

/// The number whose four bytes, the most significant first, start at
/// offset `at` of `b`.
pub open spec fn be_value(b: Seq<u8>, at: int) -> u32 {
    (b[at] * 0x100_0000 + b[at + 1] * 0x1_0000 + b[at + 2] * 0x100 + b[at + 3]) as u32
}

/// Four bytes read back give the number that was written.
pub proof fn lemma_be_round_trip(v: u32)
    ensures
        be_bytes(v).len() == 4,
        be_value(be_bytes(v), 0) == v,
{
}

impl WorldModel {
    /// The record of entity `i`: its id, the column and the row of its
    /// first cell, the code of its direction, its speed, and whether its
    /// shield is up. An id that does not fit a byte is cut to its last
    /// eight bits.
    pub open spec fn record(self, i: int) -> Seq<u8> {
        seq![(i % 256) as u8] + be_bytes(self.position[i][0].x) + be_bytes(self.position[i][0].y) + seq![
            self.velocity[i].1.spec_as_num(),
            self.velocity[i].0,
            if self.shield[i] {
                1u8
            } else {
                0u8
            },
        ]
    }

    /// The records of the first `n` entities, one after the other.
    pub open spec fn snapshot_upto(self, n: nat) -> Seq<u8>
        decreases n,
    {
        if n == 0 {
            Seq::empty()
        } else {
            self.snapshot_upto((n - 1) as nat) + self.record(n - 1)
        }
    }

    /// The state of the world as it is sent out: the record of every
    /// entity, alive or not, in the order of the ids.
    pub open spec fn snapshot(self) -> Seq<u8> {
        self.snapshot_upto(self.len())
    }
}

/// A snapshot has twelve bytes for each entity, and the bytes of entity `i`
/// are its record.
pub proof fn lemma_snapshot_layout(m: WorldModel, n: nat, i: int)
    requires
        0 <= i < n,
    ensures
        m.record(i).len() == 12,
        m.snapshot_upto(n).len() == 12 * n,
        m.snapshot_upto(n).subrange(12 * i, 12 * i + 12) == m.record(i),
    decreases n,
{
    lemma_snapshot_len(m, n);
    lemma_snapshot_len(m, (n - 1) as nat);
    if i < n - 1 {
        lemma_snapshot_layout(m, (n - 1) as nat, i);
        assert(m.snapshot_upto(n).subrange(12 * i, 12 * i + 12) =~= m.snapshot_upto((n - 1) as nat).subrange(
            12 * i,
            12 * i + 12,
        ));
    } else {
        assert(m.snapshot_upto(n).subrange(12 * i, 12 * i + 12) =~= m.record(i));
    }
}

/// A snapshot of `n` entities has twelve bytes for each.
pub proof fn lemma_snapshot_len(m: WorldModel, n: nat)
    ensures
        m.snapshot_upto(n).len() == 12 * n,
    decreases n,
{
    if n > 0 {
        lemma_snapshot_len(m, (n - 1) as nat);
    }
}

/// Worlds with the same value have the same snapshot, byte for byte: what
/// is sent out depends on nothing but the state of the world.
pub proof fn lemma_snapshot_deterministic(a: World, b: World)
    requires
        a@ == b@,
    ensures
        a@.snapshot() == b@.snapshot(),
{
}

/// Appends the four bytes of `v`, the most significant first.
fn push_be(out: &mut Vec<u8>, v: u32)
    ensures
        final(out)@ == old(out)@ + be_bytes(v),
{
    out.push((v / 0x100_0000) as u8);
    out.push(((v / 0x1_0000) % 0x100) as u8);
    out.push(((v / 0x100) % 0x100) as u8);
    out.push((v % 0x100) as u8);
    assert(out@ =~= old(out)@ + be_bytes(v));
}

impl World {
    /// The state of every entity, for sending to the programs that play.
    pub fn entity_state(&self) -> (state: Vec<u8>)
        requires
            self@.aligned(),
            self@.placed(),
        ensures
            state@ == self@.snapshot(),
            state@.len() == 12 * self@.len(),
    {
        let mut state: Vec<u8> = Vec::new();
        let n = self.alive.len();
        let mut i: usize = 0;
        while i < n
            invariant
                self@.aligned(),
                self@.placed(),
                n == self@.len(),
                0 <= i <= n,
                state@ == self@.snapshot_upto(i as nat),
            decreases n - i,
        {
            let ghost before = state@;
            assert(self@.position[i as int].len() > 0);
            let cell = self.position[i][0];
            state.push((i % 256) as u8);
            push_be(&mut state, cell.x);
            push_be(&mut state, cell.y);
            state.push(self.velocity[i].1.as_num());
            state.push(self.velocity[i].0);
            state.push(
                if self.shield[i] {
                    1
                } else {
                    0
                },
            );
            assert(state@ =~= before + self@.record(i as int));
            i += 1;
        }
        proof {
            lemma_snapshot_len(self@, n as nat);
        }
        state
    }
}

/// The two seats of the game.
#[derive(Copy, Clone, PartialEq, Eq, Debug, Structural)]
pub enum Player {
    One,
    Two,
}

impl Player {
    /// The entity id of the player in every snapshot.
    pub open spec fn spec_id(&self) -> u8 {
        match self {
            Player::One => PLAYER_1_ID,
            Player::Two => PLAYER_2_ID,
        }
    }

    /// The socket on which the game listens for this player.
    pub fn sock_path(&self) -> (path: &'static str)
        ensures
            path@ == match self {
                Player::One => SOCK_NAME_1@,
                Player::Two => SOCK_NAME_2@,
            },
    {
        match self {
            Player::One => SOCK_NAME_1,
            Player::Two => SOCK_NAME_2,
        }
    }

    /// The entity id of this player in every snapshot.
    #[verifier::when_used_as_spec(spec_id)]
    pub fn id(&self) -> (id: u8)
        ensures
            id == self.spec_id(),
    {
        match self {
            Player::One => PLAYER_1_ID,
            Player::Two => PLAYER_2_ID,
        }
    }

    /// The player on the other side.
    pub fn opponent(&self) -> (other: Player)
        ensures
            other != *self,
    {
        match self {
            Player::One => Player::Two,
            Player::Two => Player::One,
        }
    }
}

/// Why a program that plays stops reading.
#[derive(Debug)]
pub enum SDKError {
    /// The game has closed the connection.
    Stop,
    /// Anything else, in words.
    Misc(String),
}

impl SDKError {
    /// The error in words.
    pub open spec fn spec_message(&self) -> Seq<char> {
        match self {
            SDKError::Stop => "stop"@,
            SDKError::Misc(msg) => msg@,
        }
    }

    /// The error in words.
    pub fn message(&self) -> (text: String)
        ensures
            text@ == self.spec_message(),
    {
        match self {
            SDKError::Stop => "stop".to_string(),
            SDKError::Misc(msg) => msg.clone(),
        }
    }
}

/// What a snapshot tells of one entity.
#[derive(Copy, Clone, PartialEq, Eq, Debug, Structural)]
pub struct EntityState {
    pub id: u8,
    pub x: u32,
    pub y: u32,
    pub dir: Dir,
    pub velocity: u8,
    pub has_shield: bool,
}

/// The entity that a record stands for, or nothing where the bytes are too
/// few or the byte of the direction is none.
pub open spec fn entity_spec(msg: Seq<u8>) -> Option<EntityState> {
    if msg.len() < 12 {
        None
    } else {
        match Dir::spec_decode(msg[9]) {
            Some(dir) => Some(
                EntityState {
                    id: msg[0],
                    x: be_value(msg, 1),
                    y: be_value(msg, 5),
                    dir,
                    velocity: msg[10],
                    has_shield: msg[11] == 1,
                },
            ),
            None => None,
        }
    }
}

/// What is read back from the record of an entity is what the world holds
/// of it.
pub proof fn lemma_record_round_trip(m: WorldModel, i: int)
    ensures
        entity_spec(m.record(i)) == Some(
            EntityState {
                id: (i % 256) as u8,
                x: m.position[i][0].x,
                y: m.position[i][0].y,
                dir: m.velocity[i].1,
                velocity: m.velocity[i].0,
                has_shield: m.shield[i],
            },
        ),
{
    let r = m.record(i);
    let x = m.position[i][0].x;
    let y = m.position[i][0].y;
    let head = seq![(i % 256) as u8];
    let tail = seq![
        m.velocity[i].1.spec_as_num(),
        m.velocity[i].0,
        if m.shield[i] {
            1u8
        } else {
            0u8
        },
    ];
    lemma_be_round_trip(x);
    lemma_be_round_trip(y);
    assert(r == head + be_bytes(x) + be_bytes(y) + tail);
    lemma_be_within(head, be_bytes(x), be_bytes(y) + tail, x);
    assert(r =~= head + be_bytes(x) + (be_bytes(y) + tail));
    lemma_be_within(head + be_bytes(x), be_bytes(y), tail, y);
    assert(r.len() == 12);
    assert(r[0] == head[0]);
    assert(r[9] == tail[0] && r[10] == tail[1] && r[11] == tail[2]);
    lemma_dir_code_round_trip(m.velocity[i].1, 0);
}

/// Four bytes in the middle of a longer run of bytes give the number they
/// were written from.
proof fn lemma_be_within(before: Seq<u8>, bytes: Seq<u8>, after: Seq<u8>, v: u32)
    requires
        bytes.len() == 4,
        be_value(bytes, 0) == v,
    ensures
        be_value(before + bytes + after, before.len() as int) == v,
{
    let all = before + bytes + after;
    let at = before.len() as int;
    assert(all[at] == bytes[0]);
    assert(all[at + 1] == bytes[1]);
    assert(all[at + 2] == bytes[2]);
    assert(all[at + 3] == bytes[3]);
}

/// Reads four bytes, the most significant first.
fn read_be(msg: &[u8], at: usize) -> (v: u32)
    requires
        at + 4 <= msg@.len(),
    ensures
        v == be_value(msg@, at as int),
{
    let b0 = msg[at] as u32;
    let b1 = msg[at + 1] as u32;
    let b2 = msg[at + 2] as u32;
    let b3 = msg[at + 3] as u32;
    b0 * 0x100_0000 + b1 * 0x1_0000 + b2 * 0x100 + b3
}

impl EntityState {
    /// Reads the record of an entity that is known to be in order.
    pub fn from_network(msg: &[u8]) -> (e: EntityState)
        requires
            entity_spec(msg@).is_some(),
        ensures
            entity_spec(msg@) == Some(e),
    {
        EntityState {
            id: msg[0],
            x: read_be(msg, 1),
            y: read_be(msg, 5),
            dir: Dir::from_num(msg[9]),
            velocity: msg[10],
            has_shield: msg[11] == 1,
        }
    }

    /// Reads the record of an entity, or nothing where the bytes are too
    /// few or the byte of the direction is none.
    pub fn decode(msg: &[u8]) -> (r: Option<EntityState>)
        ensures
            r == entity_spec(msg@),
    {
        if msg.len() < 12 || msg[9] >= 5 {
            None
        } else {
            Some(EntityState::from_network(msg))
        }
    }

    /// Whether this is the entity of player `p`.
    pub fn is_player(&self, p: Player) -> (r: bool)
        ensures
            r == (self.id == p.spec_id()),
    {
        self.id == p.id()
    }

    /// The column and the row of the entity.
    pub fn pos(&self) -> (r: (u32, u32))
        ensures
            r == (self.x, self.y),
    {
        (self.x, self.y)
    }
}

} // verus!
