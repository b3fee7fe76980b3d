use vstd::prelude::*;

use crate::ids::{EntityId, UserId};
use crate::wire::{string_fits, text_fits};

verus! {

/// Number of blocks along each edge of a chunk.
pub const CHUNK_SIZE: usize = 16;

/// Number of blocks in a chunk.
pub const CHUNK_VOLUME: usize = 4096;

// Fields named x, y, z, w that stand for single-precision floats hold the
// float's bit pattern (`f32::to_bits`), so that a value travels bit for bit.

/// Heartbeat sent by the server; `code` is a monotonically increasing
/// counter used as a sequence marker.
#[derive(Clone, Copy, Debug, PartialEq, Eq, Structural)]
pub struct Ping {
    pub code: u64,
}

/// Answer to a `Ping`, carrying the code of the ping it acknowledges.
#[derive(Clone, Copy, Debug, PartialEq, Eq, Structural)]
pub struct Pong {
    pub code: u64,
}

/// A player entered the world.
#[derive(Clone, Debug)]
pub struct PlayerJoin {
    pub entity: EntityId,
    pub username: String,
}

/// A client moved its player to the given position.
#[derive(Clone, Copy, Debug, PartialEq, Eq, Structural)]
pub struct PlayerMove {
    pub x: u32,
    pub y: u32,
    pub z: u32,
}

/// An entity moved to the given position.
#[derive(Clone, Copy, Debug, PartialEq, Eq, Structural)]
pub struct EntityMoved {
    pub entity: EntityId,
    pub x: u32,
    pub y: u32,
    pub z: u32,
}

/// A client turned its player to the given rotation quaternion.
#[derive(Clone, Copy, Debug, PartialEq, Eq, Structural)]
pub struct PlayerRotate {
    pub x: u32,
    pub y: u32,
    pub z: u32,
    pub w: u32,
}

/// An entity turned to the given rotation quaternion.
#[derive(Clone, Copy, Debug, PartialEq, Eq, Structural)]
pub struct EntityRotated {
    pub entity: EntityId,
    pub x: u32,
    pub y: u32,
    pub z: u32,
    pub w: u32,
}

/// A player left the world.
#[derive(Clone, Copy, Debug, PartialEq, Eq, Structural)]
pub struct PlayerLeave {
    pub entity: EntityId,
}

/// The block at a world position changed to block type `id`.
#[derive(Clone, Copy, Debug, PartialEq, Eq, Structural)]
pub struct BlockUpdate {
    pub id: u32,
    pub x: i64,
    pub y: i64,
    pub z: i64,
}

/// A chat line.
#[derive(Clone, Debug)]
pub struct ChatSent {
    pub message: String,
}

/// The full contents of the chunk at chunk position (x, y, z): one block
/// type per block, `CHUNK_VOLUME` of them.
#[derive(Clone, Debug)]
pub struct PartialChunkUpdate {
    pub x: i32,
    pub y: i32,
    pub z: i32,
    pub data: Vec<u32>,
}

/// A client asks to be admitted under a name.
#[derive(Clone, Debug)]
pub struct UserAuthenticate {
    pub user_id: UserId,
    pub username: String,
}

/// A new entity appeared at the given position.
#[derive(Clone, Copy, Debug, PartialEq, Eq, Structural)]
pub struct SpawnEntity {
    pub entity: EntityId,
    pub x: u32,
    pub y: u32,
    pub z: u32,
}

/// A peer announces that it leaves.
#[derive(Clone, Copy, Debug, PartialEq, Eq, Structural)]
pub struct Disconnect {
    pub user: UserId,
}

/// Every message that travels between a client and the server.
#[derive(Clone, Debug)]
pub enum Protocol {
    Ping(Ping),
    Pong(Pong),
    PlayerJoin(PlayerJoin),
    PlayerMove(PlayerMove),
    EntityMoved(EntityMoved),
    PlayerRotate(PlayerRotate),
    EntityRotated(EntityRotated),
    PlayerLeave(PlayerLeave),
    BlockUpdate(BlockUpdate),
    ChatSent(ChatSent),
    PartialChunkUpdate(PartialChunkUpdate),
    UserAuthenticate(UserAuthenticate),
    SpawnEntity(SpawnEntity),
    Disconnect(Disconnect),
}

/// The mathematical value of a `Protocol` message: text as characters and
/// chunk contents as a sequence of block types.
pub enum Message {
    Ping(Ping),
    Pong(Pong),
    PlayerJoin { entity: EntityId, username: Seq<char> },
    PlayerMove(PlayerMove),
    EntityMoved(EntityMoved),
    PlayerRotate(PlayerRotate),
    EntityRotated(EntityRotated),
    PlayerLeave(PlayerLeave),
    BlockUpdate(BlockUpdate),
    ChatSent { message: Seq<char> },
    PartialChunkUpdate { x: i32, y: i32, z: i32, data: Seq<u32> },
    UserAuthenticate { user_id: UserId, username: Seq<char> },
    SpawnEntity(SpawnEntity),
    Disconnect(Disconnect),
}

impl View for Protocol {
    type V = Message;

    open spec fn view(&self) -> Message {
        match self {
            Protocol::Ping(p) => Message::Ping(*p),
            Protocol::Pong(p) => Message::Pong(*p),
            Protocol::PlayerJoin(p) => Message::PlayerJoin { entity: p.entity, username: p.username@ },
            Protocol::PlayerMove(p) => Message::PlayerMove(*p),
            Protocol::EntityMoved(p) => Message::EntityMoved(*p),
            Protocol::PlayerRotate(p) => Message::PlayerRotate(*p),
            Protocol::EntityRotated(p) => Message::EntityRotated(*p),
            Protocol::PlayerLeave(p) => Message::PlayerLeave(*p),
            Protocol::BlockUpdate(p) => Message::BlockUpdate(*p),
            Protocol::ChatSent(p) => Message::ChatSent { message: p.message@ },
            Protocol::PartialChunkUpdate(p) => Message::PartialChunkUpdate {
                x: p.x,
                y: p.y,
                z: p.z,
                data: p.data@,
            },
            Protocol::UserAuthenticate(p) => Message::UserAuthenticate {
                user_id: p.user_id,
                username: p.username@,
            },
            Protocol::SpawnEntity(p) => Message::SpawnEntity(*p),
            Protocol::Disconnect(p) => Message::Disconnect(*p),
        }
    }
}

impl Message {
    /// A message can be represented on the wire: a chunk holds exactly
    /// `CHUNK_VOLUME` blocks, and the byte count of each text fits a u64
    /// (which holds of every `String`).
    pub open spec fn wf(self) -> bool {
        match self {
            Message::PlayerJoin { username, .. } => text_fits(username),
            Message::ChatSent { message } => text_fits(message),
            Message::UserAuthenticate { username, .. } => text_fits(username),
            Message::PartialChunkUpdate { data, .. } => data.len() == CHUNK_VOLUME,
            _ => true,
        }
    }
}

impl Protocol {
    /// See `Message::wf`.
    pub fn is_well_formed(&self) -> (r: bool)
        ensures
            r == self@.wf(),
    {
        match self {
            Protocol::PlayerJoin(p) => string_fits(&p.username),
            Protocol::ChatSent(p) => string_fits(&p.message),
            Protocol::UserAuthenticate(p) => string_fits(&p.username),
            Protocol::PartialChunkUpdate(p) => p.data.len() == CHUNK_VOLUME,
            _ => true,
        }
    }
}

/// A message received by the server, tagged with the connection it came from.
#[derive(Clone, Debug)]
pub struct ReceivePacket(pub Protocol, pub UserId);

/// A message to be sent, tagged with its destination.
#[derive(Clone, Debug)]
pub struct SendPacket(pub Protocol, pub UserId);

} // verus!
