//! Network transport between game clients and an authoritative server:
//! the message schema and its binary codec, length-prefixed framing,
//! per-connection sessions with a ping/pong keepalive, and the decisions of
//! the server's single-threaded reactor. The sockets, the poller and the
//! client's reader and writer tasks live with the caller, which hands this
//! crate plain bytes and events.
//!
//! Alongside: the texture ordering and placeholder pattern of the client's
//! texture atlas, its terrain generator, and a few plain data types.
pub mod atlas;
pub mod codec;
pub mod error;
pub mod framing;
pub mod ids;
pub mod protocol;
pub mod server;
pub mod session;
pub mod terrain;
pub mod ui;
pub mod wire;

pub use atlas::{invalid_texture, sort_textures, Texture};
pub use codec::{decode, encode, frame_message};
pub use error::NetworkError;
pub use framing::{write_frame, FrameReader};
pub use ids::{EntityId, UserId};
pub use protocol::{
    BlockUpdate, ChatSent, Disconnect, EntityMoved, EntityRotated, Message, PartialChunkUpdate,
    Ping, PlayerJoin, PlayerLeave, PlayerMove, PlayerRotate, Pong, Protocol, ReceivePacket,
    SendPacket, SpawnEntity, UserAuthenticate, CHUNK_SIZE, CHUNK_VOLUME,
};
pub use server::{AuthorizationEvent, ConnectionEvent, ReadAction, ReadEvent, TransportSystem};
pub use session::{Session, MAX_PING_TIMEOUT, PING_INTERVAL};
pub use terrain::World;
pub use ui::{
    InputChange, LastNetworkRotationSync, LastNetworkTranslationSync, ObjectAlignment, Positioning,
};
