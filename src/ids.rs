use vstd::prelude::*;

verus! {

/// Identifier of a connection, assigned by the server when it accepts the
/// socket and never reused while the process lives. The server itself is
/// `UserId(0)`.
#[derive(Clone, Copy, Debug, PartialEq, Eq, Hash, Structural)]
pub struct UserId(pub u64);

/// Identifier of an entity of the game world.
#[derive(Clone, Copy, Debug, PartialEq, Eq, Hash, Structural)]
pub struct EntityId(pub u64);

impl UserId {
    /// The origin of every message a client receives.
    pub fn server() -> (r: UserId)
        ensures
            r.0 == 0,
    {
        UserId(0)
    }
}

} // verus!
