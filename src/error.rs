use vstd::prelude::*;

verus! {

/// Why a connection, or one of its messages, could not be handled. Every one
/// of these ends that connection only.
#[derive(Clone, Copy, Debug, PartialEq, Eq, Structural)]
pub enum NetworkError {
    /// The bytes of a payload are not the encoding of any message.
    MalformedPayload,
    /// The stream ended, or the socket failed, before a promised payload
    /// was complete, or between frames.
    ConnectionClosed,
    /// The peer stayed silent past the keepalive allowance.
    KeepaliveTimeout,
}

} // verus!
