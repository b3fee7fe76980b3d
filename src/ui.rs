use vstd::prelude::*;

use crate::protocol::{PlayerMove, PlayerRotate};

verus! {

/// Where a user-interface element is anchored within its parent.
#[derive(Clone, Copy, Debug, PartialEq, Eq, Structural)]
pub enum ObjectAlignment {
    Center,
    Left,
    Right,
    Top,
    Bottom,
    TopLeft,
    TopRight,
    BottomLeft,
    BottomRight,
}

/// Whether an element's coordinates are absolute or relative to its parent.
#[derive(Clone, Copy, Debug, PartialEq, Eq, Structural)]
pub enum Positioning {
    Absolute,
    Relative,
}

/// How a key changed since the last frame.
#[derive(Clone, Copy, Debug, PartialEq, Eq, Structural)]
pub enum InputChange {
    Pressed,
    Released,
    Unchanged,
}

/// The player position last sent to the server.
#[derive(Clone, Copy, Debug, PartialEq, Eq, Structural)]
pub struct LastNetworkTranslationSync(pub PlayerMove);

/// The player rotation last sent to the server.
#[derive(Clone, Copy, Debug, PartialEq, Eq, Structural)]
pub struct LastNetworkRotationSync(pub PlayerRotate);

} // verus!
