use vstd::prelude::*;

verus! {

/// A set of independent per-object state-change flags, one bit each.
pub type Signals = u32;

/// A set of independent per-handle permission flags, one bit each.
pub type Rights = u32;

pub const MX_SIGNAL_NONE: Signals = 0;

pub const MX_CHANNEL_READABLE: Signals = 1;

pub const MX_CHANNEL_WRITABLE: Signals = 2;

pub const MX_CHANNEL_PEER_CLOSED: Signals = 4;

pub const MX_RIGHT_NONE: Rights = 0;

pub const MX_RIGHT_DUPLICATE: Rights = 1;

pub const MX_RIGHT_TRANSFER: Rights = 2;

pub const MX_RIGHT_READ: Rights = 4;

pub const MX_RIGHT_WRITE: Rights = 8;

pub const MX_RIGHT_EXECUTE: Rights = 16;

pub const MX_RIGHT_MAP: Rights = 32;

pub const MX_RIGHT_GET_PROPERTY: Rights = 64;

pub const MX_RIGHT_SET_PROPERTY: Rights = 128;

pub const MX_RIGHT_DEBUG: Rights = 256;

/// Sentinel rights mask asking `duplicate` for a copy with the exact rights
/// of the original handle.
pub const MX_RIGHT_SAME_RIGHTS: Rights = 0x8000_0000;

/// A snapshot of one object's signal state, as observed by a wait.
#[derive(Debug, Clone, Copy, PartialEq, Eq, Structural)]
pub struct SignalsState {
    /// The signals asserted at the moment of the snapshot.
    pub satisfied: Signals,
    /// The signals that could still become asserted on the object.
    pub satisfiable: Signals,
}

impl SignalsState {
    /// The signals asserted at the moment of the snapshot.
    pub fn satisfied(&self) -> (r: Signals)
        ensures
            r == self.satisfied,
    {
        self.satisfied
    }

    /// The signals that could still become asserted.
    pub fn satisfiable(&self) -> (r: Signals)
        ensures
            r == self.satisfiable,
    {
        self.satisfiable
    }
}

} // verus!
