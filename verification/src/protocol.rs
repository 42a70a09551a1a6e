//! Wire-protocol vocabulary: identities, ticks, positions, and the closed set
//! of client/server message shapes exchanged each simulation step.

use vstd::prelude::*;

verus! {

/// Simulation steps per second shared by client and server.
pub const TICKS_PER_SECOND: u64 = 20;

/// Length of one simulation step in milliseconds.
pub const TICK_INTERVAL_MS: u64 = 50;

/// Playback delay applied to remote position samples: two tick intervals.
/// Trades visible latency for smoothness under jitter.
pub const INTERP_DELAY_MS: u64 = 100;

/// Largest datagram either side may legally produce; the receive buffer is
/// sized to this, and an envelope that encodes past it is a protocol
/// violation, not a recoverable condition.
pub const MAX_DATAGRAM: usize = 4096;

/// Stable identity assigned by the server at authentication; the join key
/// between entities and network events.
#[derive(Clone, Copy, Debug, Hash, PartialEq, Eq, Structural)]
pub struct ClientId(pub u64);

/// Monotonically increasing counter of discrete simulation steps. Only the
/// authority that owns the timeline increments it; the client mirrors the
/// latest value seen from the server.
#[derive(Clone, Copy, Debug, Hash, PartialEq, Eq, Structural)]
pub struct Tick(pub u64);

impl Tick {
    pub fn inc(&mut self)
        requires
            old(self).0 < u64::MAX,
        ensures
            final(self).0 == old(self).0 + 1,
    {
        self.0 = self.0 + 1;
    }
}

/// World position in fixed-point coordinates: each component counts integer
/// position units along one axis.
#[derive(Clone, Copy, Debug, PartialEq, Eq, Structural)]
pub struct Vec3 {
    pub x: i32,
    pub y: i32,
    pub z: i32,
}

impl Vec3 {
    pub fn new(x: i32, y: i32, z: i32) -> (r: Vec3)
        ensures
            r == (Vec3 { x, y, z }),
    {
        Vec3 { x, y, z }
    }
}

/// Server-to-client event, consumed exactly once per envelope delivery.
#[derive(Clone, Copy, Debug, PartialEq, Eq, Structural)]
pub enum Clientbound {
    AuthSuccess(ClientId),
    Spawn(ClientId, Vec3),
    Despawn(ClientId),
    Move(ClientId, Vec3, Tick),
}

/// Client-to-server message, sent fire-and-forget.
#[derive(Clone, Copy, Debug, PartialEq, Eq, Structural)]
pub enum Serverbound {
    AuthRequest,
    Move(Vec3, Tick),
    Disconnect,
}

/// One server-to-client transmission unit: a tick plus zero or more events.
/// Ordering of the events is significant only for logging; each event is
/// processed independently.
pub struct ClientboundBundle {
    pub tick: Tick,
    pub messages: Vec<Clientbound>,
}

} // verus!
