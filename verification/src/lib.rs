//! Client-side network synchronization for a real-time multiplayer simulation.
//!
//! The library receives authoritative state bundles from a server over an
//! unreliable transport, reconciles them against locally predicted player
//! state, and produces smooth motion for remote entities. It also carries the
//! small pure-logic pieces that live beside the network layer: the inventory
//! and crafting rules and the UI signal registry.

pub mod codec;
pub mod interp;
pub mod items;
pub mod protocol;
pub mod reconcile;
pub mod session;
pub mod signals;
