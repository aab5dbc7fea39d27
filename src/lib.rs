//! A store-and-forward relay core: a mailbox of opaque packets with
//! time-bounded retention and take-once delivery, and a registry of device
//! presence with heartbeat refresh and offline demotion, both scoped by mesh.
use vstd::prelude::*;

pub mod codec;
pub mod handlers;
pub mod laws;
pub mod mailbox;
pub mod models;
pub mod ordered;
pub mod registry;
mod sources;
pub mod sweeper;

verus! {

} // verus!
