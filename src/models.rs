//! The relay's records and the requests and responses of its operations.
//! Timestamps are whole seconds since the Unix epoch, in UTC; a packet
//! identifier is the 128-bit value of a UUID.
use vstd::prelude::*;

verus! {

/// An opaque packet held for pickup. The relay never reads the payload.
pub struct EncryptedPacket {
    pub id: u128,
    pub mesh_id: String,
    pub target_instance_id: String,
    pub sender_instance_id: String,
    pub payload_cipher: Vec<u8>,
    pub nonce: Vec<u8>,
    pub created_at: i64,
    pub ttl: i64,
}

/// An account with a rate-limit plan. Kept in storage, not consumed by the core.
pub struct Account {
    pub api_key: String,
    pub plan: Plan,
    pub allowance: u32,
}

#[derive(Clone, Copy, Debug, PartialEq, Eq, Structural)]
pub enum Plan {
    Free,
    Pro,
}

/// Liveness of a registration. `Online` and `Offline` follow the heartbeat
/// and demotion rules; `Other` is a status a device reported of itself,
/// which demotion leaves alone.
pub enum NodeState {
    Online,
    Offline,
    Other(String),
}

/// One device's presence in a mesh.
pub struct Registration {
    pub mesh_id: String,
    pub instance_id: String,
    pub external_ip: String,
    pub port: u16,
    pub status: NodeState,
    pub last_seen: i64,
}

/// Heartbeat payload.
pub struct RegisterRequest {
    pub instance_id: String,
    pub mesh_id: String,
    pub external_ip: String,
    pub port: u16,
    pub status: Option<String>,
}

pub struct RegisterResponse {
    pub ok: bool,
    pub instance_id: String,
    pub mesh_id: String,
    pub status: String,
}

/// Push payload, with the binary fields already decoded.
pub struct PushRequest {
    pub mesh_id: String,
    pub target_instance_id: String,
    pub sender_instance_id: String,
    pub payload_cipher: Vec<u8>,
    pub nonce: Vec<u8>,
    pub ttl_seconds: Option<u64>,
}

pub struct PushResponse {
    pub ok: bool,
    pub packet_id: u128,
}

/// The packets handed to one pull, oldest first.
pub struct PullResponse {
    pub mesh_id: String,
    pub packets: Vec<EncryptedPacket>,
}

/// The registrations of one mesh, most recently seen first.
pub struct MeshStatusResponse {
    pub mesh_id: String,
    pub nodes: Vec<NodeStatus>,
}

/// What a query reports of one registration.
pub struct NodeStatus {
    pub instance_id: String,
    pub external_ip: String,
    pub port: u16,
    pub status: String,
    pub last_seen: i64,
}

pub struct HealthResponse {
    pub status: String,
    pub version: String,
}

/// The failures an operation reports to its caller.
#[derive(Clone, Copy, Debug, PartialEq, Eq, Structural)]
pub enum RelayError {
    /// The payload is over the size bound; nothing was stored.
    PayloadTooLarge,
    /// The identifier drawn for a new packet is already in use; nothing was
    /// stored and the push may be retried.
    IdConflict,
    /// No registration has the requested identity.
    NotFound,
    /// A binary field is not valid standard base64.
    BadEncoding,
}

} // verus!
