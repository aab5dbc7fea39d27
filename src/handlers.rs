//! The relay's operations as its gateway calls them: each reads the clock
//! (and a push draws a fresh identifier), then acts on the store at that
//! reading, or at the store's latest instant when the clock reads earlier,
//! so a store's time never goes back.
use vstd::prelude::*;

use crate::mailbox::{later_time, after_expire, after_pull, after_push, holds_id, packet_of, pulled, Mailbox, MAX_PAYLOAD_SIZE};
use crate::models::{HealthResponse, MeshStatusResponse, NodeStatus, PullResponse, PushRequest, PushResponse, RegisterRequest, RegisterResponse, RelayError};
use crate::registry::{after_demotion, after_heartbeat, describes, in_mesh, is_identity, registration_of, requested_state, stale_pred, state_text, Registry, STALE_AFTER_SECONDS};
use crate::sources::{fresh_packet_id, now_seconds};

verus! {

/// Liveness report of the service, with the library's version.
pub fn health() -> (r: HealthResponse)
    ensures
        r.status@ == "ok"@,
        r.version@ == "0.1.0"@,
{
    proof {
        reveal_strlit("ok");
        reveal_strlit("0.1.0");
    }
    HealthResponse { status: String::from_str("ok"), version: String::from_str("0.1.0") }
}

/// Accepts a packet for later pickup, under a fresh identifier and the
/// current time. An oversized payload is refused and nothing is stored; a
/// push whose drawn identifier is taken stores nothing and may be retried.
pub fn push(mailbox: &mut Mailbox, req: PushRequest) -> (r: Result<PushResponse, RelayError>)
    requires
        old(mailbox).wf(),
    ensures
        final(mailbox).wf(),
        req.payload_cipher@.len() > MAX_PAYLOAD_SIZE ==> r == Err::<PushResponse, RelayError>(
            RelayError::PayloadTooLarge,
        ),
        req.payload_cipher@.len() <= MAX_PAYLOAD_SIZE ==> r is Ok || r == Err::<PushResponse, RelayError>(
            RelayError::IdConflict,
        ),
        r == Err::<PushResponse, RelayError>(RelayError::IdConflict) ==> old(mailbox)@.len() > 0,
        r is Err ==> final(mailbox)@ == old(mailbox)@ && final(mailbox).latest() == old(mailbox).latest(),
        r is Ok ==> r->Ok_0.ok && !holds_id(old(mailbox)@, r->Ok_0.packet_id) && exists|now: i64|
            #[trigger] after_push(old(mailbox)@, packet_of(r->Ok_0.packet_id, now as int, req))
                == final(mailbox)@ && old(mailbox).latest() <= now && final(mailbox).latest() == now,
{
    if req.payload_cipher.len() > MAX_PAYLOAD_SIZE {
        return Err(RelayError::PayloadTooLarge);
    }
    let id = fresh_packet_id();
    let now = later_time(now_seconds(), mailbox.latest_time());
    let ghost spec_req = req;
    match mailbox.push_at(id, now, req) {
        Ok(packet_id) => {
            assert(after_push(old(mailbox)@, packet_of(packet_id, now as int, spec_req)) == mailbox@
                && old(mailbox).latest() <= now && mailbox.latest() == now);
            Ok(PushResponse { ok: true, packet_id })
        },
        Err(e) => Err(e),
    }
}

/// Takes the packets addressed to `instance_id` in `mesh_id` that have not
/// expired at the current time, oldest first.
pub fn pull(mailbox: &mut Mailbox, mesh_id: String, instance_id: String) -> (r: PullResponse)
    requires
        old(mailbox).wf(),
    ensures
        final(mailbox).wf(),
        r.mesh_id == mesh_id,
        exists|now: i64|
            #[trigger] pulled(old(mailbox)@, mesh_id@, instance_id@, now as int) == r.packets@
                && final(mailbox)@ == after_pull(old(mailbox)@, mesh_id@, instance_id@, now as int)
                && old(mailbox).latest() <= now && final(mailbox).latest() == now,
{
    let now = later_time(now_seconds(), mailbox.latest_time());
    let packets = mailbox.pull_at(&mesh_id, &instance_id, now);
    PullResponse { mesh_id, packets }
}

/// Drops the packets that have expired at the current time and returns how
/// many were dropped.
pub fn cleanup_expired(mailbox: &mut Mailbox) -> (r: u64)
    requires
        old(mailbox).wf(),
    ensures
        final(mailbox).wf(),
        r == old(mailbox)@.len() - final(mailbox)@.len(),
        exists|now: i64|
            #[trigger] after_expire(old(mailbox)@, now as int) == final(mailbox)@ && old(mailbox).latest() <= now
                && final(mailbox).latest() == now,
{
    let now = later_time(now_seconds(), mailbox.latest_time());
    mailbox.expire_at(now)
}

/// Records a heartbeat at the current time.
pub fn register(registry: &mut Registry, req: RegisterRequest) -> (r: RegisterResponse)
    requires
        old(registry).wf(),
    ensures
        final(registry).wf(),
        r.ok,
        r.instance_id == req.instance_id,
        r.mesh_id == req.mesh_id,
        r.status@ == state_text(requested_state(req.status)),
        exists|now: i64|
            #[trigger] after_heartbeat(old(registry)@, registration_of(now as int, req)) == final(registry)@
                && old(registry).latest() <= now && final(registry).latest() == now,
{
    let now = later_time(now_seconds(), registry.latest_time());
    registry.heartbeat_at(now, req)
}

/// Demotes the registrations unseen for twenty minutes at the current time
/// and returns how many it demoted.
pub fn mark_offline_nodes(registry: &mut Registry) -> (r: u64)
    requires
        old(registry).wf(),
    ensures
        final(registry).wf(),
        exists|now: i64|
            #[trigger] after_demotion(old(registry)@, now as int, STALE_AFTER_SECONDS as int) == final(registry)@
                && r == old(registry)@.filter(stale_pred(now as int, STALE_AFTER_SECONDS as int)).len()
                && old(registry).latest() <= now && final(registry).latest() == now,
{
    let now = later_time(now_seconds(), registry.latest_time());
    registry.demote_stale_at(now, STALE_AFTER_SECONDS)
}

/// The registrations of `mesh_id`, most recently seen first.
pub fn mesh_status(registry: &Registry, mesh_id: String) -> (r: MeshStatusResponse)
    ensures
        r.mesh_id == mesh_id,
        r.nodes@.len() == in_mesh(registry@, mesh_id@).len(),
        forall|i: int| 0 <= i < r.nodes@.len() ==> describes(#[trigger] r.nodes@[i], in_mesh(registry@, mesh_id@)[i]),
{
    let nodes = registry.query(&mesh_id);
    MeshStatusResponse { mesh_id, nodes }
}

/// The registration of `instance_id` in `mesh_id`; `NotFound` exactly when
/// there is none.
pub fn resolve_node(registry: &Registry, mesh_id: String, instance_id: String) -> (r: Result<NodeStatus, RelayError>)
    ensures
        r is Err <==> !(exists|i: int| 0 <= i < registry@.len() && is_identity(registry@[i], mesh_id@, instance_id@)),
        r is Err ==> r == Err::<NodeStatus, RelayError>(RelayError::NotFound),
        r is Ok ==> exists|i: int|
            0 <= i < registry@.len() && is_identity(registry@[i], mesh_id@, instance_id@) && describes(r->Ok_0, registry@[i]),
{
    match registry.resolve(&mesh_id, &instance_id) {
        Some(n) => Ok(n),
        None => Err(RelayError::NotFound),
    }
}

} // verus!
