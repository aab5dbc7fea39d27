//! What holds of the store across operations, stated over the same spec
//! functions that the operations' own contracts use.
use vstd::prelude::*;

use crate::mailbox::{Mailbox, after_expire, after_pull, after_push, by_creation, deliver_pred, deliverable, keep_pred, live_pred, packet_key, packets_wf, pulled};
use crate::models::{EncryptedPacket, NodeState, RegisterRequest, Registration};
use crate::ordered::{insert_ordered, sorted_by, lemma_filter_all, lemma_filter_elements, lemma_filter_insert_ordered, lemma_filter_none, lemma_filter_sorted, lemma_insert_ordered_last, lemma_insert_ordered_sorted};
use crate::registry::{Registry, is_identity, after_demotion, after_heartbeat, by_recency, demoted, identity_pred, in_mesh, mesh_pred, other_identity_pred, registration_of, regs_wf};

verus! {

/// Take-once delivery: no packet that a pull returns is left in the
/// mailbox, so no later pull, for any mesh, target or time, returns a packet
/// with its identifier.
pub proof fn law_at_most_once_delivery(
    s: Seq<EncryptedPacket>,
    mesh: Seq<char>,
    target: Seq<char>,
    now: int,
    mesh2: Seq<char>,
    target2: Seq<char>,
    now2: int,
)
    requires
        packets_wf(s),
    ensures
        forall|i: int, j: int|
            0 <= i < pulled(s, mesh, target, now).len() && 0 <= j < after_pull(s, mesh, target, now).len()
                ==> #[trigger] pulled(s, mesh, target, now)[i].id != #[trigger] after_pull(s, mesh, target, now)[j].id,
        forall|i: int, j: int|
            0 <= i < pulled(s, mesh, target, now).len() && 0 <= j < pulled(
                after_pull(s, mesh, target, now),
                mesh2,
                target2,
                now2,
            ).len() ==> #[trigger] pulled(s, mesh, target, now)[i].id != #[trigger] pulled(
                after_pull(s, mesh, target, now),
                mesh2,
                target2,
                now2,
            )[j].id,
{
    let dp = deliver_pred(mesh, target, now);
    let kp = keep_pred(mesh, target, now);
    let out = pulled(s, mesh, target, now);
    let rest = after_pull(s, mesh, target, now);
    let again = pulled(rest, mesh2, target2, now2);
    lemma_filter_elements(s, dp);
    lemma_filter_elements(s, kp);
    lemma_filter_elements(rest, deliver_pred(mesh2, target2, now2));
    assert forall|i: int, j: int| 0 <= i < out.len() && 0 <= j < rest.len() implies #[trigger] out[i].id
        != #[trigger] rest[j].id by {
        assert(s.contains(out[i]));
        assert(s.contains(rest[j]));
        let a = choose|a: int| 0 <= a < s.len() && s[a] == out[i];
        let b = choose|b: int| 0 <= b < s.len() && s[b] == rest[j];
        if a != b {
            assert((packet_key())(s[a]) != (packet_key())(s[b]));
        }
    }
    assert forall|i: int, j: int| 0 <= i < out.len() && 0 <= j < again.len() implies #[trigger] out[i].id
        != #[trigger] again[j].id by {
        assert(rest.contains(again[j]));
        let k = choose|k: int| 0 <= k < rest.len() && rest[k] == again[j];
        assert(out[i].id != rest[k].id);
    }
}

/// No packet past its expiry is delivered: a pull at `now` returns only
/// packets whose expiry lies after `now`, so no pull at `now` or later
/// returns one that had expired at `now`; and after an expiry sweep at
/// `now` no held packet expired before `now`.
pub proof fn law_no_delivery_past_expiry(
    s: Seq<EncryptedPacket>,
    mesh: Seq<char>,
    target: Seq<char>,
    now: int,
    later: int,
)
    requires
        now <= later,
    ensures
        forall|i: int| 0 <= i < pulled(s, mesh, target, now).len() ==> now < #[trigger] pulled(s, mesh, target, now)[i].ttl,
        forall|i: int| 0 <= i < pulled(s, mesh, target, later).len() ==> now < #[trigger] pulled(s, mesh, target, later)[i].ttl,
        forall|i: int| 0 <= i < after_expire(s, now).len() ==> now <= #[trigger] after_expire(s, now)[i].ttl,
{
    lemma_filter_elements(s, deliver_pred(mesh, target, now));
    lemma_filter_elements(s, deliver_pred(mesh, target, later));
    lemma_filter_elements(s, live_pred(now));
}

/// First in, first out per target: two packets for the same mesh and target,
/// the second created no earlier than the first, pushed into a mailbox that
/// holds nothing deliverable there, are pulled together in push order.
pub proof fn law_fifo_per_target(
    s: Seq<EncryptedPacket>,
    p1: EncryptedPacket,
    p2: EncryptedPacket,
    mesh: Seq<char>,
    target: Seq<char>,
    now: int,
)
    requires
        packets_wf(s),
        pulled(s, mesh, target, now) == Seq::<EncryptedPacket>::empty(),
        deliverable(p1, mesh, target, now),
        deliverable(p2, mesh, target, now),
        p1.created_at <= p2.created_at,
    ensures
        pulled(after_push(after_push(s, p1), p2), mesh, target, now) == seq![p1, p2],
{
    let dp = deliver_pred(mesh, target, now);
    let rank = by_creation();
    let s1 = after_push(s, p1);
    lemma_filter_insert_ordered(s, p1, dp, rank);
    assert(s1.filter(dp) == insert_ordered(Seq::<EncryptedPacket>::empty(), p1, rank));
    assert(s1.filter(dp) == seq![p1]);
    lemma_insert_ordered_sorted(s, p1, rank);
    lemma_filter_insert_ordered(s1, p2, dp, rank);
    assert(seq![p1][0] == p1);
    lemma_insert_ordered_last(seq![p1], p2, rank);
    assert(seq![p1].push(p2) =~= seq![p1, p2]);
}

/// The packets a pull returns are oldest first.
pub proof fn law_pull_oldest_first(s: Seq<EncryptedPacket>, mesh: Seq<char>, target: Seq<char>, now: int)
    requires
        packets_wf(s),
    ensures
        forall|i: int, j: int|
            0 <= i < j < pulled(s, mesh, target, now).len() ==> #[trigger] pulled(s, mesh, target, now)[i].created_at
                <= #[trigger] pulled(s, mesh, target, now)[j].created_at,
{
    lemma_filter_sorted(s, deliver_pred(mesh, target, now), by_creation());
    let out = pulled(s, mesh, target, now);
    assert forall|i: int, j: int| 0 <= i < j < out.len() implies #[trigger] out[i].created_at
        <= #[trigger] out[j].created_at by {
        assert((by_creation())(out[i]) <= (by_creation())(out[j]));
    }
}

/// After any heartbeat the registry holds exactly one registration of its
/// identity, the one the heartbeat wrote, and the registrations of every
/// other identity are as they were.
pub proof fn law_heartbeat_single_row(s: Seq<Registration>, reg: Registration)
    requires
        regs_wf(s),
    ensures
        after_heartbeat(s, reg).filter(identity_pred(reg.mesh_id@, reg.instance_id@)) == seq![reg],
        after_heartbeat(s, reg).filter(other_identity_pred(reg.mesh_id@, reg.instance_id@))
            == s.filter(other_identity_pred(reg.mesh_id@, reg.instance_id@)),
{
    lemma_heartbeat_rows(s, reg);
}

proof fn lemma_heartbeat_rows(s: Seq<Registration>, reg: Registration)
    requires
        sorted_by(s, by_recency()),
    ensures
        after_heartbeat(s, reg).filter(identity_pred(reg.mesh_id@, reg.instance_id@)) == seq![reg],
        after_heartbeat(s, reg).filter(other_identity_pred(reg.mesh_id@, reg.instance_id@))
            == s.filter(other_identity_pred(reg.mesh_id@, reg.instance_id@)),
{
    let ip = identity_pred(reg.mesh_id@, reg.instance_id@);
    let op = other_identity_pred(reg.mesh_id@, reg.instance_id@);
    let rank = by_recency();
    let f = s.filter(op);
    lemma_filter_sorted(s, op, rank);
    lemma_filter_elements(s, op);
    lemma_filter_insert_ordered(f, reg, ip, rank);
    lemma_filter_none(f, ip);
    lemma_filter_insert_ordered(f, reg, op, rank);
    lemma_filter_all(f, op);
}

/// Repeating an identical heartbeat leaves one registration of the
/// identity, seen no earlier than before, online when the request names no
/// status, and every other registration as the first heartbeat left it.
pub proof fn law_heartbeat_idempotent(s: Seq<Registration>, req: RegisterRequest, now1: int, now2: int)
    requires
        regs_wf(s),
        now1 <= now2,
        i64::MIN <= now1,
        now2 <= i64::MAX,
    ensures
        ({
            let r1 = registration_of(now1, req);
            let r2 = registration_of(now2, req);
            let s1 = after_heartbeat(s, r1);
            let s2 = after_heartbeat(s1, r2);
            &&& s2.filter(identity_pred(req.mesh_id@, req.instance_id@)) == seq![r2]
            &&& r1.last_seen <= r2.last_seen
            &&& req.status is None ==> r2.status is Online
            &&& s2.filter(other_identity_pred(req.mesh_id@, req.instance_id@)) == s1.filter(
                other_identity_pred(req.mesh_id@, req.instance_id@),
            )
        }),
{
    let r1 = registration_of(now1, req);
    let r2 = registration_of(now2, req);
    let s1 = after_heartbeat(s, r1);
    lemma_filter_sorted(s, other_identity_pred(req.mesh_id@, req.instance_id@), by_recency());
    lemma_insert_ordered_sorted(s.filter(other_identity_pred(req.mesh_id@, req.instance_id@)), r1, by_recency());
    lemma_heartbeat_rows(s1, r2);
}

/// Demotion changes only online registrations last seen more than
/// `threshold` seconds before `now`, only to offline, and keeps the order;
/// nothing becomes online by it.
pub proof fn law_demotion_monotone(s: Seq<Registration>, now: int, threshold: int)
    ensures
        after_demotion(s, now, threshold).len() == s.len(),
        forall|i: int|
            0 <= i < s.len() && now <= s[i].last_seen + threshold ==> #[trigger] after_demotion(s, now, threshold)[i] == s[i],
        forall|i: int|
            0 <= i < s.len() && !(s[i].status is Online) ==> #[trigger] after_demotion(s, now, threshold)[i] == s[i],
        forall|i: int|
            0 <= i < s.len() && #[trigger] after_demotion(s, now, threshold)[i] != s[i] ==> after_demotion(
                s,
                now,
                threshold,
            )[i] == (Registration { status: NodeState::Offline, ..s[i] }),
        forall|i: int|
            0 <= i < s.len() && (#[trigger] after_demotion(s, now, threshold)[i]).status is Online ==> s[i].status is Online,
{
    assert forall|i: int| 0 <= i < s.len() implies #[trigger] after_demotion(s, now, threshold)[i] == demoted(
        s[i],
        now,
        threshold,
    ) by {}
}

/// Mesh isolation: a pull scoped to one mesh returns only that mesh's
/// packets, and a query scoped to one mesh only that mesh's registrations,
/// whatever instance identifiers other meshes share with it.
pub proof fn law_mesh_isolation(
    packets: Seq<EncryptedPacket>,
    regs: Seq<Registration>,
    mesh: Seq<char>,
    target: Seq<char>,
    now: int,
)
    ensures
        forall|i: int| 0 <= i < pulled(packets, mesh, target, now).len() ==> (#[trigger] pulled(packets, mesh, target, now)[i]).mesh_id@ == mesh,
        forall|i: int| 0 <= i < in_mesh(regs, mesh).len() ==> (#[trigger] in_mesh(regs, mesh)[i]).mesh_id@ == mesh,
{
    lemma_filter_elements(packets, deliver_pred(mesh, target, now));
    lemma_filter_elements(regs, mesh_pred(mesh));
}

/// An expiry sweep repeated at the same time removes nothing more.
pub proof fn law_expire_idempotent(s: Seq<EncryptedPacket>, now: int)
    ensures
        after_expire(after_expire(s, now), now) == after_expire(s, now),
{
    lemma_filter_elements(s, live_pred(now));
    let t = after_expire(s, now);
    assert forall|i: int| 0 <= i < t.len() implies (live_pred(now))(#[trigger] t[i]) by {}
    lemma_filter_all(t, live_pred(now));
}

/// A demotion repeated at the same time with the same threshold changes
/// nothing more.
pub proof fn law_demotion_idempotent(s: Seq<Registration>, now: int, threshold: int)
    ensures
        after_demotion(after_demotion(s, now, threshold), now, threshold) == after_demotion(s, now, threshold),
{
    let t = after_demotion(s, now, threshold);
    assert(after_demotion(t, now, threshold) =~= t);
}

/// First in, first out across two pushes that succeed one after the other:
/// the second acts no earlier than the first (the mailbox's time never goes
/// back), so pulled together they come out in push order.
pub proof fn law_fifo_sequential_pushes(
    m0: Mailbox,
    m1: Mailbox,
    m2: Mailbox,
    p1: EncryptedPacket,
    p2: EncryptedPacket,
    mesh: Seq<char>,
    target: Seq<char>,
    now: int,
)
    requires
        m0.wf(),
        m1@ == after_push(m0@, p1),
        m1.latest() == p1.created_at,
        m1.latest() <= p2.created_at,
        m2@ == after_push(m1@, p2),
        pulled(m0@, mesh, target, now) == Seq::<EncryptedPacket>::empty(),
        deliverable(p1, mesh, target, now),
        deliverable(p2, mesh, target, now),
    ensures
        pulled(m2@, mesh, target, now) == seq![p1, p2],
{
    law_fifo_per_target(m0@, p1, p2, mesh, target, now);
}

/// A heartbeat at a time no earlier than the registry's latest instant
/// leaves one registration of its identity, seen no earlier than any
/// registration the identity had before.
pub proof fn law_heartbeat_last_seen_monotone(g0: Registry, g1: Registry, req: RegisterRequest, now: i64)
    requires
        g0.wf(),
        g0.latest() <= now,
        g1@ == after_heartbeat(g0@, registration_of(now as int, req)),
    ensures
        g1@.filter(identity_pred(req.mesh_id@, req.instance_id@)) == seq![registration_of(now as int, req)],
        forall|i: int|
            0 <= i < g0@.len() && is_identity(g0@[i], req.mesh_id@, req.instance_id@) ==> #[trigger] g0@[i].last_seen
                <= registration_of(now as int, req).last_seen,
{
    law_heartbeat_single_row(g0@, registration_of(now as int, req));
}

} // verus!
