//! The packet mailbox: accepts packets, hands each one to at most one pull,
//! and drops packets whose lifetime has elapsed.
use vstd::prelude::*;

use crate::models::{EncryptedPacket, PushRequest, RelayError};
use crate::ordered::{insert_ordered, sorted_by, unique_by, lemma_filter_sorted, lemma_filter_unique, lemma_filter_elements, lemma_insert_ordered_at, lemma_insert_keeps_order, lemma_take_push, reversed};

verus! {

/// Largest accepted payload, in bytes (1 MiB).
pub const MAX_PAYLOAD_SIZE: usize = 1048576;

/// Lifetime of a packet pushed without one, in seconds.
pub const DEFAULT_TTL_SECONDS: u64 = 3600;

/// Packets are kept in order of creation time.
pub open spec fn by_creation() -> spec_fn(EncryptedPacket) -> int {
    |p: EncryptedPacket| p.created_at as int
}

/// Packets are told apart by identifier.
pub open spec fn packet_key() -> spec_fn(EncryptedPacket) -> u128 {
    |p: EncryptedPacket| p.id
}

/// Some packet of `s` has identifier `id`.
pub open spec fn holds_id(s: Seq<EncryptedPacket>, id: u128) -> bool {
    exists|i: int| 0 <= i < s.len() && s[i].id == id
}

/// Absolute expiry of a packet created at `now` that may live `lifetime`
/// seconds; a lifetime beyond the last representable instant never ends.
pub open spec fn expiry_time(now: int, lifetime: int) -> int {
    if now + lifetime > i64::MAX {
        i64::MAX as int
    } else {
        now + lifetime
    }
}

/// The lifetime a push asks for.
pub open spec fn lifetime_of(ttl_seconds: Option<u64>) -> int {
    match ttl_seconds {
        Some(t) => t as int,
        None => DEFAULT_TTL_SECONDS as int,
    }
}

/// The packet that a push stores.
pub open spec fn packet_of(id: u128, now: int, req: PushRequest) -> EncryptedPacket {
    EncryptedPacket {
        id,
        mesh_id: req.mesh_id,
        target_instance_id: req.target_instance_id,
        sender_instance_id: req.sender_instance_id,
        payload_cipher: req.payload_cipher,
        nonce: req.nonce,
        created_at: now as i64,
        ttl: expiry_time(now, lifetime_of(req.ttl_seconds)) as i64,
    }
}

/// A pull for `target` in `mesh` at time `now` takes `p`: it is addressed
/// there and its expiry lies after `now`.
pub open spec fn deliverable(p: EncryptedPacket, mesh: Seq<char>, target: Seq<char>, now: int) -> bool {
    p.mesh_id@ == mesh && p.target_instance_id@ == target && now < p.ttl
}

pub open spec fn deliver_pred(mesh: Seq<char>, target: Seq<char>, now: int) -> spec_fn(EncryptedPacket) -> bool {
    |p: EncryptedPacket| deliverable(p, mesh, target, now)
}

pub open spec fn keep_pred(mesh: Seq<char>, target: Seq<char>, now: int) -> spec_fn(EncryptedPacket) -> bool {
    |p: EncryptedPacket| !deliverable(p, mesh, target, now)
}

/// The packets a pull returns, in stored order.
pub open spec fn pulled(s: Seq<EncryptedPacket>, mesh: Seq<char>, target: Seq<char>, now: int) -> Seq<EncryptedPacket> {
    s.filter(deliver_pred(mesh, target, now))
}

/// The packets a pull leaves behind.
pub open spec fn after_pull(s: Seq<EncryptedPacket>, mesh: Seq<char>, target: Seq<char>, now: int) -> Seq<EncryptedPacket> {
    s.filter(keep_pred(mesh, target, now))
}

/// A packet whose expiry lies before `now` has elapsed.
pub open spec fn live_pred(now: int) -> spec_fn(EncryptedPacket) -> bool {
    |p: EncryptedPacket| !(p.ttl < now)
}

/// The packets an expiry sweep at `now` leaves behind.
pub open spec fn after_expire(s: Seq<EncryptedPacket>, now: int) -> Seq<EncryptedPacket> {
    s.filter(live_pred(now))
}

/// A successful push inserts the packet after every packet created no later.
pub open spec fn after_push(s: Seq<EncryptedPacket>, p: EncryptedPacket) -> Seq<EncryptedPacket> {
    insert_ordered(s, p, by_creation())
}

/// A well-formed packet sequence: oldest first, identifiers unique.
pub open spec fn packets_wf(s: Seq<EncryptedPacket>) -> bool {
    sorted_by(s, by_creation()) && unique_by(s, packet_key())
}

/// The later of two instants.
pub open spec fn later_of(a: int, b: int) -> int {
    if a >= b {
        a
    } else {
        b
    }
}

/// The later of two instants.
pub fn later_time(a: i64, b: i64) -> (r: i64)
    ensures
        r == later_of(a as int, b as int),
{
    if a >= b {
        a
    } else {
        b
    }
}

/// The packets held for pickup, oldest first, and the latest instant the
/// mailbox has acted at; no packet was created after it.
pub struct Mailbox {
    packets: Vec<EncryptedPacket>,
    latest: i64,
}

impl View for Mailbox {
    type V = Seq<EncryptedPacket>;

    closed spec fn view(&self) -> Seq<EncryptedPacket> {
        self.packets@
    }
}

impl Mailbox {
    /// The latest instant the mailbox has acted at.
    pub closed spec fn latest(&self) -> int {
        self.latest as int
    }

    pub open spec fn wf(&self) -> bool {
        &&& packets_wf(self@)
        &&& forall|i: int| 0 <= i < self@.len() ==> #[trigger] self@[i].created_at <= self.latest()
        &&& i64::MIN <= self.latest() <= i64::MAX
    }

    /// An empty mailbox that has not acted yet.
    pub fn new() -> (r: Mailbox)
        ensures
            r.wf(),
            r@ == Seq::<EncryptedPacket>::empty(),
            r.latest() == i64::MIN,
    {
        Mailbox { packets: Vec::new(), latest: i64::MIN }
    }

    /// The latest instant the mailbox has acted at.
    pub fn latest_time(&self) -> (r: i64)
        ensures
            r == self.latest(),
    {
        self.latest
    }

    /// Number of packets held.
    pub fn len(&self) -> (r: usize)
        ensures
            r == self@.len(),
    {
        self.packets.len()
    }

    /// Whether a packet with identifier `id` is held.
    pub fn contains_id(&self, id: u128) -> (r: bool)
        ensures
            r == holds_id(self@, id),
    {
        let mut i: usize = 0;
        while i < self.packets.len()
            invariant
                i <= self.packets@.len(),
                forall|j: int| 0 <= j < i ==> self.packets@[j].id != id,
            decreases self.packets@.len() - i,
        {
            if self.packets[i].id == id {
                return true;
            }
            i = i + 1;
        }
        false
    }

    /// Stores a packet under identifier `id`, created at `now`, expiring
    /// after its requested lifetime (an hour when none is given). An
    /// oversized payload is refused before anything else, then an
    /// identifier already in use.
    pub fn push_at(&mut self, id: u128, now: i64, req: PushRequest) -> (r: Result<u128, RelayError>)
        requires
            old(self).wf(),
        ensures
            final(self).wf(),
            r is Err ==> final(self)@ == old(self)@ && final(self).latest() == old(self).latest(),
            r is Ok ==> final(self).latest() == later_of(old(self).latest(), now as int),
            req.payload_cipher@.len() > MAX_PAYLOAD_SIZE ==> r == Err::<u128, RelayError>(
                RelayError::PayloadTooLarge,
            ) && final(self)@ == old(self)@,
            req.payload_cipher@.len() <= MAX_PAYLOAD_SIZE && holds_id(old(self)@, id) ==> r == Err::<
                u128,
                RelayError,
            >(RelayError::IdConflict) && final(self)@ == old(self)@,
            req.payload_cipher@.len() <= MAX_PAYLOAD_SIZE && !holds_id(old(self)@, id) ==> r == Ok::<
                u128,
                RelayError,
            >(id) && final(self)@ == after_push(old(self)@, packet_of(id, now as int, req)),
    {
        if req.payload_cipher.len() > MAX_PAYLOAD_SIZE {
            return Err(RelayError::PayloadTooLarge);
        }
        if self.contains_id(id) {
            return Err(RelayError::IdConflict);
        }
        let lifetime: u64 = match req.ttl_seconds {
            Some(t) => t,
            None => DEFAULT_TTL_SECONDS,
        };
        let end: i128 = now as i128 + lifetime as i128;
        let ttl: i64 = if end > i64::MAX as i128 {
            i64::MAX
        } else {
            end as i64
        };
        let ghost spec_req = req;
        let p = EncryptedPacket {
            id,
            mesh_id: req.mesh_id,
            target_instance_id: req.target_instance_id,
            sender_instance_id: req.sender_instance_id,
            payload_cipher: req.payload_cipher,
            nonce: req.nonce,
            created_at: now,
            ttl,
        };
        assert(p == packet_of(id, now as int, spec_req));
        let mut i: usize = self.packets.len();
        while i > 0 && self.packets[i - 1].created_at > now
            invariant
                i <= self.packets@.len(),
                forall|j: int| i <= j < self.packets@.len() ==> self.packets@[j].created_at > now,
            decreases i,
        {
            i = i - 1;
        }
        let ghost s = self.packets@;
        proof {
            assert forall|j: int| 0 <= j < i implies (by_creation())(#[trigger] s[j]) <= (by_creation())(p) by {
                assert(s[j].created_at <= s[i - 1].created_at);
            }
            lemma_insert_ordered_at(s, p, by_creation(), i as int);
        }
        proof {
            assert forall|j: int| 0 <= j < s.len() implies (packet_key())(#[trigger] s[j]) != (packet_key())(p) by {
                assert(!(0 <= j < s.len() && s[j].id == id));
            }
            lemma_insert_keeps_order(s, p, i as int, by_creation(), packet_key());
        }
        self.packets.insert(i, p);
        self.latest = later_time(self.latest, now);
        proof {
            let t = self.packets@;
            assert forall|j: int| 0 <= j < t.len() implies #[trigger] t[j].created_at <= self.latest() by {
                if j < i {
                    assert(t[j] == s[j]);
                } else if j > i {
                    assert(t[j] == s[j - 1]);
                }
            }
        }
        Ok(id)
    }

    /// Takes every packet addressed to `target` in `mesh` whose expiry lies
    /// after `now`, oldest first. Exactly those packets leave the mailbox.
    pub fn pull_at(&mut self, mesh_id: &String, target: &String, now: i64) -> (r: Vec<EncryptedPacket>)
        requires
            old(self).wf(),
        ensures
            final(self).wf(),
            final(self).latest() == later_of(old(self).latest(), now as int),
            r@ == pulled(old(self)@, mesh_id@, target@, now as int),
            final(self)@ == after_pull(old(self)@, mesh_id@, target@, now as int),
    {
        let mut src: Vec<EncryptedPacket> = Vec::new();
        std::mem::swap(&mut src, &mut self.packets);
        let ghost s0 = src@;
        let mut pending = reversed(src);
        let ghost dp = deliver_pred(mesh_id@, target@, now as int);
        let ghost kp = keep_pred(mesh_id@, target@, now as int);
        let mut out: Vec<EncryptedPacket> = Vec::new();
        let mut keep: Vec<EncryptedPacket> = Vec::new();
        let ghost mut k: int = 0;
        while pending.len() > 0
            invariant
                0 <= k <= s0.len(),
                pending@.len() + k == s0.len(),
                forall|i: int| 0 <= i < pending@.len() ==> pending@[i] == s0[s0.len() - 1 - i],
                out@ == s0.take(k).filter(dp),
                keep@ == s0.take(k).filter(kp),
                dp == deliver_pred(mesh_id@, target@, now as int),
                kp == keep_pred(mesh_id@, target@, now as int),
            decreases pending.len(),
        {
            let p = pending.pop().unwrap();
            proof {
                assert(p == s0[k]);
                lemma_take_push(s0, k, dp);
                lemma_take_push(s0, k, kp);
            }
            if p.mesh_id == *mesh_id && p.target_instance_id == *target && now < p.ttl {
                out.push(p);
            } else {
                keep.push(p);
            }
            proof {
                k = k + 1;
            }
        }
        proof {
            assert(s0.take(k) =~= s0);
            lemma_filter_sorted(s0, kp, by_creation());
            lemma_filter_unique(s0, kp, packet_key());
            lemma_filter_elements(s0, kp);
        }
        self.packets = keep;
        self.latest = later_time(self.latest, now);
        proof {
            assert forall|j: int| 0 <= j < self@.len() implies #[trigger] self@[j].created_at <= self.latest() by {
                assert(s0.contains(self@[j]));
            }
        }
        out
    }

    /// Drops every packet whose expiry lies before `now`, wherever it is
    /// addressed, and returns how many were dropped.
    pub fn expire_at(&mut self, now: i64) -> (r: u64)
        requires
            old(self).wf(),
        ensures
            final(self).wf(),
            final(self).latest() == later_of(old(self).latest(), now as int),
            final(self)@ == after_expire(old(self)@, now as int),
            r == old(self)@.len() - final(self)@.len(),
    {
        let mut src: Vec<EncryptedPacket> = Vec::new();
        std::mem::swap(&mut src, &mut self.packets);
        let ghost s0 = src@;
        let mut pending = reversed(src);
        let ghost lp = live_pred(now as int);
        let total: usize = pending.len();
        let mut keep: Vec<EncryptedPacket> = Vec::new();
        let mut k: usize = 0;
        while pending.len() > 0
            invariant
                k <= s0.len(),
                total == s0.len(),
                pending@.len() + k == s0.len(),
                forall|i: int| 0 <= i < pending@.len() ==> pending@[i] == s0[s0.len() - 1 - i],
                keep@ == s0.take(k as int).filter(lp),
                keep@.len() <= k,
                lp == live_pred(now as int),
            decreases pending.len(),
        {
            let p = pending.pop().unwrap();
            proof {
                assert(p == s0[k as int]);
                lemma_take_push(s0, k as int, lp);
            }
            if !(p.ttl < now) {
                keep.push(p);
            }
            k = k + 1;
        }
        proof {
            assert(s0.take(k as int) =~= s0);
            lemma_filter_sorted(s0, lp, by_creation());
            lemma_filter_unique(s0, lp, packet_key());
            lemma_filter_elements(s0, lp);
        }
        let removed: usize = total - keep.len();
        self.packets = keep;
        self.latest = later_time(self.latest, now);
        proof {
            assert forall|j: int| 0 <= j < self@.len() implies #[trigger] self@[j].created_at <= self.latest() by {
                assert(s0.contains(self@[j]));
            }
        }
        removed as u64
    }
}

} // verus!
