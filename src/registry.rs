//! The node registry: one registration per device and mesh, refreshed by
//! heartbeats and demoted to offline when it goes stale.
use vstd::prelude::*;

use crate::mailbox::{later_of, later_time};
use crate::models::{NodeState, NodeStatus, RegisterRequest, RegisterResponse, Registration};
use crate::ordered::{insert_ordered, sorted_by, unique_by, lemma_filter_sorted, lemma_filter_unique, lemma_insert_ordered_at, lemma_insert_keeps_order, lemma_take_push, lemma_filter_elements, reversed};

verus! {

/// A registration unseen for longer than this many seconds is demoted (20 minutes).
pub const STALE_AFTER_SECONDS: u64 = 1200;

/// Registrations are kept most recently seen first.
pub open spec fn by_recency() -> spec_fn(Registration) -> int {
    |r: Registration| -(r.last_seen as int)
}

/// A registration's identity: its mesh and its instance.
pub open spec fn reg_key() -> spec_fn(Registration) -> (Seq<char>, Seq<char>) {
    |r: Registration| (r.mesh_id@, r.instance_id@)
}

pub open spec fn is_identity(r: Registration, mesh: Seq<char>, instance: Seq<char>) -> bool {
    r.mesh_id@ == mesh && r.instance_id@ == instance
}

pub open spec fn other_identity_pred(mesh: Seq<char>, instance: Seq<char>) -> spec_fn(Registration) -> bool {
    |r: Registration| !is_identity(r, mesh, instance)
}

pub open spec fn identity_pred(mesh: Seq<char>, instance: Seq<char>) -> spec_fn(Registration) -> bool {
    |r: Registration| is_identity(r, mesh, instance)
}

pub open spec fn mesh_pred(mesh: Seq<char>) -> spec_fn(Registration) -> bool {
    |r: Registration| r.mesh_id@ == mesh
}

/// The registrations of one mesh, in stored order.
pub open spec fn in_mesh(s: Seq<Registration>, mesh: Seq<char>) -> Seq<Registration> {
    s.filter(mesh_pred(mesh))
}

/// The lifecycle state a status text names; any text but the two
/// lifecycle names is kept as given.
pub open spec fn state_of_text(text: String) -> NodeState {
    if text@ == "online"@ {
        NodeState::Online
    } else if text@ == "offline"@ {
        NodeState::Offline
    } else {
        NodeState::Other(text)
    }
}

/// The text of a state.
pub open spec fn state_text(st: NodeState) -> Seq<char> {
    match st {
        NodeState::Online => "online"@,
        NodeState::Offline => "offline"@,
        NodeState::Other(t) => t@,
    }
}

/// The state a heartbeat sets: online unless the device reports another.
pub open spec fn requested_state(status: Option<String>) -> NodeState {
    match status {
        Some(t) => state_of_text(t),
        None => NodeState::Online,
    }
}

/// The registration a heartbeat at `now` writes.
pub open spec fn registration_of(now: int, req: RegisterRequest) -> Registration {
    Registration {
        mesh_id: req.mesh_id,
        instance_id: req.instance_id,
        external_ip: req.external_ip,
        port: req.port,
        status: requested_state(req.status),
        last_seen: now as i64,
    }
}

/// A heartbeat replaces any registration of the same identity and places
/// the new one after every registration seen no earlier.
pub open spec fn after_heartbeat(s: Seq<Registration>, reg: Registration) -> Seq<Registration> {
    insert_ordered(s.filter(other_identity_pred(reg.mesh_id@, reg.instance_id@)), reg, by_recency())
}

/// An online registration last seen more than `threshold` seconds before
/// `now` is stale.
pub open spec fn is_stale(r: Registration, now: int, threshold: int) -> bool {
    r.status is Online && r.last_seen + threshold < now
}

pub open spec fn stale_pred(now: int, threshold: int) -> spec_fn(Registration) -> bool {
    |r: Registration| is_stale(r, now, threshold)
}

/// A registration after demotion at `now`.
pub open spec fn demoted(r: Registration, now: int, threshold: int) -> Registration {
    if is_stale(r, now, threshold) {
        Registration { status: NodeState::Offline, ..r }
    } else {
        r
    }
}

/// The registrations after demotion at `now`: same order, stale ones offline.
pub open spec fn after_demotion(s: Seq<Registration>, now: int, threshold: int) -> Seq<Registration> {
    s.map_values(|r: Registration| demoted(r, now, threshold))
}

/// `n` reports registration `r`.
pub open spec fn describes(n: NodeStatus, r: Registration) -> bool {
    n.instance_id == r.instance_id && n.external_ip == r.external_ip && n.port == r.port
        && n.status@ == state_text(r.status) && n.last_seen == r.last_seen
}

/// Well-formed registrations: most recently seen first, one per identity.
pub open spec fn regs_wf(s: Seq<Registration>) -> bool {
    sorted_by(s, by_recency()) && unique_by(s, reg_key())
}

/// The registrations, most recently seen first, and the latest instant the
/// registry has acted at; no registration was seen after it.
pub struct Registry {
    regs: Vec<Registration>,
    latest: i64,
}

impl View for Registry {
    type V = Seq<Registration>;

    closed spec fn view(&self) -> Seq<Registration> {
        self.regs@
    }
}

/// Reads a status text as a lifecycle state.
pub fn parse_state(text: String) -> (r: NodeState)
    ensures
        r == state_of_text(text),
{
    let online = String::from_str("online");
    let offline = String::from_str("offline");
    proof {
        reveal_strlit("online");
        reveal_strlit("offline");
    }
    if text == online {
        NodeState::Online
    } else if text == offline {
        NodeState::Offline
    } else {
        NodeState::Other(text)
    }
}

/// The text of a state.
pub fn describe_state(st: &NodeState) -> (r: String)
    ensures
        r@ == state_text(*st),
{
    proof {
        reveal_strlit("online");
        reveal_strlit("offline");
    }
    match st {
        NodeState::Online => String::from_str("online"),
        NodeState::Offline => String::from_str("offline"),
        NodeState::Other(t) => t.clone(),
    }
}

/// What a query reports of `r`.
pub fn node_status_of(r: &Registration) -> (n: NodeStatus)
    ensures
        describes(n, *r),
{
    NodeStatus {
        instance_id: r.instance_id.clone(),
        external_ip: r.external_ip.clone(),
        port: r.port,
        status: describe_state(&r.status),
        last_seen: r.last_seen,
    }
}

impl Registry {
    /// The latest instant the registry has acted at.
    pub closed spec fn latest(&self) -> int {
        self.latest as int
    }

    pub open spec fn wf(&self) -> bool {
        &&& regs_wf(self@)
        &&& forall|i: int| 0 <= i < self@.len() ==> #[trigger] self@[i].last_seen <= self.latest()
        &&& i64::MIN <= self.latest() <= i64::MAX
    }

    /// The latest instant the registry has acted at.
    pub fn latest_time(&self) -> (r: i64)
        ensures
            r == self.latest(),
    {
        self.latest
    }

    /// An empty registry.
    pub fn new() -> (r: Registry)
        ensures
            r.wf(),
            r@ == Seq::<Registration>::empty(),
            r.latest() == i64::MIN,
    {
        Registry { regs: Vec::new(), latest: i64::MIN }
    }

    /// Number of registrations.
    pub fn len(&self) -> (r: usize)
        ensures
            r == self@.len(),
    {
        self.regs.len()
    }

    /// Records a heartbeat at `now`: the registration of the request's
    /// identity is replaced by one with the announced address, seen at
    /// `now`, online unless the request names another status.
    pub fn heartbeat_at(&mut self, now: i64, req: RegisterRequest) -> (r: RegisterResponse)
        requires
            old(self).wf(),
        ensures
            final(self).wf(),
            final(self).latest() == later_of(old(self).latest(), now as int),
            final(self)@ == after_heartbeat(old(self)@, registration_of(now as int, req)),
            r.ok,
            r.instance_id == req.instance_id,
            r.mesh_id == req.mesh_id,
            r.status@ == state_text(requested_state(req.status)),
    {
        let ghost spec_req = req;
        let status = match req.status {
            Some(t) => parse_state(t),
            None => NodeState::Online,
        };
        let reg = Registration {
            mesh_id: req.mesh_id,
            instance_id: req.instance_id,
            external_ip: req.external_ip,
            port: req.port,
            status,
            last_seen: now,
        };
        assert(reg == registration_of(now as int, spec_req));
        let response = RegisterResponse {
            ok: true,
            instance_id: reg.instance_id.clone(),
            mesh_id: reg.mesh_id.clone(),
            status: describe_state(&reg.status),
        };
        let mut src: Vec<Registration> = Vec::new();
        std::mem::swap(&mut src, &mut self.regs);
        let ghost s0 = src@;
        let mut pending = reversed(src);
        let ghost op = other_identity_pred(reg.mesh_id@, reg.instance_id@);
        let mut rest: Vec<Registration> = Vec::new();
        let ghost mut k: int = 0;
        while pending.len() > 0
            invariant
                0 <= k <= s0.len(),
                pending@.len() + k == s0.len(),
                forall|i: int| 0 <= i < pending@.len() ==> pending@[i] == s0[s0.len() - 1 - i],
                rest@ == s0.take(k).filter(op),
                op == other_identity_pred(reg.mesh_id@, reg.instance_id@),
            decreases pending.len(),
        {
            let x = pending.pop().unwrap();
            proof {
                assert(x == s0[k]);
                lemma_take_push(s0, k, op);
            }
            if !(x.mesh_id == reg.mesh_id && x.instance_id == reg.instance_id) {
                rest.push(x);
            }
            proof {
                k = k + 1;
            }
        }
        proof {
            assert(s0.take(k) =~= s0);
            lemma_filter_sorted(s0, op, by_recency());
            lemma_filter_unique(s0, op, reg_key());
            lemma_filter_elements(s0, op);
        }
        let ghost t0 = rest@;
        let mut i: usize = rest.len();
        while i > 0 && rest[i - 1].last_seen < now
            invariant
                i <= rest@.len(),
                rest@ == t0,
                forall|j: int| i <= j < t0.len() ==> t0[j].last_seen < now,
            decreases i,
        {
            i = i - 1;
        }
        proof {
            assert forall|j: int| 0 <= j < i implies (by_recency())(#[trigger] t0[j]) <= (by_recency())(reg) by {
                assert(t0[j].last_seen >= t0[i - 1].last_seen);
            }
            lemma_insert_ordered_at(t0, reg, by_recency(), i as int);
        }
        proof {
            assert forall|j: int| 0 <= j < t0.len() implies (reg_key())(#[trigger] t0[j]) != (reg_key())(reg) by {
                assert(s0.contains(t0[j]));
                assert(op(t0[j]));
            }
            lemma_insert_keeps_order(t0, reg, i as int, by_recency(), reg_key());
        }
        rest.insert(i, reg);
        self.regs = rest;
        self.latest = later_time(self.latest, now);
        proof {
            let t = self@;
            assert forall|j: int| 0 <= j < t.len() implies #[trigger] t[j].last_seen <= self.latest() by {
                if j < i {
                    assert(t[j] == t0[j]);
                    assert(s0.contains(t0[j]));
                } else if j > i {
                    assert(t[j] == t0[j - 1]);
                    assert(s0.contains(t0[j - 1]));
                }
            }
        }
        response
    }

    /// The registrations of `mesh_id`, most recently seen first.
    pub fn query(&self, mesh_id: &String) -> (r: Vec<NodeStatus>)
        ensures
            r@.len() == in_mesh(self@, mesh_id@).len(),
            forall|i: int| 0 <= i < r@.len() ==> describes(#[trigger] r@[i], in_mesh(self@, mesh_id@)[i]),
    {
        let ghost s = self.regs@;
        let ghost mp = mesh_pred(mesh_id@);
        let mut out: Vec<NodeStatus> = Vec::new();
        let mut i: usize = 0;
        while i < self.regs.len()
            invariant
                i <= s.len(),
                s == self.regs@,
                mp == mesh_pred(mesh_id@),
                out@.len() == s.take(i as int).filter(mp).len(),
                forall|j: int| 0 <= j < out@.len() ==> describes(#[trigger] out@[j], s.take(i as int).filter(mp)[j]),
            decreases s.len() - i,
        {
            proof {
                lemma_take_push(s, i as int, mp);
            }
            if self.regs[i].mesh_id == *mesh_id {
                let n = node_status_of(&self.regs[i]);
                out.push(n);
            }
            i = i + 1;
        }
        proof {
            assert(s.take(s.len() as int) =~= s);
        }
        out
    }

    /// The registration of `instance_id` in `mesh_id`, if there is one.
    pub fn resolve(&self, mesh_id: &String, instance_id: &String) -> (r: Option<NodeStatus>)
        ensures
            r is None <==> !(exists|i: int| 0 <= i < self@.len() && is_identity(self@[i], mesh_id@, instance_id@)),
            r is Some ==> exists|i: int|
                0 <= i < self@.len() && is_identity(self@[i], mesh_id@, instance_id@) && describes(r->0, self@[i]),
    {
        let mut i: usize = 0;
        while i < self.regs.len()
            invariant
                i <= self.regs@.len(),
                forall|j: int| 0 <= j < i ==> !is_identity(self.regs@[j], mesh_id@, instance_id@),
            decreases self.regs@.len() - i,
        {
            if self.regs[i].mesh_id == *mesh_id && self.regs[i].instance_id == *instance_id {
                let n = node_status_of(&self.regs[i]);
                assert(is_identity(self@[i as int], mesh_id@, instance_id@));
                return Some(n);
            }
            i = i + 1;
        }
        None
    }

    /// Demotes to offline every online registration last seen more than
    /// `threshold` seconds before `now`, and returns how many it demoted.
    /// Nothing else changes.
    pub fn demote_stale_at(&mut self, now: i64, threshold: u64) -> (r: u64)
        requires
            old(self).wf(),
        ensures
            final(self).wf(),
            final(self).latest() == later_of(old(self).latest(), now as int),
            final(self)@ == after_demotion(old(self)@, now as int, threshold as int),
            r == old(self)@.filter(stale_pred(now as int, threshold as int)).len(),
    {
        let mut src: Vec<Registration> = Vec::new();
        std::mem::swap(&mut src, &mut self.regs);
        let ghost s0 = src@;
        let mut pending = reversed(src);
        let ghost sp = stale_pred(now as int, threshold as int);
        let total: usize = pending.len();
        let mut out: Vec<Registration> = Vec::new();
        let mut count: usize = 0;
        let mut k: usize = 0;
        while pending.len() > 0
            invariant
                k <= s0.len(),
                pending@.len() + k == s0.len(),
                forall|i: int| 0 <= i < pending@.len() ==> pending@[i] == s0[s0.len() - 1 - i],
                out@ == s0.take(k as int).map_values(|r: Registration| demoted(r, now as int, threshold as int)),
                count == s0.take(k as int).filter(sp).len(),
                count <= k,
                total == s0.len(),
                sp == stale_pred(now as int, threshold as int),
            decreases pending.len(),
        {
            let x = pending.pop().unwrap();
            proof {
                assert(x == s0[k as int]);
                lemma_take_push(s0, k as int, sp);
                assert(s0.take(k + 1).map_values(|r: Registration| demoted(r, now as int, threshold as int))
                    =~= s0.take(k as int).map_values(|r: Registration| demoted(r, now as int, threshold as int)).push(
                        demoted(x, now as int, threshold as int)));
            }
            let online = match &x.status {
                NodeState::Online => true,
                _ => false,
            };
            if online && (x.last_seen as i128) + (threshold as i128) < (now as i128) {
                let y = Registration {
                    mesh_id: x.mesh_id,
                    instance_id: x.instance_id,
                    external_ip: x.external_ip,
                    port: x.port,
                    status: NodeState::Offline,
                    last_seen: x.last_seen,
                };
                out.push(y);
                count = count + 1;
            } else {
                out.push(x);
            }
            k = k + 1;
        }
        proof {
            assert(s0.take(k as int) =~= s0);
            let t = out@;
            assert forall|a: int, b: int| 0 <= a < b < t.len() implies (by_recency())(t[a]) <= (by_recency())(t[b]) by {
                assert((by_recency())(s0[a]) <= (by_recency())(s0[b]));
            }
            assert forall|a: int, b: int|
                0 <= a < t.len() && 0 <= b < t.len() && a != b implies (reg_key())(t[a]) != (reg_key())(t[b]) by {
                assert((reg_key())(s0[a]) != (reg_key())(s0[b]));
            }
        }
        self.regs = out;
        self.latest = later_time(self.latest, now);
        proof {
            assert forall|j: int| 0 <= j < self@.len() implies #[trigger] self@[j].last_seen <= self.latest() by {
                assert(self@[j].last_seen == s0[j].last_seen);
            }
        }
        count as u64
    }
}

} // verus!
